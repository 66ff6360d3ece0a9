pub mod app;
pub mod todo;
