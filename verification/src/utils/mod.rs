pub mod config;
pub mod error;
pub mod fatal_error;
pub mod query;
