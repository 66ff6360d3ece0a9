pub mod global;
pub mod project;
pub mod section;
pub mod template;
