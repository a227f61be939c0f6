pub mod display;
pub mod project;
