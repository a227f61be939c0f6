pub mod commands;
pub mod json;
pub mod models;
pub mod pattern;
pub mod services;
pub mod text;
pub mod utils;
