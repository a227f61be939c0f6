pub mod cache;
pub mod classifier;
pub mod export;
pub mod file_guard;
pub mod fixers;
pub mod parser;
pub mod scanner;
pub mod search;
pub mod transformer;
