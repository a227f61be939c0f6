pub mod messages;
pub mod tools;
