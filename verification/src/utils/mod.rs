pub mod path;
