//! The HTML document model, its text helpers and the parser front end.
pub mod helper;
pub mod parser;
pub mod types;
