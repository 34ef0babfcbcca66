//! Style sheets: the value types, property names, value parsing, selector
//! support and the cascade.
pub mod cascade;
pub mod parser;
pub mod rules;
pub mod selector;
pub mod types;
