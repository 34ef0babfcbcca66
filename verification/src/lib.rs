//! An HTML/CSS to PDF renderer: the document model, the style rules and
//! the text and font encoding steps, with their contracts.
pub mod cli;
pub mod composition;
pub mod css;
pub mod document;
pub mod error;
pub mod font;
pub mod html;
pub mod pdf;
pub mod text;
pub mod units;
