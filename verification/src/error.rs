//! The error type that every fallible step of the renderer returns.
use vstd::prelude::*;

verus! {

#[verifier::external_type_specification]
#[verifier::external_body]
pub struct ExIoError(std::io::Error);

/// What went wrong, and where.
#[derive(Debug)]
pub enum AppError {
    Io(std::io::Error),
    FontError(String),
    HtmlParsing(String),
    CssParsing(String),
    Layout(String),
    PdfWriter(String),
}

impl AppError {
    /// The message that the error prints as: a fixed prefix naming the
    /// stage, then the detail.
    pub fn message(&self) -> (r: String)
        ensures
            match self {
                AppError::Io(_) => r@.len() >= 11 && r@.take(11) == "I/O error: "@,
                AppError::FontError(e) => r@ == "font error: "@ + e@,
                AppError::HtmlParsing(e) => r@ == "HTML parsing error: "@ + e@,
                AppError::CssParsing(e) => r@ == "CSS parsing error: "@ + e@,
                AppError::Layout(e) => r@ == "layout error: "@ + e@,
                AppError::PdfWriter(e) => r@ == "PDF writer error: "@ + e@,
            },
    {
        let (prefix, detail) = match self {
            AppError::Io(e) => ("I/O error: ", e.to_string()),
            AppError::FontError(e) => ("font error: ", e.clone()),
            AppError::HtmlParsing(e) => ("HTML parsing error: ", e.clone()),
            AppError::CssParsing(e) => ("CSS parsing error: ", e.clone()),
            AppError::Layout(e) => ("layout error: ", e.clone()),
            AppError::PdfWriter(e) => ("PDF writer error: ", e.clone()),
        };
        proof {
            reveal_strlit("I/O error: ");
            reveal_strlit("font error: ");
            reveal_strlit("HTML parsing error: ");
            reveal_strlit("CSS parsing error: ");
            reveal_strlit("layout error: ");
            reveal_strlit("PDF writer error: ");
        }
        let mut r = String::from_str(prefix);
        r.append(detail.as_str());
        r
    }
}

impl From<std::io::Error> for AppError {
    fn from(value: std::io::Error) -> (r: Self) {
        AppError::Io(value)
    }
}

impl vstd::std_specs::convert::FromSpecImpl<std::io::Error> for AppError {
    open spec fn obeys_from_spec() -> bool {
        true
    }

    open spec fn from_spec(v: std::io::Error) -> Self {
        AppError::Io(v)
    }
}

} // verus!
