//! The library's error type.

use vstd::prelude::*;
use crate::text::{chars_of, concat_chars, string_from_chars};

verus! {

/// Errors of the texture tools.
#[derive(Debug, Clone, PartialEq, Eq)]
pub enum AppError {
    InvalidPath(&'static str),
    InvalidOperation(&'static str),
    IoError(String),
    ParseError(String),
    Cancelled,
}

/// The text the error is shown with.
pub open spec fn error_text(e: AppError) -> Seq<char> {
    match e {
        AppError::InvalidPath(m) => "invalid path: "@ + m@,
        AppError::InvalidOperation(m) => "invalid operation: "@ + m@,
        AppError::IoError(m) => "io error: "@ + m@,
        AppError::ParseError(m) => "parse error: "@ + m@,
        AppError::Cancelled => "operation cancelled"@,
    }
}

fn prefixed(prefix: &str, m: &str) -> (r: String)
    ensures
        r@ == prefix@ + m@,
{
    let a = chars_of(prefix);
    let b = chars_of(m);
    let c = concat_chars(a.as_slice(), b.as_slice());
    string_from_chars(c.as_slice())
}

impl AppError {
    /// The text the error is shown with.
    pub fn message(&self) -> (r: String)
        ensures
            r@ == error_text(*self),
    {
        match self {
            AppError::InvalidPath(m) => prefixed("invalid path: ", m),
            AppError::InvalidOperation(m) => prefixed("invalid operation: ", m),
            AppError::IoError(m) => prefixed("io error: ", m.as_str()),
            AppError::ParseError(m) => prefixed("parse error: ", m.as_str()),
            AppError::Cancelled => "operation cancelled".to_string(),
        }
    }
}

} // verus!
