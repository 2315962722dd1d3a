//! Linux telemetry domain: typed metrics and parsers for `/proc` and `/sys`
//! content.

use vstd::prelude::*;

use crate::text::{chars_of, string_from};

pub mod cpu;
pub mod disks;
pub mod host;
pub mod load;
pub mod memory;
pub mod network;
pub mod paths;
pub mod uptime;

verus! {

/// Errors produced while parsing a metric source.
#[derive(Debug, PartialEq, Eq)]
pub enum ParseError {
    /// The input had no usable content.
    Empty,
    /// A required field was absent.
    MissingField(String),
    /// A field had a value that could not be interpreted.
    InvalidValue {
        /// The field that failed to parse.
        field: String,
        /// The offending value.
        value: String,
    },
}

/// The mathematical content of a [`ParseError`].
pub enum ParseErrorView {
    Empty,
    MissingField(Seq<char>),
    InvalidValue { field: Seq<char>, value: Seq<char> },
}

impl View for ParseError {
    type V = ParseErrorView;

    open spec fn view(&self) -> ParseErrorView {
        match self {
            ParseError::Empty => ParseErrorView::Empty,
            ParseError::MissingField(f) => ParseErrorView::MissingField(f@),
            ParseError::InvalidValue { field, value } => ParseErrorView::InvalidValue {
                field: field@,
                value: value@,
            },
        }
    }
}

/// The view of a parse result whose success value has no view of its own.
pub open spec fn plain_result<T>(r: Result<T, ParseError>) -> Result<T, ParseErrorView> {
    match r {
        Ok(v) => Ok(v),
        Err(e) => Err(e@),
    }
}

impl ParseError {
    /// A missing-field error naming `field`.
    pub fn missing(field: &str) -> (e: ParseError)
        ensures
            e@ == ParseErrorView::MissingField(field@),
    {
        ParseError::MissingField(string_from(&chars_of(field)))
    }

    /// An invalid-value error for `field` holding `value`.
    pub fn invalid(field: &[char], value: &[char]) -> (e: ParseError)
        ensures
            e@ == (ParseErrorView::InvalidValue { field: field@, value: value@ }),
    {
        ParseError::InvalidValue { field: string_from(field), value: string_from(value) }
    }
}

} // verus!
