//! Why a protocol line could not be decoded.
use vstd::prelude::*;

verus! {

/// Why a protocol line could not be decoded.
#[derive(Debug, Clone, PartialEq, Eq)]
pub enum ParseError {
    /// The line has fewer than two tokens.
    TooShort,
    /// More than `MAX_ARGUMENTS` key/value pairs.
    TooManyArguments,
    /// An argument name without a value.
    DanglingKey,
    /// The token overflows a C long.
    TokenOverflow,
    /// An unknown command name.
    UnknownCommand(String),
    /// An unknown feature name.
    UnknownFeature(String),
    /// A required argument is missing.
    MissingArgument(&'static str),
    /// An argument has a value it cannot take.
    InvalidValue { name: &'static str, value: String },
    /// A malformed MPLS label list.
    MalformedMpls(String),
}

/// `ParseError` with its texts as character sequences.
pub enum ParseErrorView {
    TooShort,
    TooManyArguments,
    DanglingKey,
    TokenOverflow,
    UnknownCommand(Seq<char>),
    UnknownFeature(Seq<char>),
    MissingArgument(Seq<char>),
    InvalidValue { name: Seq<char>, value: Seq<char> },
    MalformedMpls(Seq<char>),
}

impl View for ParseError {
    type V = ParseErrorView;

    open spec fn view(&self) -> ParseErrorView {
        match self {
            ParseError::TooShort => ParseErrorView::TooShort,
            ParseError::TooManyArguments => ParseErrorView::TooManyArguments,
            ParseError::DanglingKey => ParseErrorView::DanglingKey,
            ParseError::TokenOverflow => ParseErrorView::TokenOverflow,
            ParseError::UnknownCommand(s) => ParseErrorView::UnknownCommand(s@),
            ParseError::UnknownFeature(s) => ParseErrorView::UnknownFeature(s@),
            ParseError::MissingArgument(s) => ParseErrorView::MissingArgument(s@),
            ParseError::InvalidValue { name, value } => ParseErrorView::InvalidValue {
                name: name@,
                value: value@,
            },
            ParseError::MalformedMpls(s) => ParseErrorView::MalformedMpls(s@),
        }
    }
}

} // verus!
