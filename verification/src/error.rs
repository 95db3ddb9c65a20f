use vstd::prelude::*;
use crate::token::{Mark, Pat, SpecPat, SpecToken, Token};

verus! {

/// What went wrong when parsing.
#[derive(Debug, PartialEq, Eq)]
pub enum ErrorKind {
    /// The next token did not fit the expected pattern.
    Expected { expected: Pat, got: Token },
    /// A name was required but the next token is a reserved word.
    KeywordAsName,
    /// A label (a name or a number) was required.
    ExpectedLabel { got: Token },
    /// The left hand side of `=` is not a variable.
    NotAssignable,
    /// A token with an operator precedence is not an infix operator.
    ExpectedInfixOperator,
    /// An expression was required but the next token is a reserved word.
    KeywordAsExpression { keyword: String },
    /// An expression was required.
    ExpectedExpression { got: Token },
    /// A statement was not followed by a delimiter.
    ExpectedDelimiter { got: Token },
}

/// The model of an error kind.
pub enum SpecErrorKind {
    Expected { expected: SpecPat, got: SpecToken },
    KeywordAsName,
    ExpectedLabel { got: SpecToken },
    NotAssignable,
    ExpectedInfixOperator,
    KeywordAsExpression { keyword: Seq<char> },
    ExpectedExpression { got: SpecToken },
    ExpectedDelimiter { got: SpecToken },
}

impl View for ErrorKind {
    type V = SpecErrorKind;

    open spec fn view(&self) -> SpecErrorKind {
        match self {
            ErrorKind::Expected { expected, got } => SpecErrorKind::Expected {
                expected: expected@,
                got: got@,
            },
            ErrorKind::KeywordAsName => SpecErrorKind::KeywordAsName,
            ErrorKind::ExpectedLabel { got } => SpecErrorKind::ExpectedLabel { got: got@ },
            ErrorKind::NotAssignable => SpecErrorKind::NotAssignable,
            ErrorKind::ExpectedInfixOperator => SpecErrorKind::ExpectedInfixOperator,
            ErrorKind::KeywordAsExpression { keyword } => SpecErrorKind::KeywordAsExpression {
                keyword: keyword@,
            },
            ErrorKind::ExpectedExpression { got } => SpecErrorKind::ExpectedExpression { got: got@ },
            ErrorKind::ExpectedDelimiter { got } => SpecErrorKind::ExpectedDelimiter { got: got@ },
        }
    }
}

/// A parse error: where it happened and what went wrong.
#[derive(Debug, PartialEq, Eq)]
pub struct BasicError {
    pub mark: Mark,
    pub kind: ErrorKind,
}

/// The model of a parse error.
pub struct SpecError {
    pub mark: Mark,
    pub kind: SpecErrorKind,
}

impl View for BasicError {
    type V = SpecError;

    open spec fn view(&self) -> SpecError {
        SpecError { mark: self.mark, kind: self.kind@ }
    }
}

} // verus!
