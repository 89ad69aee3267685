//! Failures of the lexer, the parser and the evaluator's host level.
//!
//! In-language errors of the evaluated program are *not* represented here:
//! they are ordinary runtime values (`Object::Error`). This type covers
//! lex-time failures, parse-time failures, and the fatal evaluation faults
//! that the evaluator cannot continue past.

use vstd::prelude::*;

use crate::token::{Token, TokenModel};

verus! {

/// A failure of the pipeline itself.
#[derive(Debug, Clone, PartialEq)]
pub enum Error {
    /// A lex-time failure: an unsupported character, carried in the message.
    TodoError(String),
    /// A parse-time failure: a required token did not match the expected
    /// kind. Carries the offending token, aborting the whole parse.
    InvalidTokenError(Token),
    /// A lex-time failure: an unrecognized character after a backslash in a
    /// string literal.
    InvalidCharError(char),
    /// A fatal evaluation fault: a condition the evaluator is not designed
    /// to continue past, such as calling a value that is not callable, or
    /// exceeding the evaluation depth budget.
    FatalError(String),
}

/// The mathematical image of an [`Error`].
pub enum ErrorModel {
    TodoError(Seq<char>),
    InvalidTokenError(TokenModel),
    InvalidCharError(char),
    FatalError(Seq<char>),
}

impl View for Error {
    type V = ErrorModel;

    open spec fn view(&self) -> ErrorModel {
        match self {
            Error::TodoError(s) => ErrorModel::TodoError(s@),
            Error::InvalidTokenError(t) => ErrorModel::InvalidTokenError(t@),
            Error::InvalidCharError(c) => ErrorModel::InvalidCharError(*c),
            Error::FatalError(s) => ErrorModel::FatalError(s@),
        }
    }
}

} // verus!
