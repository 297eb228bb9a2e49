//! The ways in which a query fails to parse.

use vstd::prelude::*;
use crate::token::{Token, TokenView};

verus! {

/// A failure to parse a query.
#[derive(Debug, PartialEq, Eq)]
pub enum Error {
    /// The tokens ended, or took a wrong shape, before a grammar rule was complete.
    LexerUnexpectedEndOfInput,
    /// A token stood where the grammar allows none of its kind.
    ParserUnexpectedToken(Token),
    /// A mnemonic or an operator character that the language does not have.
    ParserUnknownBang(String),
    /// An argument whose text its predicate cannot read.
    ParserInvalidInput(String),
}

/// What an [`Error`] is, with text as a sequence of characters.
pub ghost enum ErrorView {
    LexerUnexpectedEndOfInput,
    ParserUnexpectedToken(TokenView),
    ParserUnknownBang(Seq<char>),
    ParserInvalidInput(Seq<char>),
}

impl View for Error {
    type V = ErrorView;

    open spec fn view(&self) -> ErrorView {
        match self {
            Error::LexerUnexpectedEndOfInput => ErrorView::LexerUnexpectedEndOfInput,
            Error::ParserUnexpectedToken(token) => ErrorView::ParserUnexpectedToken(token@),
            Error::ParserUnknownBang(text) => ErrorView::ParserUnknownBang(text@),
            Error::ParserInvalidInput(text) => ErrorView::ParserInvalidInput(text@),
        }
    }
}

impl Clone for Error {
    fn clone(&self) -> (copy: Error)
        ensures
            copy@ == self@,
    {
        match self {
            Error::LexerUnexpectedEndOfInput => Error::LexerUnexpectedEndOfInput,
            Error::ParserUnexpectedToken(token) => Error::ParserUnexpectedToken(token.clone()),
            Error::ParserUnknownBang(text) => Error::ParserUnknownBang(text.clone()),
            Error::ParserInvalidInput(text) => Error::ParserInvalidInput(text.clone()),
        }
    }
}

/// The outcome of a parsing step.
pub type Result<T> = std::result::Result<T, Error>;

} // verus!
