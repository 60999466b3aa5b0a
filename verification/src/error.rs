//! The errors of a parse. Each one stops the parse and carries the line that
//! the tokenizer had reached.

use vstd::prelude::*;
use crate::expr::ChainName;
use crate::lexer::{Token, TokenType};

verus! {

/// What the parser was looking for: a token of some class, or a given text.
#[derive(Debug, PartialEq, Eq)]
pub enum Expected {
    Kind(TokenType),
    Text(String),
}

/// What an [`Expected`] holds.
pub enum ExpectedView {
    Kind(TokenType),
    Text(Seq<char>),
}

impl View for Expected {
    type V = ExpectedView;

    open spec fn view(&self) -> ExpectedView {
        match self {
            Expected::Kind(kind) => ExpectedView::Kind(*kind),
            Expected::Text(text) => ExpectedView::Text(text@),
        }
    }
}

/// What went wrong.
#[derive(Debug, PartialEq, Eq)]
pub enum ErrorSpec {
    /// Another token stands where this one was expected.
    ExpectedFound(Expected, Token),
    /// A closing delimiter with nothing open.
    CloseDelimeter(String),
    /// The token cannot be a pitch.
    InvalidPitch(Token),
    /// The token cannot be a duration.
    DurationQuantifier(Token),
    /// A backlink of zero samples.
    ZeroBacklink,
    /// The token behind `!` is no count of samples.
    InvalidBackLink(Token),
    /// A keyword that cannot be a term.
    InvalidKeyword(String),
    /// No chain of this name is in scope.
    CantFindChain(String),
    /// The token is no property of a chain of notes.
    ExpectedNotesProperty(Token),
    /// A property was asked of a chain that is not made of notes.
    PropertyOfGenericChain(ChainName, String),
    /// A delimiter that cannot begin a term.
    InvalidDelimeter(String),
    /// The input ended inside a construct.
    UnexpectedEndOfFile,
    /// The token cannot begin a term.
    InvalidTerm(Token),
    /// The scope already has a chain of this name.
    ChainRedeclaration(String),
    /// No source of this name is at hand.
    CantOpenFile(String),
    /// Sources include one another more deeply than there are sources.
    IncludeTooDeep(String),
}

/// What an [`ErrorSpec`] holds.
pub enum ErrorSpecView {
    ExpectedFound(ExpectedView, (TokenType, Seq<char>)),
    CloseDelimeter(Seq<char>),
    InvalidPitch((TokenType, Seq<char>)),
    DurationQuantifier((TokenType, Seq<char>)),
    ZeroBacklink,
    InvalidBackLink((TokenType, Seq<char>)),
    InvalidKeyword(Seq<char>),
    CantFindChain(Seq<char>),
    ExpectedNotesProperty((TokenType, Seq<char>)),
    PropertyOfGenericChain(ChainName, Seq<char>),
    InvalidDelimeter(Seq<char>),
    UnexpectedEndOfFile,
    InvalidTerm((TokenType, Seq<char>)),
    ChainRedeclaration(Seq<char>),
    CantOpenFile(Seq<char>),
    IncludeTooDeep(Seq<char>),
}

impl View for ErrorSpec {
    type V = ErrorSpecView;

    open spec fn view(&self) -> ErrorSpecView {
        match self {
            ErrorSpec::ExpectedFound(expected, found) => ErrorSpecView::ExpectedFound(
                expected@,
                found@,
            ),
            ErrorSpec::CloseDelimeter(text) => ErrorSpecView::CloseDelimeter(text@),
            ErrorSpec::InvalidPitch(token) => ErrorSpecView::InvalidPitch(token@),
            ErrorSpec::DurationQuantifier(token) => ErrorSpecView::DurationQuantifier(token@),
            ErrorSpec::ZeroBacklink => ErrorSpecView::ZeroBacklink,
            ErrorSpec::InvalidBackLink(token) => ErrorSpecView::InvalidBackLink(token@),
            ErrorSpec::InvalidKeyword(text) => ErrorSpecView::InvalidKeyword(text@),
            ErrorSpec::CantFindChain(name) => ErrorSpecView::CantFindChain(name@),
            ErrorSpec::ExpectedNotesProperty(token) => ErrorSpecView::ExpectedNotesProperty(
                token@,
            ),
            ErrorSpec::PropertyOfGenericChain(chain, property) => {
                ErrorSpecView::PropertyOfGenericChain(*chain, property@)
            },
            ErrorSpec::InvalidDelimeter(text) => ErrorSpecView::InvalidDelimeter(text@),
            ErrorSpec::UnexpectedEndOfFile => ErrorSpecView::UnexpectedEndOfFile,
            ErrorSpec::InvalidTerm(token) => ErrorSpecView::InvalidTerm(token@),
            ErrorSpec::ChainRedeclaration(name) => ErrorSpecView::ChainRedeclaration(name@),
            ErrorSpec::CantOpenFile(name) => ErrorSpecView::CantOpenFile(name@),
            ErrorSpec::IncludeTooDeep(name) => ErrorSpecView::IncludeTooDeep(name@),
        }
    }
}

/// An error and the line on which it was found, counted from 1; line 0 where
/// no line has been given.
#[derive(Debug, PartialEq, Eq)]
pub struct Error {
    pub kind: ErrorSpec,
    pub line: usize,
}

/// What an [`Error`] holds.
pub struct ErrorView {
    pub kind: ErrorSpecView,
    pub line: nat,
}

impl View for Error {
    type V = ErrorView;

    open spec fn view(&self) -> ErrorView {
        ErrorView { kind: self.kind@, line: self.line as nat }
    }
}

impl Error {
    /// An error that has no line yet.
    pub fn new(kind: ErrorSpec) -> (e: Error)
        ensures
            e@ == (ErrorView { kind: kind@, line: 0 }),
    {
        Error { kind, line: 0 }
    }

    /// The same error, found on the given line.
    pub fn on_line(self, line: usize) -> (e: Error)
        ensures
            e@ == (ErrorView { kind: self@.kind, line: line as nat }),
    {
        Error { kind: self.kind, line }
    }
}

/// The result of a step of the parse.
pub type SonnyResult<T> = Result<T, Error>;

} // verus!
