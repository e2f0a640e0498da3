//! The errors of every stage.

use vstd::prelude::*;
use crate::reader::{Token, TokenV};

verus! {

/// Errors of the character level: names and quoted values.
#[derive(Debug, PartialEq, Eq, Clone, Copy, Structural)]
pub enum ReadError {
    NameInvalid(char),
    NameInvalidFirst(char),
    EOF,
    InvalidChar(char),
    UnmatchedQuote,
    EmptyName,
}

/// Errors of directives, of assembly and of validation.
#[derive(Debug, PartialEq, Eq, Clone)]
pub enum ParseError {
    /// A source named by an include that cannot be had.
    SourceNotFound(String),
    /// A source that was already read, included again.
    Reincluded(String),
    EmptyKey,
    UnknownKey(String),
    DuplicateLocale(String),
    /// Key, then locale.
    DuplicateEntry(String, String),
    MissingValues(String),
    UnexpectedToken(Token),
    ExpectedLocale,
    ExpectedValue,
    UndeclaredLocale(String),
    /// Key, then locale.
    MissingLocale(String, String),
    NoLocales,
    NestedBrace,
    ExtraClosingBrace,
    /// Line, argument so far, the character.
    ArgBadChar(String, String, char),
    /// Line, argument, the closing character.
    ArgBadStart(String, String, char),
    /// Key, locale, that locale's arguments, the first locale's arguments.
    ArgumentMismatch(String, String, Vec<String>, Vec<String>),
}

/// A `ParseError` with its texts as characters.
pub enum ParseErrorV {
    SourceNotFound(Seq<char>),
    Reincluded(Seq<char>),
    EmptyKey,
    UnknownKey(Seq<char>),
    DuplicateLocale(Seq<char>),
    DuplicateEntry(Seq<char>, Seq<char>),
    MissingValues(Seq<char>),
    UnexpectedToken(TokenV),
    ExpectedLocale,
    ExpectedValue,
    UndeclaredLocale(Seq<char>),
    MissingLocale(Seq<char>, Seq<char>),
    NoLocales,
    NestedBrace,
    ExtraClosingBrace,
    ArgBadChar(Seq<char>, Seq<char>, char),
    ArgBadStart(Seq<char>, Seq<char>, char),
    ArgumentMismatch(Seq<char>, Seq<char>, Seq<Seq<char>>, Seq<Seq<char>>),
}

pub open spec fn strings_view(v: Seq<String>) -> Seq<Seq<char>> {
    v.map_values(|s: String| s@)
}

impl View for ParseError {
    type V = ParseErrorV;

    open spec fn view(&self) -> ParseErrorV {
        match self {
            ParseError::SourceNotFound(s) => ParseErrorV::SourceNotFound(s@),
            ParseError::Reincluded(s) => ParseErrorV::Reincluded(s@),
            ParseError::EmptyKey => ParseErrorV::EmptyKey,
            ParseError::UnknownKey(s) => ParseErrorV::UnknownKey(s@),
            ParseError::DuplicateLocale(s) => ParseErrorV::DuplicateLocale(s@),
            ParseError::DuplicateEntry(k, l) => ParseErrorV::DuplicateEntry(k@, l@),
            ParseError::MissingValues(s) => ParseErrorV::MissingValues(s@),
            ParseError::UnexpectedToken(t) => ParseErrorV::UnexpectedToken(t@),
            ParseError::ExpectedLocale => ParseErrorV::ExpectedLocale,
            ParseError::ExpectedValue => ParseErrorV::ExpectedValue,
            ParseError::UndeclaredLocale(s) => ParseErrorV::UndeclaredLocale(s@),
            ParseError::MissingLocale(k, l) => ParseErrorV::MissingLocale(k@, l@),
            ParseError::NoLocales => ParseErrorV::NoLocales,
            ParseError::NestedBrace => ParseErrorV::NestedBrace,
            ParseError::ExtraClosingBrace => ParseErrorV::ExtraClosingBrace,
            ParseError::ArgBadChar(l, a, c) => ParseErrorV::ArgBadChar(l@, a@, *c),
            ParseError::ArgBadStart(l, a, c) => ParseErrorV::ArgBadStart(l@, a@, *c),
            ParseError::ArgumentMismatch(k, l, a, b) => ParseErrorV::ArgumentMismatch(
                k@,
                l@,
                strings_view(a@),
                strings_view(b@),
            ),
        }
    }
}

/// Any error of a compile.
#[derive(Debug, PartialEq, Eq, Clone)]
pub enum Error {
    Read(ReadError),
    Parse(ParseError),
}

pub enum ErrorV {
    Read(ReadError),
    Parse(ParseErrorV),
}

impl View for Error {
    type V = ErrorV;

    open spec fn view(&self) -> ErrorV {
        match self {
            Error::Read(e) => ErrorV::Read(*e),
            Error::Parse(e) => ErrorV::Parse(e@),
        }
    }
}

} // verus!
