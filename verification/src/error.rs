//! The errors of pattern construction and matching.

use crate::text::decimal;
use crate::text::push_decimal;
use crate::tokenizer::TokenType;
use crate::weburl::parse_error_text;
use crate::weburl::url_error_text;
use vstd::prelude::*;
use vstd::string::StringExecFns;

verus! {

/// Why a pattern string could not be split into tokens.
#[derive(Debug, Clone, Copy, PartialEq, Eq)]
pub enum TokenizerError {
    IncompleteEscapeCode,
    InvalidName,
    InvalidRegex(&'static str),
}

/// Why a token list is not a pattern.
#[derive(Debug, Clone, PartialEq, Eq)]
pub enum ParserError {
    /// The kind that was required, the kind that was found, and the text of
    /// the token that was found.
    ExpectedToken(TokenType, TokenType, String),
    /// Two groups of one component carry this name.
    DuplicateName(String),
}

/// An error of pattern construction or of matching.
#[derive(Debug, PartialEq, Eq)]
pub enum Error {
    BaseUrlRequired,
    BaseUrlWithInit,
    /// The error and the code-point offset that it is reported at.
    Tokenizer(TokenizerError, usize),
    Parser(ParserError),
    Url(url::ParseError),
    RegExp,
}

/// A `ParserError` with its strings as sequences.
pub enum ParserErrorView {
    ExpectedToken(TokenType, TokenType, Seq<char>),
    DuplicateName(Seq<char>),
}

/// An `Error` with its strings as sequences.
pub enum ErrorView {
    BaseUrlRequired,
    BaseUrlWithInit,
    Tokenizer(TokenizerError, nat),
    Parser(ParserErrorView),
    Url(url::ParseError),
    RegExp,
}

impl View for ParserError {
    type V = ParserErrorView;

    open spec fn view(&self) -> ParserErrorView {
        match *self {
            ParserError::ExpectedToken(expected, found, value) => ParserErrorView::ExpectedToken(
                expected,
                found,
                value@,
            ),
            ParserError::DuplicateName(name) => ParserErrorView::DuplicateName(name@),
        }
    }
}

impl View for Error {
    type V = ErrorView;

    open spec fn view(&self) -> ErrorView {
        match *self {
            Error::BaseUrlRequired => ErrorView::BaseUrlRequired,
            Error::BaseUrlWithInit => ErrorView::BaseUrlWithInit,
            Error::Tokenizer(e, pos) => ErrorView::Tokenizer(e, pos as nat),
            Error::Parser(e) => ErrorView::Parser(e@),
            Error::Url(e) => ErrorView::Url(e),
            Error::RegExp => ErrorView::RegExp,
        }
    }
}

/// The name of a kind of token.
pub open spec fn token_type_name(kind: TokenType) -> Seq<char> {
    match kind {
        TokenType::Open => "Open"@,
        TokenType::Close => "Close"@,
        TokenType::Regexp => "Regexp"@,
        TokenType::Name => "Name"@,
        TokenType::Char => "Char"@,
        TokenType::EscapedChar => "EscapedChar"@,
        TokenType::OtherModifier => "OtherModifier"@,
        TokenType::Asterisk => "Asterisk"@,
        TokenType::End => "End"@,
        TokenType::InvalidChar => "InvalidChar"@,
    }
}

fn token_type_text(kind: TokenType) -> (r: &'static str)
    ensures
        r@ == token_type_name(kind),
{
    match kind {
        TokenType::Open => "Open",
        TokenType::Close => "Close",
        TokenType::Regexp => "Regexp",
        TokenType::Name => "Name",
        TokenType::Char => "Char",
        TokenType::EscapedChar => "EscapedChar",
        TokenType::OtherModifier => "OtherModifier",
        TokenType::Asterisk => "Asterisk",
        TokenType::End => "End",
        TokenType::InvalidChar => "InvalidChar",
    }
}

/// What a tokenizer error says.
pub open spec fn tokenizer_error_message(e: TokenizerError) -> Seq<char> {
    match e {
        TokenizerError::IncompleteEscapeCode => "incomplete escape code"@,
        TokenizerError::InvalidName => "invalid name; must be at least length 1"@,
        TokenizerError::InvalidRegex(reason) => "invalid regex: "@ + reason@,
    }
}

/// What a parser error says.
pub open spec fn parser_error_message(e: ParserErrorView) -> Seq<char> {
    match e {
        ParserErrorView::ExpectedToken(expected, found, value) => "expected token "@
            + token_type_name(expected) + ", found '"@ + value + "' of type "@ + token_type_name(
            found,
        ),
        ParserErrorView::DuplicateName(name) => "pattern contains duplicate name "@ + name,
    }
}

/// What an error says.
pub open spec fn error_message(e: ErrorView) -> Seq<char> {
    match e {
        ErrorView::BaseUrlRequired => "a relative input without a base URL is not valid"@,
        ErrorView::BaseUrlWithInit => "specifying both an init object, and a separate base URL is not valid"@,
        ErrorView::Tokenizer(e, pos) => "tokenizer error: "@ + tokenizer_error_message(e)
            + " (at char "@ + decimal(pos) + ")"@,
        ErrorView::Parser(e) => "parser error: "@ + parser_error_message(e),
        ErrorView::Url(e) => url_error_text(e),
        ErrorView::RegExp => "regexp error"@,
    }
}

impl TokenizerError {
    /// The text of this error.
    pub fn message(&self) -> (r: String)
        ensures
            r@ == tokenizer_error_message(*self),
    {
        match self {
            TokenizerError::IncompleteEscapeCode => "incomplete escape code".to_owned(),
            TokenizerError::InvalidName => "invalid name; must be at least length 1".to_owned(),
            TokenizerError::InvalidRegex(reason) => {
                let mut r = "invalid regex: ".to_owned();
                r.append(reason);
                r
            },
        }
    }
}

impl ParserError {
    /// The text of this error.
    pub fn message(&self) -> (r: String)
        ensures
            r@ == parser_error_message(self@),
    {
        match self {
            ParserError::ExpectedToken(expected, found, value) => {
                let mut r = "expected token ".to_owned();
                r.append(token_type_text(*expected));
                r.append(", found '");
                r.append(value.as_str());
                r.append("' of type ");
                r.append(token_type_text(*found));
                r
            },
            ParserError::DuplicateName(name) => {
                let mut r = "pattern contains duplicate name ".to_owned();
                r.append(name.as_str());
                r
            },
        }
    }
}

impl Error {
    /// The text of this error.
    pub fn message(&self) -> (r: String)
        ensures
            r@ == error_message(self@),
    {
        match self {
            Error::BaseUrlRequired => "a relative input without a base URL is not valid".to_owned(),
            Error::BaseUrlWithInit => "specifying both an init object, and a separate base URL is not valid".to_owned(),
            Error::Tokenizer(e, pos) => {
                let mut r = "tokenizer error: ".to_owned();
                let text = e.message();
                r.append(text.as_str());
                r.append(" (at char ");
                push_decimal(&mut r, *pos);
                r.append(")");
                r
            },
            Error::Parser(e) => {
                let mut r = "parser error: ".to_owned();
                let text = e.message();
                r.append(text.as_str());
                r
            },
            Error::Url(e) => parse_error_text(*e),
            Error::RegExp => "regexp error".to_owned(),
        }
    }
}

/// A string or an error, with strings as sequences.
pub open spec fn string_result_view(r: Result<String, Error>) -> Result<Seq<char>, ErrorView> {
    match r {
        Ok(s) => Ok(s@),
        Err(e) => Err(e@),
    }
}

} // verus!
