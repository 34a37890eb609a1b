//! The errors of the library, and the syntax errors behind a failed parse.

use vstd::prelude::*;
use vstd::string::StringExecFns;

verus! {

/// What the library reports to its caller: a message under one of two heads.
#[derive(Debug, PartialEq, Eq)]
pub enum Error {
    /// No project root could be determined, or no template was found.
    Root(String),
    /// A template did not parse, or one of its guards could not be evaluated.
    Template(String),
}

/// An `Error` with its message as a sequence of characters.
pub enum ErrorView {
    Root(Seq<char>),
    Template(Seq<char>),
}

impl View for Error {
    type V = ErrorView;

    open spec fn view(&self) -> ErrorView {
        match self {
            Error::Root(m) => ErrorView::Root(m@),
            Error::Template(m) => ErrorView::Template(m@),
        }
    }
}

impl ErrorView {
    /// The line that presents the error to a reader.
    pub open spec fn text(self) -> Seq<char> {
        match self {
            ErrorView::Root(m) => "project root error: "@ + m,
            ErrorView::Template(m) => "template parse error: "@ + m,
        }
    }
}

impl Error {
    /// The line that presents the error to a reader.
    pub fn to_string(&self) -> (s: String)
        ensures
            s@ == self@.text(),
    {
        match self {
            Error::Root(m) => String::from_str("project root error: ").concat(m.as_str()),
            Error::Template(m) => String::from_str("template parse error: ").concat(m.as_str()),
        }
    }
}

/// Why a template or a guard expression is not well formed.
#[derive(Debug, Clone, Copy, PartialEq, Eq, Structural)]
pub enum SyntaxError {
    /// A `<!--` has no `-->` behind it.
    UnterminatedTag,
    /// Something other than whitespace follows `endif` inside its tag.
    ContentAfterEndif,
    /// An `endif` tag closes no open `if`.
    StrayEndif,
    /// The input ends with an `if` still open.
    UnclosedIf,
    /// Characters follow a complete guard expression.
    TrailingCharacters,
    /// A parenthesised expression or a matcher argument is not closed by `)`.
    ExpectedCloseParen,
    /// `env` is not followed by `(`.
    ExpectedOpenParenAfterEnv,
    /// No `)` stands behind the argument of `env(`.
    MissingCloseParen,
    /// Neither a matcher nor `(` stands where an operand is due.
    ExpectedMatcher,
    /// `exists` or `lang` is not followed by `(`.
    ExpectedOpenParen,
    /// A matcher argument is empty.
    ExpectedString,
    /// A quoted string is due and the text has ended.
    ExpectedQuote,
    /// A backslash is the last character of a quoted string's text.
    UnterminatedEscape,
    /// A quoted string lacks its closing quote.
    UnterminatedString,
    /// A raw string's `r` is not followed by `"`.
    ExpectedRawQuote,
    /// A raw string lacks its closing `"`.
    UnterminatedRawString,
    /// The argument of `env()` is empty.
    EmptyEnvArgument,
    /// The argument of `env()` names no variable.
    EmptyEnvName,
}

impl SyntaxError {
    /// The message under which the error is reported.
    pub open spec fn message(self) -> Seq<char> {
        match self {
            SyntaxError::UnterminatedTag => "unterminated tag; missing '-->'"@,
            SyntaxError::ContentAfterEndif => "unexpected content after 'endif'"@,
            SyntaxError::StrayEndif => "stray 'endif'"@,
            SyntaxError::UnclosedIf => "unclosed 'if' block"@,
            SyntaxError::TrailingCharacters => "trailing characters in expression"@,
            SyntaxError::ExpectedCloseParen => "expected ')'"@,
            SyntaxError::ExpectedOpenParenAfterEnv => "expected '(' after env"@,
            SyntaxError::MissingCloseParen => "missing ')' in expression"@,
            SyntaxError::ExpectedMatcher => "expected matcher or '('"@,
            SyntaxError::ExpectedOpenParen => "expected '('"@,
            SyntaxError::ExpectedString => "expected string"@,
            SyntaxError::ExpectedQuote => "expected quote"@,
            SyntaxError::UnterminatedEscape => "unterminated escape"@,
            SyntaxError::UnterminatedString => "unterminated string"@,
            SyntaxError::ExpectedRawQuote => "expected '\"' after r"@,
            SyntaxError::UnterminatedRawString => "unterminated raw string"@,
            SyntaxError::EmptyEnvArgument => "empty env() argument"@,
            SyntaxError::EmptyEnvName => "empty env var name"@,
        }
    }

    /// The error as the library reports it.
    pub open spec fn report(self) -> ErrorView {
        ErrorView::Template(self.message())
    }

    /// The error as the library reports it.
    pub fn to_error(self) -> (e: Error)
        ensures
            e@ == self.report(),
    {
        let m: &str = match self {
            SyntaxError::UnterminatedTag => "unterminated tag; missing '-->'",
            SyntaxError::ContentAfterEndif => "unexpected content after 'endif'",
            SyntaxError::StrayEndif => "stray 'endif'",
            SyntaxError::UnclosedIf => "unclosed 'if' block",
            SyntaxError::TrailingCharacters => "trailing characters in expression",
            SyntaxError::ExpectedCloseParen => "expected ')'",
            SyntaxError::ExpectedOpenParenAfterEnv => "expected '(' after env",
            SyntaxError::MissingCloseParen => "missing ')' in expression",
            SyntaxError::ExpectedMatcher => "expected matcher or '('",
            SyntaxError::ExpectedOpenParen => "expected '('",
            SyntaxError::ExpectedString => "expected string",
            SyntaxError::ExpectedQuote => "expected quote",
            SyntaxError::UnterminatedEscape => "unterminated escape",
            SyntaxError::UnterminatedString => "unterminated string",
            SyntaxError::ExpectedRawQuote => "expected '\"' after r",
            SyntaxError::UnterminatedRawString => "unterminated raw string",
            SyntaxError::EmptyEnvArgument => "empty env() argument",
            SyntaxError::EmptyEnvName => "empty env var name",
        };
        Error::Template(String::from_str(m))
    }
}

} // verus!
