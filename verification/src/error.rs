//! Structured parse errors: a location, a severity level and a message,
//! rendered as `file:line:col: level: message`.

use vstd::prelude::*;

use crate::chars::{append_chars, append_str};
use crate::location::{render_loc, Location, SpecLoc};

verus! {

/// Severity of a diagnostic. Only `Error` is produced by the current rules;
/// the other levels are reserved for future diagnostics.
#[derive(Debug, Copy, Clone, PartialEq, Eq, Structural)]
pub enum ErrorLevel {
    Info,
    Warning,
    Error,
}

/// The rendering of a severity level.
pub open spec fn level_text(l: ErrorLevel) -> Seq<char> {
    match l {
        ErrorLevel::Info => "info"@,
        ErrorLevel::Warning => "warning"@,
        ErrorLevel::Error => "error"@,
    }
}

impl ErrorLevel {
    /// The level's name as it appears in a rendered diagnostic.
    pub fn render(&self) -> (r: &'static str)
        ensures
            r@ == level_text(*self),
    {
        match self {
            ErrorLevel::Info => "info",
            ErrorLevel::Warning => "warning",
            ErrorLevel::Error => "error",
        }
    }
}

/// Mathematical model of a [`ParseError`].
#[verifier::ext_equal]
pub ghost struct SpecError {
    pub location: SpecLoc,
    pub level: ErrorLevel,
    pub message: Seq<char>,
}

/// A structured parse error. The first error anywhere aborts the whole
/// parse and is reported to the driver.
#[derive(Debug)]
pub struct ParseError {
    location: Location,
    level: ErrorLevel,
    message: Vec<char>,
}

impl View for ParseError {
    type V = SpecError;

    closed spec fn view(&self) -> SpecError {
        SpecError { location: self.location@, level: self.level, message: self.message@ }
    }
}

/// The `location: level: message` rendering of an error.
pub open spec fn render_error(e: SpecError) -> Seq<char> {
    render_loc(e.location) + ": "@ + level_text(e.level) + ": "@ + e.message
}

impl ParseError {
    /// An error-level diagnostic at `location` with the given message.
    pub fn error(location: Location, message: Vec<char>) -> (r: ParseError)
        ensures
            r@ == (SpecError { location: location@, level: ErrorLevel::Error, message: message@ }),
    {
        ParseError { location, level: ErrorLevel::Error, message }
    }

    /// The error for a syntactically recognized but unhandled construct.
    pub fn not_impl(location: Location) -> (r: ParseError)
        ensures
            r@.location == location@,
            r@.level == ErrorLevel::Error,
            r@.message == not_impl_msg(),
    {
        let mut message: Vec<char> = Vec::new();
        append_str(&mut message, "parsing this is not implemented");
        proof {
            assert(message@ =~= not_impl_msg());
        }
        ParseError { location, level: ErrorLevel::Error, message }
    }

    /// The full `file:line:col: level: message` rendering of this error.
    pub fn render(&self) -> (v: Vec<char>)
        ensures
            v@ == render_error(self@),
    {
        let mut v = self.location.render();
        append_str(&mut v, ": ");
        append_str(&mut v, self.level.render());
        append_str(&mut v, ": ");
        append_chars(&mut v, &self.message);
        proof {
            assert(v@ =~= render_error(self@));
        }
        v
    }

    /// The location this error points at.
    pub fn get_location(&self) -> (l: &Location)
        ensures
            l@ == self@.location,
    {
        &self.location
    }
}

/// Message of the error for an unhandled construct.
pub open spec fn not_impl_msg() -> Seq<char> {
    "parsing this is not implemented"@
}

/// Message of the error for a buffered token that does not match what a
/// grammar rule required.
pub open spec fn unexpected_msg(found: crate::lexer::SpecLexeme, expected: Seq<char>) -> Seq<
    char,
> {
    "unexpected token ("@ + crate::lexer::describe_spec_lexeme(found) + ") found. expected "@
        + expected
}

impl ParseError {
    /// The error for a token that does not match a required lexeme; names
    /// the found token and the expectation.
    pub fn unexpected(token: crate::token::Token, expected: Vec<char>) -> (r: ParseError)
        ensures
            r@.location == token@.location,
            r@.level == ErrorLevel::Error,
            r@.message == unexpected_msg(token@.lexeme, expected@),
    {
        let mut message: Vec<char> = Vec::new();
        append_str(&mut message, "unexpected token (");
        let found = crate::lexer::describe_lexeme(&token.lexeme);
        append_chars(&mut message, &found);
        append_str(&mut message, ") found. expected ");
        append_chars(&mut message, &expected);
        proof {
            assert(message@ =~= unexpected_msg(token@.lexeme, expected@));
        }
        ParseError { location: token.location, level: ErrorLevel::Error, message }
    }
}

} // verus!
