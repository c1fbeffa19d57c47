//! The scanner's mathematical model: a character-class state machine over the
//! remaining input that yields the next token, reaches the end, or fails.
//! The executable lexer is proved to follow this model step by step.

use vstd::prelude::*;

use crate::chars::{
    digits_val, is_digit_char, is_ident_char, is_ident_start_char, is_op_char, is_space_char,
    run_len,
};
use crate::error::{ErrorLevel, SpecError};
use crate::lexer::{mismatch_msg, unmatched_msg, BracketType, SpecLexeme, SpecNest};
use crate::location::{advance_loc_seq, next_loc, SpecLoc};
use crate::token::SpecToken;

verus! {

/// Model of the lexer's one-token lookahead buffer.
#[verifier::ext_equal]
pub ghost enum SpecLexState {
    Started,
    Read(SpecToken),
    EOF,
}

/// Model of the whole lexer: the input not yet scanned, the cursor location,
/// the stack of open brackets (innermost last) and the lookahead buffer.
#[verifier::ext_equal]
pub ghost struct LexerModel {
    pub rest: Seq<char>,
    pub loc: SpecLoc,
    pub nesting: Seq<SpecNest>,
    pub state: SpecLexState,
}

/// Rank used in termination measures: advancing either shortens `rest` or
/// moves a non-end state to the end state.
pub open spec fn lex_rank(m: LexerModel) -> int {
    if m.state is EOF {
        0
    } else {
        1
    }
}

/// Outcome of one scan for the next token.
#[verifier::ext_equal]
pub ghost enum ScanOut {
    /// A token was read; `rest`, `loc` and `nesting` are the state after it.
    Tok { token: SpecToken, rest: Seq<char>, loc: SpecLoc, nesting: Seq<SpecNest> },
    /// Only whitespace remained; `loc` is the location past it.
    End { loc: SpecLoc },
    /// A scanning error.
    Fail { err: SpecError },
}

/// The digit-run predicate.
pub open spec fn digit_pred() -> spec_fn(char) -> bool {
    |c: char| is_digit_char(c)
}

/// The identifier-continuation predicate.
pub open spec fn ident_pred() -> spec_fn(char) -> bool {
    |c: char| is_ident_char(c)
}

/// The operator-character predicate.
pub open spec fn op_pred() -> spec_fn(char) -> bool {
    |c: char| is_op_char(c)
}

/// The predicate for characters inside a quoted string.
pub open spec fn str_body_pred() -> spec_fn(char) -> bool {
    |c: char| c != '"'
}

pub open spec fn err_at(loc: SpecLoc, msg: Seq<char>) -> SpecError {
    SpecError { location: loc, level: ErrorLevel::Error, message: msg }
}

/// Message of the error for a numeric literal outside the 64-bit signed range.
pub open spec fn overflow_msg() -> Seq<char> {
    "integer literal does not fit in a 64-bit signed value"@
}

/// Message of the error for a character outside every recognized class.
pub open spec fn unrecognized_msg(c: char) -> Seq<char> {
    "could not figure out what to do with character ("@ + seq![c] + ")"@
}

/// Message of the error for a string literal the input ends inside of.
pub open spec fn unterminated_msg() -> Seq<char> {
    "input ended before the closing double-quote of a string"@
}

/// The bracket kind a closing character pops.
pub open spec fn close_bt(c: char) -> BracketType {
    if c == ')' {
        BracketType::Paren
    } else if c == ']' {
        BracketType::Square
    } else {
        BracketType::Curly
    }
}

/// The bracket kind an opening character pushes.
pub open spec fn open_bt(c: char) -> BracketType {
    if c == '(' {
        BracketType::Paren
    } else if c == '[' {
        BracketType::Square
    } else {
        BracketType::Curly
    }
}

/// The fixed lexeme of a punctuation character.
pub open spec fn punct_lexeme(c: char) -> SpecLexeme {
    if c == '(' {
        SpecLexeme::LParen
    } else if c == ')' {
        SpecLexeme::RParen
    } else if c == '[' {
        SpecLexeme::LSquare
    } else if c == ']' {
        SpecLexeme::RSquare
    } else if c == '{' {
        SpecLexeme::LCurly
    } else if c == '}' {
        SpecLexeme::RCurly
    } else if c == ';' {
        SpecLexeme::Semicolon
    } else {
        SpecLexeme::Comma
    }
}

/// Scan of a decimal literal, optionally signed: the digit run is consumed
/// whole, and a value outside the 64-bit signed range is a scanning error.
pub open spec fn scan_number(rest: Seq<char>, loc: SpecLoc, nesting: Seq<SpecNest>) -> ScanOut {
    let neg = rest[0] == '-';
    let dstart: int = if neg {
        1
    } else {
        0
    };
    let k = run_len(rest.skip(dstart), digit_pred()) as int;
    let span = rest.take(dstart + k);
    let mag = digits_val(rest.skip(dstart).take(k));
    let v: int = if neg {
        -mag
    } else {
        mag
    };
    if v < i64::MIN as int || v > i64::MAX as int {
        ScanOut::Fail { err: err_at(loc, overflow_msg()) }
    } else {
        ScanOut::Tok {
            token: SpecToken { location: loc, lexeme: SpecLexeme::Signed(v) },
            rest: rest.skip(dstart + k),
            loc: advance_loc_seq(loc, span),
            nesting,
        }
    }
}

/// One step of the scanner: skip whitespace, then classify the next
/// character and read one token.
///
/// A line feed met while the nesting stack is empty is itself a `Semicolon`
/// token; inside any bracket it is ordinary whitespace. Digit runs (with an
/// optional leading minus) are signed integers, identifier runs are
/// identifiers, operator-character runs are single operator tokens, a
/// double-quote opens a string that runs to the next double-quote, and the
/// fixed punctuation characters are their own tokens, opening brackets
/// pushing and closing brackets popping the nesting stack.
pub open spec fn spec_scan(rest: Seq<char>, loc: SpecLoc, nesting: Seq<SpecNest>) -> ScanOut
    decreases rest.len(),
{
    if rest.len() == 0 {
        ScanOut::End { loc }
    } else {
        let c = rest[0];
        if c == '\n' && nesting.len() == 0 {
            ScanOut::Tok {
                token: SpecToken { location: loc, lexeme: SpecLexeme::Semicolon },
                rest: rest.drop_first(),
                loc: next_loc(loc, c),
                nesting,
            }
        } else if is_space_char(c) {
            spec_scan(rest.drop_first(), next_loc(loc, c), nesting)
        } else if is_digit_char(c) || (c == '-' && rest.len() > 1 && is_digit_char(rest[1])) {
            scan_number(rest, loc, nesting)
        } else if is_ident_start_char(c) {
            let k = run_len(rest, ident_pred()) as int;
            ScanOut::Tok {
                token: SpecToken { location: loc, lexeme: SpecLexeme::Identifier(rest.take(k)) },
                rest: rest.skip(k),
                loc: advance_loc_seq(loc, rest.take(k)),
                nesting,
            }
        } else if is_op_char(c) {
            let k = run_len(rest, op_pred()) as int;
            ScanOut::Tok {
                token: SpecToken { location: loc, lexeme: SpecLexeme::Operator(rest.take(k)) },
                rest: rest.skip(k),
                loc: advance_loc_seq(loc, rest.take(k)),
                nesting,
            }
        } else if c == '"' {
            let k = run_len(rest.skip(1), str_body_pred()) as int;
            if 1 + k == rest.len() {
                ScanOut::Fail { err: err_at(loc, unterminated_msg()) }
            } else {
                let span = rest.take(k + 2);
                ScanOut::Tok {
                    token: SpecToken { location: loc, lexeme: SpecLexeme::QuotedString(span) },
                    rest: rest.skip(k + 2),
                    loc: advance_loc_seq(loc, span),
                    nesting,
                }
            }
        } else if c == '(' || c == '[' || c == '{' {
            ScanOut::Tok {
                token: SpecToken { location: loc, lexeme: punct_lexeme(c) },
                rest: rest.drop_first(),
                loc: next_loc(loc, c),
                nesting: nesting.push(SpecNest { location: loc, bt: open_bt(c) }),
            }
        } else if c == ')' || c == ']' || c == '}' {
            let bt = close_bt(c);
            if nesting.len() == 0 {
                ScanOut::Fail { err: err_at(loc, unmatched_msg(bt)) }
            } else if nesting.last().bt != bt {
                ScanOut::Fail { err: err_at(loc, mismatch_msg(bt, nesting.last())) }
            } else {
                ScanOut::Tok {
                    token: SpecToken { location: loc, lexeme: punct_lexeme(c) },
                    rest: rest.drop_first(),
                    loc: next_loc(loc, c),
                    nesting: nesting.drop_last(),
                }
            }
        } else if c == ';' || c == ',' {
            ScanOut::Tok {
                token: SpecToken { location: loc, lexeme: punct_lexeme(c) },
                rest: rest.drop_first(),
                loc: next_loc(loc, c),
                nesting,
            }
        } else {
            ScanOut::Fail { err: err_at(loc, unrecognized_msg(c)) }
        }
    }
}

/// One advance of the lexer: a no-op at the end state, a transition to the
/// end state on empty input, and otherwise one scan whose token becomes the
/// buffered lookahead. The returned location is the new token's start, or
/// the location reached at end of input.
pub open spec fn advance_model(m: LexerModel) -> Result<(LexerModel, SpecLoc), SpecError> {
    if m.state is EOF {
        Ok((m, m.loc))
    } else if m.rest.len() == 0 {
        Ok(
            (
                LexerModel {
                    rest: m.rest,
                    loc: m.loc,
                    nesting: m.nesting,
                    state: SpecLexState::EOF,
                },
                m.loc,
            ),
        )
    } else {
        match spec_scan(m.rest, m.loc, m.nesting) {
            ScanOut::Tok { token, rest, loc, nesting } => Ok(
                (
                    LexerModel { rest, loc, nesting, state: SpecLexState::Read(token) },
                    token.location,
                ),
            ),
            ScanOut::End { loc } => Ok(
                (
                    LexerModel {
                        rest: Seq::empty(),
                        loc,
                        nesting: m.nesting,
                        state: SpecLexState::EOF,
                    },
                    loc,
                ),
            ),
            ScanOut::Fail { err } => Err(err),
        }
    }
}

/// Message of the error for an operation that needs a buffered token before
/// the first advance was ever made.
pub open spec fn not_started_msg() -> Seq<char> {
    "lexer was not started!"@
}

/// Message of the error for a required lexeme met by the end of the input.
pub open spec fn eof_expected_msg(l: SpecLexeme) -> Seq<char> {
    "hit EOF but expected "@ + crate::lexer::describe_spec_lexeme(l)
}

/// Model of `chomp`: the buffered token must equal `l` structurally, and is
/// then consumed by one advance; otherwise the mismatch (or the missing
/// buffer) is an error and nothing is consumed.
pub open spec fn chomp_model(m: LexerModel, l: SpecLexeme) -> Result<LexerModel, SpecError> {
    match m.state {
        SpecLexState::Started => Err(err_at(m.loc, not_started_msg())),
        SpecLexState::Read(t) => if t.lexeme == l {
            match advance_model(m) {
                Ok((m2, _)) => Ok(m2),
                Err(e) => Err(e),
            }
        } else {
            Err(
                SpecError {
                    location: t.location,
                    level: ErrorLevel::Error,
                    message: crate::error::unexpected_msg(
                        t.lexeme,
                        crate::lexer::describe_spec_lexeme(l),
                    ),
                },
            )
        },
        SpecLexState::EOF => Err(err_at(m.loc, eof_expected_msg(l))),
    }
}

/// Model of `skip_semicolon`: advance while the buffered token is a
/// semicolon.
pub open spec fn skip_semicolon_model(m: LexerModel) -> Result<LexerModel, SpecError>
    decreases m.rest.len(), lex_rank(m),
    via skip_semicolon_model_dec
{
    if m.state matches SpecLexState::Read(t) && t.lexeme is Semicolon {
        match advance_model(m) {
            Ok((m2, _)) => skip_semicolon_model(m2),
            Err(e) => Err(e),
        }
    } else {
        Ok(m)
    }
}

#[via_fn]
proof fn skip_semicolon_model_dec(m: LexerModel) {
    lemma_advance_progress(m);
}

/// The measure that every consuming step reduces: twice the un-scanned
/// input length, plus one while the lexer is not at its end state.
pub open spec fn lex_measure(m: LexerModel) -> int {
    2 * m.rest.len() + lex_rank(m)
}

/// A successful advance never increases the measure, and strictly decreases
/// it unless the lexer is already at the end state.
pub proof fn lemma_advance_measure(m: LexerModel)
    ensures
        match advance_model(m) {
            Ok((m2, _)) => lex_measure(m2) <= lex_measure(m) && (!(m.state is EOF)
                ==> lex_measure(m2) < lex_measure(m)),
            Err(_) => true,
        },
{
    lemma_advance_progress(m);
}

/// A successful chomp consumes the matched token: the measure strictly
/// decreases.
pub proof fn lemma_chomp_measure(m: LexerModel, l: SpecLexeme)
    ensures
        match chomp_model(m, l) {
            Ok(m2) => lex_measure(m2) < lex_measure(m),
            Err(_) => true,
        },
{
    lemma_advance_progress(m);
}

/// Skipping semicolons never increases the measure.
pub proof fn lemma_skip_semicolon_measure(m: LexerModel)
    ensures
        match skip_semicolon_model(m) {
            Ok(m2) => lex_measure(m2) <= lex_measure(m),
            Err(_) => true,
        },
    decreases m.rest.len(), lex_rank(m),
{
    if m.state matches SpecLexState::Read(t) && t.lexeme is Semicolon {
        lemma_advance_progress(m);
        match advance_model(m) {
            Ok((m2, _)) => {
                lemma_skip_semicolon_measure(m2);
            },
            Err(_) => {},
        }
    }
}

/// The sequence of lexemes an input scans to, from a given location and
/// nesting stack: one scan per lexeme until the end of the input, or the
/// first scanning error.
pub open spec fn scan_lexemes(rest: Seq<char>, loc: SpecLoc, nesting: Seq<SpecNest>) -> Result<
    Seq<SpecLexeme>,
    SpecError,
>
    decreases rest.len(),
{
    match spec_scan(rest, loc, nesting) {
        ScanOut::End { .. } => Ok(Seq::empty()),
        ScanOut::Fail { err } => Err(err),
        ScanOut::Tok { token, rest: rest2, loc: loc2, nesting: nesting2 } => if rest2.len()
            < rest.len() {
            match scan_lexemes(rest2, loc2, nesting2) {
                Ok(ls) => Ok(seq![token.lexeme] + ls),
                Err(e) => Err(e),
            }
        } else {
            arbitrary()
        },
    }
}

/// A scan that yields a token consumes at least one character.
pub proof fn lemma_scan_progress(rest: Seq<char>, loc: SpecLoc, nesting: Seq<SpecNest>)
    ensures
        match spec_scan(rest, loc, nesting) {
            ScanOut::Tok { rest: r2, .. } => r2.len() < rest.len(),
            ScanOut::End { .. } => true,
            ScanOut::Fail { .. } => true,
        },
    decreases rest.len(),
{
    if rest.len() > 0 {
        let c = rest[0];
        if c == '\n' && nesting.len() == 0 {
        } else if is_space_char(c) {
            lemma_scan_progress(rest.drop_first(), next_loc(loc, c), nesting);
        } else if is_digit_char(c) || (c == '-' && rest.len() > 1 && is_digit_char(rest[1])) {
            let neg = c == '-';
            let dstart: int = if neg {
                1
            } else {
                0
            };
            crate::chars::lemma_run_len_props(rest.skip(dstart), digit_pred());
            assert(is_digit_char(rest.skip(dstart)[0]));
            assert(run_len(rest.skip(dstart), digit_pred()) >= 1);
        } else if is_ident_start_char(c) {
            crate::chars::lemma_run_len_props(rest, ident_pred());
            assert(run_len(rest, ident_pred()) >= 1);
        } else if is_op_char(c) {
            crate::chars::lemma_run_len_props(rest, op_pred());
            assert(run_len(rest, op_pred()) >= 1);
        } else if c == '"' {
            crate::chars::lemma_run_len_props(rest.skip(1), str_body_pred());
        }
    }
}

/// Advancing never grows the un-scanned input, and strictly shrinks the
/// measure `(rest length, rank)` unless the lexer is already at the end.
pub proof fn lemma_advance_progress(m: LexerModel)
    ensures
        match advance_model(m) {
            Ok((m2, _)) => m2.rest.len() <= m.rest.len() && (m.state is EOF ==> m2 == m) && (!(
            m.state is EOF) ==> (m2.rest.len() < m.rest.len() || (m2.rest.len() == m.rest.len()
                && lex_rank(m2) < lex_rank(m)))),
            Err(_) => true,
        },
{
    if !(m.state is EOF) && m.rest.len() > 0 {
        lemma_scan_progress(m.rest, m.loc, m.nesting);
    }
}

} // verus!
