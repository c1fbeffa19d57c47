//! The lexical scanner: lexemes, bracket nesting, and the pull-based lexer
//! cursor over the input text.

use vstd::prelude::*;

use crate::chars::{append_chars, append_str, chars_eq, copy_chars, copy_range, run_len};
use crate::error::ParseError;
use crate::location::{advance_loc_seq, next_loc, Location, SpecLoc};
use crate::scan::{LexerModel, SpecLexState};
use crate::token::{SpecToken, Token};

verus! {

/// Mathematical model of a [`Lexeme`].
#[verifier::ext_equal]
pub ghost enum SpecLexeme {
    Signed(int),
    Identifier(Seq<char>),
    QuotedString(Seq<char>),
    Operator(Seq<char>),
    Semicolon,
    LParen,
    RParen,
    LSquare,
    RSquare,
    LCurly,
    RCurly,
    Comma,
}

/// One lexical unit: a signed integer, an identifier, a quoted string
/// (delimiters included), an operator, or a fixed punctuation symbol.
/// Equality is structural: text-carrying variants compare by their text.
#[derive(Debug, PartialEq)]
pub enum Lexeme {
    Signed(i64),
    Identifier(Vec<char>),
    QuotedString(Vec<char>),
    Operator(Vec<char>),
    Semicolon,
    LParen,
    RParen,
    LSquare,
    RSquare,
    LCurly,
    RCurly,
    Comma,
}

impl View for Lexeme {
    type V = SpecLexeme;

    open spec fn view(&self) -> SpecLexeme {
        match self {
            Lexeme::Signed(v) => SpecLexeme::Signed(*v as int),
            Lexeme::Identifier(s) => SpecLexeme::Identifier(s@),
            Lexeme::QuotedString(s) => SpecLexeme::QuotedString(s@),
            Lexeme::Operator(s) => SpecLexeme::Operator(s@),
            Lexeme::Semicolon => SpecLexeme::Semicolon,
            Lexeme::LParen => SpecLexeme::LParen,
            Lexeme::RParen => SpecLexeme::RParen,
            Lexeme::LSquare => SpecLexeme::LSquare,
            Lexeme::RSquare => SpecLexeme::RSquare,
            Lexeme::LCurly => SpecLexeme::LCurly,
            Lexeme::RCurly => SpecLexeme::RCurly,
            Lexeme::Comma => SpecLexeme::Comma,
        }
    }
}

/// Structural equality of two lexemes, the comparison `chomp` and
/// `peek_matches` use.
pub fn lexeme_eq(a: &Lexeme, b: &Lexeme) -> (r: bool)
    ensures
        r == (a@ == b@),
{
    match (a, b) {
        (Lexeme::Signed(x), Lexeme::Signed(y)) => x == y,
        (Lexeme::Identifier(x), Lexeme::Identifier(y)) => chars_eq(x, y),
        (Lexeme::QuotedString(x), Lexeme::QuotedString(y)) => chars_eq(x, y),
        (Lexeme::Operator(x), Lexeme::Operator(y)) => chars_eq(x, y),
        (Lexeme::Semicolon, Lexeme::Semicolon) => true,
        (Lexeme::LParen, Lexeme::LParen) => true,
        (Lexeme::RParen, Lexeme::RParen) => true,
        (Lexeme::LSquare, Lexeme::LSquare) => true,
        (Lexeme::RSquare, Lexeme::RSquare) => true,
        (Lexeme::LCurly, Lexeme::LCurly) => true,
        (Lexeme::RCurly, Lexeme::RCurly) => true,
        (Lexeme::Comma, Lexeme::Comma) => true,
        _ => false,
    }
}

/// A fresh copy of a lexeme, equal to the original in every contract.
pub fn clone_lexeme(l: &Lexeme) -> (r: Lexeme)
    ensures
        r@ == l@,
{
    match l {
        Lexeme::Signed(v) => Lexeme::Signed(*v),
        Lexeme::Identifier(s) => Lexeme::Identifier(copy_chars(s)),
        Lexeme::QuotedString(s) => Lexeme::QuotedString(copy_chars(s)),
        Lexeme::Operator(s) => Lexeme::Operator(copy_chars(s)),
        Lexeme::Semicolon => Lexeme::Semicolon,
        Lexeme::LParen => Lexeme::LParen,
        Lexeme::RParen => Lexeme::RParen,
        Lexeme::LSquare => Lexeme::LSquare,
        Lexeme::RSquare => Lexeme::RSquare,
        Lexeme::LCurly => Lexeme::LCurly,
        Lexeme::RCurly => Lexeme::RCurly,
        Lexeme::Comma => Lexeme::Comma,
    }
}

/// Decimal rendering of a possibly negative integer.
pub open spec fn dec_int(v: int) -> Seq<char> {
    if v < 0 {
        seq!['-'] + crate::chars::dec_digits(-v)
    } else {
        crate::chars::dec_digits(v)
    }
}

/// Rendering of a lexeme in diagnostics: its kind, with its value or text
/// in parentheses where it carries one.
pub open spec fn describe_spec_lexeme(l: SpecLexeme) -> Seq<char> {
    match l {
        SpecLexeme::Signed(v) => "Signed("@ + dec_int(v) + ")"@,
        SpecLexeme::Identifier(s) => "Identifier("@ + s + ")"@,
        SpecLexeme::QuotedString(s) => "QuotedString("@ + s + ")"@,
        SpecLexeme::Operator(s) => "Operator("@ + s + ")"@,
        SpecLexeme::Semicolon => "Semicolon"@,
        SpecLexeme::LParen => "LParen"@,
        SpecLexeme::RParen => "RParen"@,
        SpecLexeme::LSquare => "LSquare"@,
        SpecLexeme::RSquare => "RSquare"@,
        SpecLexeme::LCurly => "LCurly"@,
        SpecLexeme::RCurly => "RCurly"@,
        SpecLexeme::Comma => "Comma"@,
    }
}

/// Decimal rendering of a 64-bit signed integer.
pub fn render_i64(v: i64) -> (r: Vec<char>)
    ensures
        r@ == dec_int(v as int),
{
    if v >= 0 {
        crate::chars::render_u64(v as u64)
    } else {
        let mag: u64 = if v == i64::MIN {
            9223372036854775808u64
        } else {
            (-v) as u64
        };
        let mut r: Vec<char> = Vec::new();
        r.push('-');
        let digits = crate::chars::render_u64(mag);
        append_chars(&mut r, &digits);
        proof {
            assert(r@ =~= dec_int(v as int));
        }
        r
    }
}

/// The diagnostic rendering of a lexeme.
pub fn describe_lexeme(l: &Lexeme) -> (r: Vec<char>)
    ensures
        r@ == describe_spec_lexeme(l@),
{
    let mut r: Vec<char> = Vec::new();
    match l {
        Lexeme::Signed(v) => {
            append_str(&mut r, "Signed(");
            let digits = render_i64(*v);
            append_chars(&mut r, &digits);
            append_str(&mut r, ")");
        },
        Lexeme::Identifier(s) => {
            append_str(&mut r, "Identifier(");
            append_chars(&mut r, s);
            append_str(&mut r, ")");
        },
        Lexeme::QuotedString(s) => {
            append_str(&mut r, "QuotedString(");
            append_chars(&mut r, s);
            append_str(&mut r, ")");
        },
        Lexeme::Operator(s) => {
            append_str(&mut r, "Operator(");
            append_chars(&mut r, s);
            append_str(&mut r, ")");
        },
        Lexeme::Semicolon => {
            append_str(&mut r, "Semicolon");
        },
        Lexeme::LParen => {
            append_str(&mut r, "LParen");
        },
        Lexeme::RParen => {
            append_str(&mut r, "RParen");
        },
        Lexeme::LSquare => {
            append_str(&mut r, "LSquare");
        },
        Lexeme::RSquare => {
            append_str(&mut r, "RSquare");
        },
        Lexeme::LCurly => {
            append_str(&mut r, "LCurly");
        },
        Lexeme::RCurly => {
            append_str(&mut r, "RCurly");
        },
        Lexeme::Comma => {
            append_str(&mut r, "Comma");
        },
    }
    proof {
        assert(r@ =~= describe_spec_lexeme(l@));
    }
    r
}

/// The source text a lexeme stands for: the decimal digits of an integer,
/// the text of an identifier, operator or quoted string (delimiters
/// included), and the fixed character of a punctuation symbol.
pub open spec fn lexeme_source(l: SpecLexeme) -> Seq<char> {
    match l {
        SpecLexeme::Signed(v) => dec_int(v),
        SpecLexeme::Identifier(s) => s,
        SpecLexeme::QuotedString(s) => s,
        SpecLexeme::Operator(s) => s,
        SpecLexeme::Semicolon => seq![';'],
        SpecLexeme::LParen => seq!['('],
        SpecLexeme::RParen => seq![')'],
        SpecLexeme::LSquare => seq!['['],
        SpecLexeme::RSquare => seq![']'],
        SpecLexeme::LCurly => seq!['{'],
        SpecLexeme::RCurly => seq!['}'],
        SpecLexeme::Comma => seq![','],
    }
}

/// The source text a lexeme stands for.
pub fn render_lexeme_source(l: &Lexeme) -> (r: Vec<char>)
    ensures
        r@ == lexeme_source(l@),
{
    match l {
        Lexeme::Signed(v) => render_i64(*v),
        Lexeme::Identifier(s) => copy_chars(s),
        Lexeme::QuotedString(s) => copy_chars(s),
        Lexeme::Operator(s) => copy_chars(s),
        Lexeme::Semicolon => one_char_vec(';'),
        Lexeme::LParen => one_char_vec('('),
        Lexeme::RParen => one_char_vec(')'),
        Lexeme::LSquare => one_char_vec('['),
        Lexeme::RSquare => one_char_vec(']'),
        Lexeme::LCurly => one_char_vec('{'),
        Lexeme::RCurly => one_char_vec('}'),
        Lexeme::Comma => one_char_vec(','),
    }
}

/// A vector of one character.
fn one_char_vec(c: char) -> (r: Vec<char>)
    ensures
        r@ == seq![c],
{
    let mut r: Vec<char> = Vec::new();
    r.push(c);
    proof {
        assert(r@ =~= seq![c]);
    }
    r
}

/// The kind of an open bracket.
#[derive(Debug, Copy, Clone, PartialEq, Eq, Structural)]
pub enum BracketType {
    Paren,
    Square,
    Curly,
}

/// Name of a bracket kind, as it appears in structural error messages.
pub open spec fn bracket_name(bt: BracketType) -> Seq<char> {
    match bt {
        BracketType::Paren => "Paren"@,
        BracketType::Square => "Square"@,
        BracketType::Curly => "Curly"@,
    }
}

pub fn exec_bracket_name(bt: BracketType) -> (r: &'static str)
    ensures
        r@ == bracket_name(bt),
{
    match bt {
        BracketType::Paren => "Paren",
        BracketType::Square => "Square",
        BracketType::Curly => "Curly",
    }
}

/// Mathematical model of one [`Nesting`] frame.
#[verifier::ext_equal]
pub ghost struct SpecNest {
    pub location: SpecLoc,
    pub bt: BracketType,
}

/// One currently-open bracket: its kind and the location of its opening
/// character. The lexer keeps a stack of these, the innermost bracket last.
pub struct Nesting {
    pub location: Location,
    pub bt: BracketType,
}

impl View for Nesting {
    type V = SpecNest;

    open spec fn view(&self) -> SpecNest {
        SpecNest { location: self.location@, bt: self.bt }
    }
}

/// Message of the error for a closing bracket met outside any open bracket.
pub open spec fn unmatched_msg(bt: BracketType) -> Seq<char> {
    "encountered a "@ + bracket_name(bt) + " but we're not inside of any nested syntax"@
}

/// Message of the error for a closing bracket whose kind does not match the
/// innermost open bracket.
pub open spec fn mismatch_msg(bt: BracketType, top: SpecNest) -> Seq<char> {
    "encountered a "@ + bracket_name(bt) + " but expected to close a "@ + bracket_name(top.bt)
        + " from "@ + crate::location::render_loc(top.location)
}

/// Push one open bracket onto the nesting stack.
pub fn push_nested_bracket(nesting: &mut Vec<Nesting>, location: Location, bt: BracketType)
    ensures
        final(nesting)@.len() == old(nesting)@.len() + 1,
        final(nesting)@ =~= old(nesting)@.push(Nesting { location, bt }),
        final(nesting)@.last()@ == (SpecNest { location: location@, bt }),
{
    nesting.push(Nesting { location, bt });
}

/// Pop the innermost open bracket, checking that `bt` matches its kind.
/// A mismatch, or an empty stack, is a structural error naming the offending
/// closer and, for a mismatch, the location of the unmatched opener; the
/// stack is then left unchanged.
pub fn pop_nested_bracket(nesting: &mut Vec<Nesting>, location: &Location, bt: BracketType) -> (r:
    Result<(), ParseError>)
    ensures
        match r {
            Ok(()) => old(nesting)@.len() > 0 && old(nesting)@.last()@.bt == bt && final(nesting)@
                =~= old(nesting)@.drop_last(),
            Err(e) => final(nesting)@ =~= old(nesting)@ && e@.location == location@ && e@.level
                == crate::error::ErrorLevel::Error && (if old(nesting)@.len() == 0 {
                e@.message =~= unmatched_msg(bt)
            } else {
                old(nesting)@.last()@.bt != bt && e@.message =~= mismatch_msg(
                    bt,
                    old(nesting)@.last()@,
                )
            }),
        },
{
    if nesting.len() == 0 {
        let mut msg: Vec<char> = Vec::new();
        append_str(&mut msg, "encountered a ");
        append_str(&mut msg, exec_bracket_name(bt));
        append_str(&mut msg, " but we're not inside of any nested syntax");
        proof {
            assert(msg@ =~= unmatched_msg(bt));
        }
        Err(ParseError::error(location.clone(), msg))
    } else {
        let top_bt = nesting[nesting.len() - 1].bt;
        if top_bt == bt {
            let _ = nesting.pop();
            Ok(())
        } else {
            let top_loc = nesting[nesting.len() - 1].location.render();
            let mut msg: Vec<char> = Vec::new();
            append_str(&mut msg, "encountered a ");
            append_str(&mut msg, exec_bracket_name(bt));
            append_str(&mut msg, " but expected to close a ");
            append_str(&mut msg, exec_bracket_name(top_bt));
            append_str(&mut msg, " from ");
            append_chars(&mut msg, &top_loc);
            proof {
                assert(msg@ =~= mismatch_msg(bt, old(nesting)@.last()@));
            }
            Err(ParseError::error(location.clone(), msg))
        }
    }
}

/// The view of a nesting stack: each frame's model, in the same order.
pub open spec fn nests_view(v: Seq<Nesting>) -> Seq<crate::lexer::SpecNest> {
    v.map_values(|n: Nesting| n@)
}

/// The lookahead buffer: nothing before the first advance (`Started`), one
/// buffered token (`Read`), or the end of the input (`EOF`).
pub enum LexState {
    Started,
    Read(Token),
    EOF,
}

impl View for LexState {
    type V = SpecLexState;

    open spec fn view(&self) -> SpecLexState {
        match self {
            LexState::Started => SpecLexState::Started,
            LexState::Read(t) => SpecLexState::Read(t@),
            LexState::EOF => SpecLexState::EOF,
        }
    }
}

/// The lexer: a cursor over the input text with the current location, the
/// stack of open brackets, and a one-token lookahead buffer.
pub struct Lexer {
    contents: Vec<char>,
    pos: usize,
    location: Location,
    nesting: Vec<Nesting>,
    state: LexState,
}

impl View for Lexer {
    type V = LexerModel;

    closed spec fn view(&self) -> LexerModel {
        LexerModel {
            rest: self.contents@.skip(self.pos as int),
            loc: self.location@,
            nesting: nests_view(self.nesting@),
            state: self.state@,
        }
    }
}

impl Lexer {
    /// Internal well-formedness: the cursor is inside the input, the input
    /// length leaves room for location arithmetic, and the location's line
    /// and column are bounded by the number of consumed characters.
    pub closed spec fn wf(&self) -> bool {
        &&& self.pos <= self.contents@.len()
        &&& self.contents@.len() < usize::MAX as int
        &&& self.location@.line >= 1
        &&& self.location@.line + self.location@.col <= self.pos + 1
    }

    /// A fresh lexer over `input`, labelled with `filename` for diagnostics,
    /// positioned at line 1, column 0, with nothing buffered yet.
    pub fn new(filename: Vec<char>, input: Vec<char>) -> (r: Lexer)
        requires
            input@.len() < usize::MAX as int,
        ensures
            r.wf(),
            r@ == (LexerModel {
                rest: input@,
                loc: SpecLoc { filename: filename@, line: 1, col: 0 },
                nesting: Seq::empty(),
                state: SpecLexState::Started,
            }),
    {
        let r = Lexer {
            contents: input,
            pos: 0,
            location: Location { filename, line: 1, col: 0 },
            nesting: Vec::new(),
            state: LexState::Started,
        };
        proof {
            assert(r.contents@.skip(0) =~= r.contents@);
            assert(nests_view(r.nesting@) =~= Seq::<SpecNest>::empty());
            assert(r@ =~= (LexerModel {
                rest: r.contents@,
                loc: r.location@,
                nesting: Seq::empty(),
                state: SpecLexState::Started,
            }));
        }
        r
    }

    /// The current cursor location.
    pub fn location(&self) -> (l: &Location)
        ensures
            l@ == self@.loc,
    {
        &self.location
    }

    /// The buffered token, if one is buffered: `None` before the first
    /// advance and at end of input. Does not consume.
    pub fn peek(&self) -> (r: Option<Token>)
        ensures
            match self@.state {
                SpecLexState::Read(t) => r is Some && r->0@ == t,
                _ => r is None,
            },
    {
        match &self.state {
            LexState::Started => None,
            LexState::Read(token) => Some(token.clone()),
            LexState::EOF => None,
        }
    }

    /// Whether the buffered token's lexeme equals `expect_lexeme`
    /// structurally; `false` before the first advance and at end of input.
    pub fn peek_matches(&self, expect_lexeme: Lexeme) -> (r: bool)
        ensures
            r == match self@.state {
                SpecLexState::Read(t) => t.lexeme == expect_lexeme@,
                _ => false,
            },
    {
        match &self.state {
            LexState::Started => false,
            LexState::Read(token) => lexeme_eq(&token.lexeme, &expect_lexeme),
            LexState::EOF => false,
        }
    }
}

/// Advance a location over one consumed character.
fn update_loc(location: &mut Location, ch: char)
    requires
        old(location)@.line >= 1,
        old(location)@.col >= 0,
        old(location)@.line + old(location)@.col < usize::MAX as int,
    ensures
        final(location)@ == next_loc(old(location)@, ch),
{
    if ch == '\n' {
        location.line = location.line + 1;
        location.col = 0;
    } else {
        location.col = location.col + 1;
    }
}

impl Lexer {
    /// Scan to the end of an identifier run starting at `i0`.
    fn scan_run_ident(&self, i0: usize, loc0: Location) -> (r: (usize, Location))
        requires
            self.wf(),
            i0 < self.contents@.len(),
            loc0@.line >= 1,
            loc0@.col >= 0,
            loc0@.line + loc0@.col <= i0 + 1,
        ensures
            ({
                let k = run_len(self.contents@.skip(i0 as int), crate::scan::ident_pred()) as int;
                &&& r.0 == i0 + k
                &&& i0 <= r.0 <= self.contents@.len()
                &&& r.1@ == advance_loc_seq(loc0@, self.contents@.subrange(i0 as int, r.0 as int))
                &&& r.1@.line >= 1
                &&& r.1@.col >= 0
                &&& r.1@.line + r.1@.col <= r.0 + 1
            }),
    {
        let len = self.contents.len();
        let mut j = i0;
        let mut loc = loc0;
        loop
            invariant
                self.wf(),
                i0 <= j <= len,
                len == self.contents@.len(),
                forall|x: int| i0 <= x < j ==> crate::chars::is_ident_char(self.contents@[x]),
                loc@ == advance_loc_seq(loc0@, self.contents@.subrange(i0 as int, j as int)),
                loc@.line >= 1,
                loc@.col >= 0,
                loc@.line + loc@.col <= j + 1,
            ensures
                i0 <= j <= len,
                forall|x: int| i0 <= x < j ==> crate::chars::is_ident_char(self.contents@[x]),
                j == len || !crate::chars::is_ident_char(self.contents@[j as int]),
                loc@ == advance_loc_seq(loc0@, self.contents@.subrange(i0 as int, j as int)),
                loc@.line >= 1,
                loc@.col >= 0,
                loc@.line + loc@.col <= j + 1,
            decreases len - j,
        {
            if j == len {
                break;
            }
            let c = self.contents[j];
            if !crate::chars::exec_is_ident_char(c) {
                break;
            }
            proof {
                assert(self.contents@.subrange(i0 as int, j + 1) =~= self.contents@.subrange(
                    i0 as int,
                    j as int,
                ).push(c));
                crate::location::lemma_advance_loc_snoc(
                    loc0@,
                    self.contents@.subrange(i0 as int, j as int),
                    c,
                );
            }
            update_loc(&mut loc, c);
            j = j + 1;
        }
        proof {
            let rest = self.contents@.skip(i0 as int);
            assert forall|x: int| 0 <= x < j - i0 implies crate::scan::ident_pred()(rest[x]) by {
                assert(rest[x] == self.contents@[i0 + x]);
            }
            if j - i0 < rest.len() {
                assert(rest[j - i0] == self.contents@[j as int]);
            }
            crate::chars::lemma_run_len_is(rest, crate::scan::ident_pred(), j - i0);
        }
        (j, loc)
    }

    /// Scan to the end of an operator-character run starting at `i0`.
    fn scan_run_op(&self, i0: usize, loc0: Location) -> (r: (usize, Location))
        requires
            self.wf(),
            i0 < self.contents@.len(),
            loc0@.line >= 1,
            loc0@.col >= 0,
            loc0@.line + loc0@.col <= i0 + 1,
        ensures
            ({
                let k = run_len(self.contents@.skip(i0 as int), crate::scan::op_pred()) as int;
                &&& r.0 == i0 + k
                &&& i0 <= r.0 <= self.contents@.len()
                &&& r.1@ == advance_loc_seq(loc0@, self.contents@.subrange(i0 as int, r.0 as int))
                &&& r.1@.line >= 1
                &&& r.1@.col >= 0
                &&& r.1@.line + r.1@.col <= r.0 + 1
            }),
    {
        let len = self.contents.len();
        let mut j = i0;
        let mut loc = loc0;
        loop
            invariant
                self.wf(),
                i0 <= j <= len,
                len == self.contents@.len(),
                forall|x: int| i0 <= x < j ==> crate::chars::is_op_char(self.contents@[x]),
                loc@ == advance_loc_seq(loc0@, self.contents@.subrange(i0 as int, j as int)),
                loc@.line >= 1,
                loc@.col >= 0,
                loc@.line + loc@.col <= j + 1,
            ensures
                i0 <= j <= len,
                forall|x: int| i0 <= x < j ==> crate::chars::is_op_char(self.contents@[x]),
                j == len || !crate::chars::is_op_char(self.contents@[j as int]),
                loc@ == advance_loc_seq(loc0@, self.contents@.subrange(i0 as int, j as int)),
                loc@.line >= 1,
                loc@.col >= 0,
                loc@.line + loc@.col <= j + 1,
            decreases len - j,
        {
            if j == len {
                break;
            }
            let c = self.contents[j];
            if !crate::chars::is_operator_char(c) {
                break;
            }
            proof {
                assert(self.contents@.subrange(i0 as int, j + 1) =~= self.contents@.subrange(
                    i0 as int,
                    j as int,
                ).push(c));
                crate::location::lemma_advance_loc_snoc(
                    loc0@,
                    self.contents@.subrange(i0 as int, j as int),
                    c,
                );
            }
            update_loc(&mut loc, c);
            j = j + 1;
        }
        proof {
            let rest = self.contents@.skip(i0 as int);
            assert forall|x: int| 0 <= x < j - i0 implies crate::scan::op_pred()(rest[x]) by {
                assert(rest[x] == self.contents@[i0 + x]);
            }
            if j - i0 < rest.len() {
                assert(rest[j - i0] == self.contents@[j as int]);
            }
            crate::chars::lemma_run_len_is(rest, crate::scan::op_pred(), j - i0);
        }
        (j, loc)
    }

    /// Scan a quoted string starting at the opening quote at `i0`: find the
    /// closing quote, or report that the input ends first.
    fn scan_quoted(&self, i0: usize, loc0: Location) -> (r: (usize, Location, bool))
        requires
            self.wf(),
            i0 < self.contents@.len(),
            self.contents@[i0 as int] == '"',
            loc0@.line >= 1,
            loc0@.col >= 0,
            loc0@.line + loc0@.col <= i0 + 1,
        ensures
            ({
                let k = run_len(
                    self.contents@.skip(i0 + 1),
                    crate::scan::str_body_pred(),
                ) as int;
                &&& (r.2 <==> i0 + 1 + k < self.contents@.len())
                &&& (r.2 ==> {
                    &&& r.0 == i0 + k + 2
                    &&& r.0 <= self.contents@.len()
                    &&& r.1@ == advance_loc_seq(
                        loc0@,
                        self.contents@.subrange(i0 as int, r.0 as int),
                    )
                    &&& r.1@.line >= 1
                    &&& r.1@.col >= 0
                    &&& r.1@.line + r.1@.col <= r.0 + 1
                })
            }),
    {
        let len = self.contents.len();
        let mut j = i0 + 1;
        let mut loc = loc0;
        proof {
            assert(self.contents@.subrange(i0 as int, i0 + 1) =~= Seq::<char>::empty().push(
                self.contents@[i0 as int],
            ));
            crate::location::lemma_advance_loc_snoc(loc0@, Seq::<char>::empty(), '"');
        }
        update_loc(&mut loc, '"');
        loop
            invariant
                self.wf(),
                i0 + 1 <= j <= len,
                len == self.contents@.len(),
                forall|x: int| i0 + 1 <= x < j ==> self.contents@[x] != '"',
                loc@ == advance_loc_seq(loc0@, self.contents@.subrange(i0 as int, j as int)),
                loc@.line >= 1,
                loc@.col >= 0,
                loc@.line + loc@.col <= j + 1,
            ensures
                i0 + 1 <= j <= len,
                forall|x: int| i0 + 1 <= x < j ==> self.contents@[x] != '"',
                j == len || self.contents@[j as int] == '"',
                loc@ == advance_loc_seq(loc0@, self.contents@.subrange(i0 as int, j as int)),
                loc@.line >= 1,
                loc@.col >= 0,
                loc@.line + loc@.col <= j + 1,
            decreases len - j,
        {
            if j == len {
                break;
            }
            let c = self.contents[j];
            if c == '"' {
                break;
            }
            proof {
                assert(self.contents@.subrange(i0 as int, j + 1) =~= self.contents@.subrange(
                    i0 as int,
                    j as int,
                ).push(c));
                crate::location::lemma_advance_loc_snoc(
                    loc0@,
                    self.contents@.subrange(i0 as int, j as int),
                    c,
                );
            }
            update_loc(&mut loc, c);
            j = j + 1;
        }
        proof {
            let body = self.contents@.skip(i0 + 1);
            assert forall|x: int| 0 <= x < j - (i0 + 1) implies crate::scan::str_body_pred()(
                body[x],
            ) by {
                assert(body[x] == self.contents@[i0 + 1 + x]);
            }
            if j - (i0 + 1) < body.len() {
                assert(body[j - (i0 + 1)] == self.contents@[j as int]);
            }
            crate::chars::lemma_run_len_is(body, crate::scan::str_body_pred(), j - (i0 + 1));
        }
        if j == len {
            (j, loc, false)
        } else {
            proof {
                assert(self.contents@.subrange(i0 as int, j + 1) =~= self.contents@.subrange(
                    i0 as int,
                    j as int,
                ).push(self.contents@[j as int]));
                crate::location::lemma_advance_loc_snoc(
                    loc0@,
                    self.contents@.subrange(i0 as int, j as int),
                    '"',
                );
            }
            update_loc(&mut loc, '"');
            (j + 1, loc, true)
        }
    }

    /// Scan a decimal literal: an optional leading minus followed by the
    /// whole digit run. Yields `None` in place of a value outside the
    /// 64-bit signed range.
    fn scan_number_tail(&self, i0: usize, loc0: Location, neg: bool) -> (r: (
        Option<i64>,
        usize,
        Location,
    ))
        requires
            self.wf(),
            i0 < self.contents@.len(),
            loc0@.line >= 1,
            loc0@.col >= 0,
            loc0@.line + loc0@.col <= i0 + 1,
            neg ==> self.contents@[i0 as int] == '-' && i0 + 1 < self.contents@.len()
                && crate::chars::is_digit_char(self.contents@[i0 + 1]),
            !neg ==> crate::chars::is_digit_char(self.contents@[i0 as int]),
        ensures
            ({
                let rest = self.contents@.skip(i0 as int);
                let dstart: int = if neg {
                    1
                } else {
                    0
                };
                let k = run_len(rest.skip(dstart), crate::scan::digit_pred()) as int;
                let mag = crate::chars::digits_val(rest.skip(dstart).take(k));
                let v: int = if neg {
                    -mag
                } else {
                    mag
                };
                &&& r.1 == i0 + dstart + k
                &&& i0 <= r.1 <= self.contents@.len()
                &&& r.2@ == advance_loc_seq(loc0@, self.contents@.subrange(i0 as int, r.1 as int))
                &&& r.2@.line >= 1
                &&& r.2@.col >= 0
                &&& r.2@.line + r.2@.col <= r.1 + 1
                &&& (match r.0 {
                    Some(x) => i64::MIN as int <= v <= i64::MAX as int && x as int == v,
                    None => v < i64::MIN as int || v > i64::MAX as int,
                })
            }),
    {
        let len = self.contents.len();
        let mut j = i0;
        let mut loc = loc0;
        if neg {
            proof {
                assert(self.contents@.subrange(i0 as int, i0 + 1) =~= self.contents@.subrange(
                    i0 as int,
                    i0 as int,
                ).push('-'));
                crate::location::lemma_advance_loc_snoc(
                    loc0@,
                    self.contents@.subrange(i0 as int, i0 as int),
                    '-',
                );
                assert(self.contents@.subrange(i0 as int, i0 as int) =~= Seq::<char>::empty());
            }
            update_loc(&mut loc, '-');
            j = j + 1;
        }
        let dbase = j;
        let ghost dseq = self.contents@.skip(dbase as int);
        let mut acc: u128 = 0;
        let mut over = false;
        loop
            invariant
                self.wf(),
                i0 <= dbase <= j <= len,
                dbase == i0 + (if neg {
                    1int
                } else {
                    0int
                }),
                len == self.contents@.len(),
                dseq == self.contents@.skip(dbase as int),
                forall|x: int|
                    dbase <= x < j ==> crate::chars::is_digit_char(self.contents@[x]),
                loc@ == advance_loc_seq(loc0@, self.contents@.subrange(i0 as int, j as int)),
                loc@.line >= 1,
                loc@.col >= 0,
                loc@.line + loc@.col <= j + 1,
                !over ==> acc == crate::chars::digits_val(dseq.take(j - dbase)) && acc
                    <= 0x8000000000000000u128,
                over ==> crate::chars::digits_val(dseq.take(j - dbase)) > 0x8000000000000000,
            ensures
                i0 <= dbase <= j <= len,
                forall|x: int|
                    dbase <= x < j ==> crate::chars::is_digit_char(self.contents@[x]),
                j == len || !crate::chars::is_digit_char(self.contents@[j as int]),
                loc@ == advance_loc_seq(loc0@, self.contents@.subrange(i0 as int, j as int)),
                loc@.line >= 1,
                loc@.col >= 0,
                loc@.line + loc@.col <= j + 1,
                !over ==> acc == crate::chars::digits_val(dseq.take(j - dbase)) && acc
                    <= 0x8000000000000000u128,
                over ==> crate::chars::digits_val(dseq.take(j - dbase)) > 0x8000000000000000,
            decreases len - j,
        {
            if j == len {
                break;
            }
            let c = self.contents[j];
            if !crate::chars::exec_is_digit_char(c) {
                break;
            }
            let d = crate::chars::exec_digit_val(c);
            proof {
                assert(dseq[j - dbase] == self.contents@[j as int]);
                crate::chars::lemma_digits_val_take_step(dseq, j - dbase);
                crate::chars::lemma_digits_val_nonneg(dseq.take(j - dbase));
            }
            if !over {
                let acc2: u128 = acc * 10 + d as u128;
                if acc2 > 0x8000000000000000u128 {
                    over = true;
                } else {
                    acc = acc2;
                }
            }
            proof {
                assert(self.contents@.subrange(i0 as int, j + 1) =~= self.contents@.subrange(
                    i0 as int,
                    j as int,
                ).push(c));
                crate::location::lemma_advance_loc_snoc(
                    loc0@,
                    self.contents@.subrange(i0 as int, j as int),
                    c,
                );
            }
            update_loc(&mut loc, c);
            j = j + 1;
        }
        proof {
            assert forall|x: int| 0 <= x < j - dbase implies crate::scan::digit_pred()(
                dseq[x],
            ) by {
                assert(dseq[x] == self.contents@[dbase + x]);
            }
            if j - dbase < dseq.len() {
                assert(dseq[j - dbase] == self.contents@[j as int]);
            }
            crate::chars::lemma_run_len_is(dseq, crate::scan::digit_pred(), j - dbase);
            assert(self.contents@.skip(i0 as int).skip(
                if neg {
                    1int
                } else {
                    0int
                },
            ) =~= dseq);
        }
        if over {
            proof {
                crate::chars::lemma_digits_val_nonneg(dseq.take(j - dbase));
            }
            (None, j, loc)
        } else if !neg && acc == 0x8000000000000000u128 {
            (None, j, loc)
        } else {
            let v: i64 = if neg {
                if acc == 0x8000000000000000u128 {
                    i64::MIN
                } else {
                    0i64 - (acc as i64)
                }
            } else {
                acc as i64
            };
            (Some(v), j, loc)
        }
    }

    /// Scan forward to the next token, replacing the lookahead buffer.
    /// Returns the start location of the newly buffered token, or the
    /// location reached at end of input; past the end it is a no-op. A
    /// scanning error (bad nesting, numeric overflow, an unrecognized
    /// character, an unterminated string) leaves the lexer unchanged.
    #[verifier::rlimit(100)]
    pub fn advance_mut(&mut self) -> (r: Result<Location, ParseError>)
        requires
            old(self).wf(),
        ensures
            final(self).wf(),
            match (r, crate::scan::advance_model(old(self)@)) {
                (Ok(l), Ok((m2, sl))) => final(self)@ == m2 && l@ == sl,
                (Err(e), Err(se)) => e@ == se && final(self)@ == old(self)@,
                _ => false,
            },
    {
        let ghost m0 = self@;
        match &self.state {
            LexState::EOF => {
                return Ok(self.location.clone());
            },
            _ => {},
        }
        let len = self.contents.len();
        if self.pos == len {
            proof {
                assert(m0.rest.len() == 0);
            }
            self.state = LexState::EOF;
            proof {
                assert(self@ =~= (LexerModel {
                    rest: m0.rest,
                    loc: m0.loc,
                    nesting: m0.nesting,
                    state: SpecLexState::EOF,
                }));
            }
            return Ok(self.location.clone());
        }
        let mut i: usize = self.pos;
        let mut loc: Location = self.location.clone();
        loop
            invariant
                self.wf(),
                self@ == m0,
                m0 == old(self)@,
                !(m0.state is EOF),
                m0.rest.len() > 0,
                self.pos <= i <= len,
                len == self.contents@.len(),
                loc@.filename == m0.loc.filename,
                loc@.line >= 1,
                loc@.col >= 0,
                loc@.line + loc@.col <= i + 1,
                crate::scan::spec_scan(m0.rest, m0.loc, m0.nesting) == crate::scan::spec_scan(
                    self.contents@.skip(i as int),
                    loc@,
                    m0.nesting,
                ),
            ensures
                self.wf(),
                self@ == m0,
                m0 == old(self)@,
                !(m0.state is EOF),
                m0.rest.len() > 0,
                self.pos <= i < len,
                len == self.contents@.len(),
                loc@.filename == m0.loc.filename,
                loc@.line >= 1,
                loc@.col >= 0,
                loc@.line + loc@.col <= i + 1,
                crate::scan::spec_scan(m0.rest, m0.loc, m0.nesting) == crate::scan::spec_scan(
                    self.contents@.skip(i as int),
                    loc@,
                    m0.nesting,
                ),
                !crate::chars::is_space_char(self.contents@[i as int]),
            decreases len - i,
        {
            if i == len {
                proof {
                    assert(self.contents@.skip(i as int) =~= Seq::<char>::empty());
                }
                self.pos = i;
                self.location = loc;
                self.state = LexState::EOF;
                proof {
                    assert(self@ =~= (LexerModel {
                        rest: Seq::empty(),
                        loc: self.location@,
                        nesting: m0.nesting,
                        state: SpecLexState::EOF,
                    }));
                }
                return Ok(self.location.clone());
            }
            let c = self.contents[i];
            proof {
                assert(self.contents@.skip(i as int)[0] == c);
                assert(self.contents@.skip(i as int).drop_first() =~= self.contents@.skip(i + 1));
                assert(m0.nesting.len() == self.nesting@.len());
            }
            if c == '\n' && self.nesting.len() == 0 {
                let ghost locd = loc@;
                let tok_loc = loc.clone();
                update_loc(&mut loc, c);
                self.pos = i + 1;
                self.location = loc;
                let token = Token { location: tok_loc, lexeme: Lexeme::Semicolon };
                let ret = token.location.clone();
                self.state = LexState::Read(token);
                proof {
                    assert(self@ =~= (LexerModel {
                        rest: self.contents@.skip(i + 1),
                        loc: crate::location::next_loc(locd, c),
                        nesting: m0.nesting,
                        state: SpecLexState::Read(
                            SpecToken { location: locd, lexeme: SpecLexeme::Semicolon },
                        ),
                    }));
                }
                return Ok(ret);
            }
            if crate::chars::exec_is_space_char(c) {
                update_loc(&mut loc, c);
                i = i + 1;
            } else {
                break;
            }
        }
        let c = self.contents[i];
        let ghost rest_i = self.contents@.skip(i as int);
        let ghost locd = loc@;
        proof {
            assert(rest_i[0] == c);
            assert(rest_i.len() == len - i);
            assert(rest_i.drop_first() =~= self.contents@.skip(i + 1));
            assert(m0.nesting.len() == self.nesting@.len());
        }
        if crate::chars::exec_is_digit_char(c) || (c == '-' && i + 1 < len
            && crate::chars::exec_is_digit_char(self.contents[i + 1])) {
            let neg = c == '-';
            proof {
                if i + 1 < len {
                    assert(rest_i[1] == self.contents@[i + 1]);
                }
                assert(self.contents@.skip(i as int).skip(
                    if neg {
                        1int
                    } else {
                        0int
                    },
                ) =~= self.contents@.skip(
                    i + (if neg {
                        1int
                    } else {
                        0int
                    }),
                ));
            }
            let tok_loc = loc.clone();
            let (val, j, loc2) = self.scan_number_tail(i, loc, neg);
            match val {
                None => {
                    let mut msg: Vec<char> = Vec::new();
                    append_str(&mut msg, "integer literal does not fit in a 64-bit signed value");
                    proof {
                        assert(msg@ =~= crate::scan::overflow_msg());
                    }
                    return Err(ParseError::error(tok_loc, msg));
                },
                Some(v) => {
                    let token = Token { location: tok_loc, lexeme: Lexeme::Signed(v) };
                    self.pos = j;
                    self.location = loc2;
                    let ret = token.location.clone();
                    self.state = LexState::Read(token);
                    proof {
                        let dstart: int = if neg {
                            1int
                        } else {
                            0int
                        };
                        let k = run_len(rest_i.skip(dstart), crate::scan::digit_pred()) as int;
                        assert(self.contents@.skip(j as int) =~= rest_i.skip(dstart + k));
                        assert(self.contents@.subrange(i as int, j as int) =~= rest_i.take(
                            dstart + k,
                        ));
                        assert(self@ =~= (LexerModel {
                            rest: rest_i.skip(dstart + k),
                            loc: advance_loc_seq(locd, rest_i.take(dstart + k)),
                            nesting: m0.nesting,
                            state: self.state@,
                        }));
                    }
                    return Ok(ret);
                },
            }
        } else if crate::chars::exec_is_ident_start_char(c) {
            let tok_loc = loc.clone();
            let (j, loc2) = self.scan_run_ident(i, loc);
            let text = copy_range(&self.contents, i, j);
            let token = Token { location: tok_loc, lexeme: Lexeme::Identifier(text) };
            self.pos = j;
            self.location = loc2;
            let ret = token.location.clone();
            self.state = LexState::Read(token);
            proof {
                let k = run_len(rest_i, crate::scan::ident_pred()) as int;
                assert(self.contents@.skip(j as int) =~= rest_i.skip(k));
                assert(self.contents@.subrange(i as int, j as int) =~= rest_i.take(k));
                assert(self@ =~= (LexerModel {
                    rest: rest_i.skip(k),
                    loc: advance_loc_seq(locd, rest_i.take(k)),
                    nesting: m0.nesting,
                    state: self.state@,
                }));
            }
            return Ok(ret);
        } else if crate::chars::is_operator_char(c) {
            let tok_loc = loc.clone();
            let (j, loc2) = self.scan_run_op(i, loc);
            let text = copy_range(&self.contents, i, j);
            let token = Token { location: tok_loc, lexeme: Lexeme::Operator(text) };
            self.pos = j;
            self.location = loc2;
            let ret = token.location.clone();
            self.state = LexState::Read(token);
            proof {
                let k = run_len(rest_i, crate::scan::op_pred()) as int;
                assert(self.contents@.skip(j as int) =~= rest_i.skip(k));
                assert(self.contents@.subrange(i as int, j as int) =~= rest_i.take(k));
                assert(self@ =~= (LexerModel {
                    rest: rest_i.skip(k),
                    loc: advance_loc_seq(locd, rest_i.take(k)),
                    nesting: m0.nesting,
                    state: self.state@,
                }));
            }
            return Ok(ret);
        } else if c == '"' {
            proof {
                assert(self.contents@.skip(i + 1) =~= rest_i.skip(1));
            }
            let tok_loc = loc.clone();
            let (j, loc2, found) = self.scan_quoted(i, loc);
            if !found {
                proof {
                    crate::chars::lemma_run_len_props(rest_i.skip(1), crate::scan::str_body_pred());
                }
                let mut msg: Vec<char> = Vec::new();
                append_str(&mut msg, "input ended before the closing double-quote of a string");
                proof {
                    assert(msg@ =~= crate::scan::unterminated_msg());
                }
                return Err(ParseError::error(tok_loc, msg));
            }
            let text = copy_range(&self.contents, i, j);
            let token = Token { location: tok_loc, lexeme: Lexeme::QuotedString(text) };
            self.pos = j;
            self.location = loc2;
            let ret = token.location.clone();
            self.state = LexState::Read(token);
            proof {
                let k = run_len(rest_i.skip(1), crate::scan::str_body_pred()) as int;
                assert(j == i + k + 2);
                assert(self.contents@.skip(j as int) =~= rest_i.skip(k + 2));
                assert(self.contents@.subrange(i as int, j as int) =~= rest_i.take(k + 2));
                assert(self@ =~= (LexerModel {
                    rest: rest_i.skip(k + 2),
                    loc: advance_loc_seq(locd, rest_i.take(k + 2)),
                    nesting: m0.nesting,
                    state: self.state@,
                }));
            }
            return Ok(ret);
        } else if c == '(' || c == '[' || c == '{' {
            let bt = if c == '(' {
                BracketType::Paren
            } else if c == '[' {
                BracketType::Square
            } else {
                BracketType::Curly
            };
            let lexeme = if c == '(' {
                Lexeme::LParen
            } else if c == '[' {
                Lexeme::LSquare
            } else {
                Lexeme::LCurly
            };
            let tok_loc = loc.clone();
            let frame_loc = tok_loc.clone();
            update_loc(&mut loc, c);
            push_nested_bracket(&mut self.nesting, frame_loc, bt);
            let token = Token { location: tok_loc, lexeme };
            self.pos = i + 1;
            self.location = loc;
            let ret = token.location.clone();
            self.state = LexState::Read(token);
            proof {
                assert(nests_view(self.nesting@) =~= m0.nesting.push(
                    SpecNest { location: locd, bt },
                ));
                assert(self@ =~= (LexerModel {
                    rest: rest_i.drop_first(),
                    loc: crate::location::next_loc(locd, c),
                    nesting: m0.nesting.push(SpecNest { location: locd, bt }),
                    state: self.state@,
                }));
            }
            return Ok(ret);
        } else if c == ')' || c == ']' || c == '}' {
            let bt = if c == ')' {
                BracketType::Paren
            } else if c == ']' {
                BracketType::Square
            } else {
                BracketType::Curly
            };
            let lexeme = if c == ')' {
                Lexeme::RParen
            } else if c == ']' {
                Lexeme::RSquare
            } else {
                Lexeme::RCurly
            };
            let tok_loc = loc.clone();
            proof {
                if m0.nesting.len() > 0 {
                    assert(m0.nesting.last() == self.nesting@.last()@);
                }
            }
            match pop_nested_bracket(&mut self.nesting, &tok_loc, bt) {
                Err(e) => {
                    proof {
                        assert(nests_view(self.nesting@) =~= m0.nesting);
                        assert(self@ =~= m0);
                    }
                    return Err(e);
                },
                Ok(()) => {
                    update_loc(&mut loc, c);
                    let token = Token { location: tok_loc, lexeme };
                    self.pos = i + 1;
                    self.location = loc;
                    let ret = token.location.clone();
                    self.state = LexState::Read(token);
                    proof {
                        assert(nests_view(self.nesting@) =~= m0.nesting.drop_last());
                        assert(self@ =~= (LexerModel {
                            rest: rest_i.drop_first(),
                            loc: crate::location::next_loc(locd, c),
                            nesting: m0.nesting.drop_last(),
                            state: self.state@,
                        }));
                    }
                    return Ok(ret);
                },
            }
        } else if c == ';' || c == ',' {
            let lexeme = if c == ';' {
                Lexeme::Semicolon
            } else {
                Lexeme::Comma
            };
            let tok_loc = loc.clone();
            update_loc(&mut loc, c);
            let token = Token { location: tok_loc, lexeme };
            self.pos = i + 1;
            self.location = loc;
            let ret = token.location.clone();
            self.state = LexState::Read(token);
            proof {
                assert(self@ =~= (LexerModel {
                    rest: rest_i.drop_first(),
                    loc: crate::location::next_loc(locd, c),
                    nesting: m0.nesting,
                    state: self.state@,
                }));
            }
            return Ok(ret);
        } else {
            let mut msg: Vec<char> = Vec::new();
            append_str(&mut msg, "could not figure out what to do with character (");
            msg.push(c);
            append_str(&mut msg, ")");
            proof {
                assert(msg@ =~= crate::scan::unrecognized_msg(c));
            }
            return Err(ParseError::error(loc, msg));
        }
    }

    /// Advance past the buffered token, discarding the returned location.
    pub fn advance(&mut self) -> (r: Result<(), ParseError>)
        requires
            old(self).wf(),
        ensures
            final(self).wf(),
            match (r, crate::scan::advance_model(old(self)@)) {
                (Ok(()), Ok((m2, _))) => final(self)@ == m2,
                (Err(e), Err(se)) => e@ == se && final(self)@ == old(self)@,
                _ => false,
            },
    {
        match self.advance_mut() {
            Ok(_) => Ok(()),
            Err(e) => Err(e),
        }
    }

    /// Require the buffered token to equal `expect_lexeme` structurally; on
    /// a match, consume it. On a mismatch, or with nothing buffered, fail
    /// without consuming, naming the found token and the expectation.
    pub fn chomp(&mut self, expect_lexeme: Lexeme) -> (r: Result<(), ParseError>)
        requires
            old(self).wf(),
        ensures
            final(self).wf(),
            match (r, crate::scan::chomp_model(old(self)@, expect_lexeme@)) {
                (Ok(()), Ok(m2)) => final(self)@ == m2,
                (Err(e), Err(se)) => e@ == se && final(self)@ == old(self)@,
                _ => false,
            },
    {
        match &self.state {
            LexState::Started => {
                let mut msg: Vec<char> = Vec::new();
                append_str(&mut msg, "lexer was not started!");
                proof {
                    assert(msg@ =~= crate::scan::not_started_msg());
                }
                return Err(ParseError::error(self.location.clone(), msg));
            },
            LexState::EOF => {
                let mut msg: Vec<char> = Vec::new();
                append_str(&mut msg, "hit EOF but expected ");
                let expected = describe_lexeme(&expect_lexeme);
                append_chars(&mut msg, &expected);
                proof {
                    assert(msg@ =~= crate::scan::eof_expected_msg(expect_lexeme@));
                }
                return Err(ParseError::error(self.location.clone(), msg));
            },
            LexState::Read(token) => {
                if !lexeme_eq(&token.lexeme, &expect_lexeme) {
                    let tok = token.clone();
                    let expected = describe_lexeme(&expect_lexeme);
                    return Err(ParseError::unexpected(tok, expected));
                }
            },
        }
        match self.advance_mut() {
            Ok(_) => Ok(()),
            Err(e) => Err(e),
        }
    }

    /// Advance past every buffered semicolon, so that a non-semicolon token
    /// (or the end of the input) is buffered.
    pub fn skip_semicolon(&mut self) -> (r: Result<(), ParseError>)
        requires
            old(self).wf(),
        ensures
            final(self).wf(),
            match (r, crate::scan::skip_semicolon_model(old(self)@)) {
                (Ok(()), Ok(m2)) => final(self)@ == m2,
                (Err(e), Err(se)) => e@ == se,
                _ => false,
            },
    {
        loop
            invariant
                self.wf(),
                crate::scan::skip_semicolon_model(self@) == crate::scan::skip_semicolon_model(
                    old(self)@,
                ),
            ensures
                self.wf(),
                crate::scan::skip_semicolon_model(old(self)@) == Ok::<LexerModel, crate::error::SpecError>(self@),
            decreases self@.rest.len(), crate::scan::lex_rank(self@),
        {
            if !self.peek_matches(Lexeme::Semicolon) {
                break;
            }
            proof {
                crate::scan::lemma_advance_progress(self@);
            }
            match self.advance_mut() {
                Ok(_) => {},
                Err(e) => {
                    return Err(e);
                },
            }
        }
        Ok(())
    }
}

} // verus!
