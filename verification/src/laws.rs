//! Laws of the scanner and the grammar: properties that hold of every
//! input, stated over the models that the executable code is proved to
//! follow.

use vstd::prelude::*;

use crate::error::SpecError;
use crate::lexer::{mismatch_msg, unmatched_msg, BracketType, SpecLexeme, SpecNest};
use crate::location::{next_loc, SpecLoc};
use crate::grammar::{lex_measure, spec_parse_predicate, spec_parse_tuple_rest};
use crate::parser::SpecPredicate;
use crate::scan::{
    chomp_model, close_bt, err_at, punct_lexeme, scan_lexemes, spec_scan, LexerModel, ScanOut,
    SpecLexState,
};
use crate::token::SpecToken;

verus! {

/// A one-character input holding an opening bracket, a semicolon or a
/// comma lexes to exactly one token of the matching fixed kind, at column
/// 0 of line 1.
pub proof fn lemma_single_punct_token(filename: Seq<char>, c: char)
    requires
        c == '(' || c == '[' || c == '{' || c == ';' || c == ',',
    ensures
        ({
            let loc = SpecLoc { filename, line: 1, col: 0 };
            &&& spec_scan(seq![c], loc, Seq::empty()) matches ScanOut::Tok { token, rest, .. }
                && token == (SpecToken { location: loc, lexeme: punct_lexeme(c) }) && rest.len()
                == 0
            &&& scan_lexemes(seq![c], loc, Seq::empty()) == Ok::<_, SpecError>(
                seq![punct_lexeme(c)],
            )
        }),
{
    let loc = SpecLoc { filename, line: 1, col: 0 };
    let s = seq![c];
    assert(s[0] == c);
    assert(s.drop_first() =~= Seq::<char>::empty());
    match spec_scan(s, loc, Seq::empty()) {
        ScanOut::Tok { token, rest, loc: loc2, nesting } => {
            assert(scan_lexemes(rest, loc2, nesting) == Ok::<Seq<SpecLexeme>, SpecError>(
                Seq::empty(),
            ));
            assert(seq![token.lexeme] + Seq::<SpecLexeme>::empty() =~= seq![punct_lexeme(c)]);
        },
        _ => {
            assert(false);
        },
    }
}

/// A one-character input holding a closing bracket fails with a structural
/// error: there is no open bracket to close.
pub proof fn lemma_single_closer_fails(filename: Seq<char>, c: char)
    requires
        c == ')' || c == ']' || c == '}',
    ensures
        ({
            let loc = SpecLoc { filename, line: 1, col: 0 };
            scan_lexemes(seq![c], loc, Seq::empty()) == Err::<Seq<SpecLexeme>, _>(
                err_at(loc, unmatched_msg(close_bt(c))),
            )
        }),
{
    let loc = SpecLoc { filename, line: 1, col: 0 };
    assert(seq![c][0] == c);
}

/// A closing bracket whose kind does not match the innermost open bracket
/// is a structural error naming the offending kind, the expected kind and
/// the location of the unmatched opener.
pub proof fn lemma_mismatched_closer_fails(
    rest: Seq<char>,
    loc: SpecLoc,
    nesting: Seq<SpecNest>,
)
    requires
        rest.len() > 0,
        rest[0] == ')' || rest[0] == ']' || rest[0] == '}',
        nesting.len() > 0,
        nesting.last().bt != close_bt(rest[0]),
    ensures
        (spec_scan(rest, loc, nesting) == ScanOut::Fail {
            err: err_at(loc, mismatch_msg(close_bt(rest[0]), nesting.last())),
        }),
{
}

/// A line feed met while no bracket is open is itself a semicolon token; a
/// line feed inside any bracket contributes no token and scanning goes on
/// past it.
pub proof fn lemma_newline_sensitivity(rest: Seq<char>, loc: SpecLoc, nesting: Seq<SpecNest>)
    requires
        rest.len() > 0,
        rest[0] == '\n',
    ensures
        (nesting.len() == 0 ==> spec_scan(rest, loc, nesting) == ScanOut::Tok {
            token: SpecToken { location: loc, lexeme: SpecLexeme::Semicolon },
            rest: rest.drop_first(),
            loc: next_loc(loc, '\n'),
            nesting,
        }),
        nesting.len() > 0 ==> spec_scan(rest, loc, nesting) == spec_scan(
            rest.drop_first(),
            next_loc(loc, '\n'),
            nesting,
        ),
{
}

/// Tuple-predicate degeneracy: a parenthesized group holding exactly one
/// predicate and no comma parses to that bare predicate, never a
/// one-element tuple.
pub proof fn lemma_tuple_singleton_degenerates(
    location: SpecLoc,
    m: LexerModel,
    p: SpecPredicate,
    m2: LexerModel,
    m3: LexerModel,
)
    requires
        spec_parse_predicate(m) == Ok::<_, SpecError>((Some(p), m2)),
        lex_measure(m2) < lex_measure(m),
        !(m2.state matches SpecLexState::Read(t) && t.lexeme is Comma),
        chomp_model(m2, SpecLexeme::RParen) == Ok::<LexerModel, SpecError>(m3),
    ensures
        spec_parse_tuple_rest(location, Seq::empty(), m) == Ok::<_, SpecError>((Some(p), m3)),
{
}

/// Zero-argument collapse: when no argument term follows the leading term
/// of a call-site expression, the whole expression is that bare term — a
/// zero-argument call-site node is never built.
pub proof fn lemma_callsite_zero_args_collapses(
    m: LexerModel,
    m1: LexerModel,
    f: crate::parser::SpecExpr,
    m2: LexerModel,
    m3: LexerModel,
)
    requires
        crate::scan::skip_semicolon_model(m) == Ok::<LexerModel, SpecError>(m1),
        lex_measure(m1) <= lex_measure(m),
        crate::grammar::spec_parse_callsite_term(m1) == Ok::<_, SpecError>((Some(f), m2)),
        lex_measure(m2) <= lex_measure(m),
        crate::grammar::spec_parse_args_rest(Seq::empty(), m2) == Ok::<_, SpecError>(
            (Seq::<crate::parser::SpecExpr>::empty(), m3),
        ),
    ensures
        crate::grammar::spec_parse_callsite(m) == Ok::<_, SpecError>((f, m3)),
{
}

/// A predicate, when it matches, consumes input; when it matches nothing
/// it consumes nothing.
pub proof fn lemma_predicate_result(m: LexerModel)
    ensures
        match spec_parse_predicate(m) {
            Ok((p, m2)) => (p is Some ==> lex_measure(m2) < lex_measure(m)) && (p is None ==> m2
                == m),
            Err(_) => true,
        },
    decreases lex_measure(m), 0int,
{
    crate::scan::lemma_advance_measure(m);
    match m.state {
        SpecLexState::Read(t) => {
            match t.lexeme {
                SpecLexeme::Identifier(name) => {
                    if name.len() > 0 && crate::chars::is_upper_char(name[0]) {
                        match crate::scan::advance_model(m) {
                            Ok((m2, _)) => {
                                lemma_predicates_result(Seq::empty(), m2);
                            },
                            Err(_) => {},
                        }
                    }
                },
                SpecLexeme::LParen => {
                    match crate::scan::advance_model(m) {
                        Ok((m2, _)) => {
                            lemma_tuple_result(t.location, Seq::empty(), m2);
                        },
                        Err(_) => {},
                    }
                },
                _ => {},
            }
        },
        _ => {},
    }
}

/// The predicate loop never grows the un-scanned input.
pub proof fn lemma_predicates_result(acc: Seq<SpecPredicate>, m: LexerModel)
    ensures
        match crate::grammar::spec_parse_predicates_rest(acc, m) {
            Ok((_, m2)) => lex_measure(m2) <= lex_measure(m),
            Err(_) => true,
        },
    decreases lex_measure(m), 1int,
{
    lemma_predicate_result(m);
    match spec_parse_predicate(m) {
        Ok((Some(p), m2)) => {
            lemma_predicates_result(acc.push(p), m2);
        },
        _ => {},
    }
}

/// The tuple-predicate body always consumes input on success: at the least
/// its closing parenthesis.
pub proof fn lemma_tuple_result(location: SpecLoc, items: Seq<SpecPredicate>, m: LexerModel)
    ensures
        match spec_parse_tuple_rest(location, items, m) {
            Ok((p2, m2)) => p2 is Some && lex_measure(m2) < lex_measure(m),
            Err(_) => true,
        },
    decreases lex_measure(m), 1int,
{
    lemma_predicate_result(m);
    match spec_parse_predicate(m) {
        Ok((None, m2)) => {
            crate::scan::lemma_chomp_measure(m2, SpecLexeme::RParen);
        },
        Ok((Some(p), m2)) => {
            if m2.state matches SpecLexState::Read(t2) && t2.lexeme is Comma {
                crate::scan::lemma_advance_measure(m2);
                match crate::scan::advance_model(m2) {
                    Ok((m3, _)) => {
                        lemma_tuple_result(location, items.push(p), m3);
                    },
                    Err(_) => {},
                }
            } else {
                crate::scan::lemma_chomp_measure(m2, SpecLexeme::RParen);
            }
        },
        Err(_) => {},
    }
}

/// A call-site node with no arguments.
pub open spec fn is_empty_callsite(e: crate::parser::SpecExpr) -> bool {
    e matches crate::parser::SpecExpr::Callsite { arguments, .. } && arguments.len() == 0
}

/// A call-site term, when it matches, consumes input and never yields a
/// zero-argument call-site node; when it matches nothing it consumes
/// nothing.
pub proof fn lemma_term_result(m: LexerModel)
    ensures
        match crate::grammar::spec_parse_callsite_term(m) {
            Ok((p, m2)) => (p matches Some(e) ==> lex_measure(m2) < lex_measure(m)
                && !is_empty_callsite(e)) && (p is None ==> m2 == m),
            Err(_) => true,
        },
    decreases lex_measure(m), 0int,
{
    crate::scan::lemma_advance_measure(m);
    match m.state {
        SpecLexState::Read(t) => {
            match t.lexeme {
                SpecLexeme::Identifier(name) => {
                    if name == "let"@ {
                        match crate::scan::advance_model(m) {
                            Ok((m2, loc2)) => {
                                lemma_let_result(loc2, m2);
                            },
                            Err(_) => {},
                        }
                    } else if name == "match"@ {
                        match crate::scan::advance_model(m) {
                            Ok((m2, loc2)) => {
                                lemma_match_result(loc2, m2);
                            },
                            Err(_) => {},
                        }
                    }
                },
                SpecLexeme::LParen => {
                    match crate::scan::advance_model(m) {
                        Ok((m2, _)) => {
                            lemma_callsite_result(m2);
                            match crate::grammar::spec_parse_callsite(m2) {
                                Ok((_, m3)) => {
                                    crate::scan::lemma_chomp_measure(m3, SpecLexeme::RParen);
                                },
                                Err(_) => {},
                            }
                        },
                        Err(_) => {},
                    }
                },
                _ => {},
            }
        },
        _ => {},
    }
}

/// The argument loop never grows the un-scanned input.
pub proof fn lemma_args_result(acc: Seq<crate::parser::SpecExpr>, m: LexerModel)
    ensures
        match crate::grammar::spec_parse_args_rest(acc, m) {
            Ok((_, m2)) => lex_measure(m2) <= lex_measure(m),
            Err(_) => true,
        },
    decreases lex_measure(m), 1int,
{
    lemma_term_result(m);
    match crate::grammar::spec_parse_callsite_term(m) {
        Ok((Some(e), m2)) => {
            lemma_args_result(acc.push(e), m2);
        },
        _ => {},
    }
}

/// A call-site expression consumes input and is never a zero-argument
/// call-site node: zero arguments collapse to the bare leading term.
pub proof fn lemma_callsite_result(m: LexerModel)
    ensures
        match crate::grammar::spec_parse_callsite(m) {
            Ok((e, m2)) => lex_measure(m2) < lex_measure(m) && !is_empty_callsite(e),
            Err(_) => true,
        },
    decreases lex_measure(m), 2int,
{
    crate::scan::lemma_skip_semicolon_measure(m);
    match crate::scan::skip_semicolon_model(m) {
        Ok(m1) => {
            lemma_term_result(m1);
            match crate::grammar::spec_parse_callsite_term(m1) {
                Ok((Some(_), m2)) => {
                    lemma_args_result(Seq::empty(), m2);
                },
                _ => {},
            }
        },
        Err(_) => {},
    }
}

/// A let expression consumes input and yields a let node.
pub proof fn lemma_let_result(location: SpecLoc, m: LexerModel)
    ensures
        match crate::grammar::spec_parse_let_expr(location, m) {
            Ok((p, m2)) => p matches Some(e) && lex_measure(m2) < lex_measure(m)
                && !is_empty_callsite(e),
            Err(_) => true,
        },
    decreases lex_measure(m), 3int,
{
    crate::scan::lemma_advance_measure(m);
    match crate::grammar::parse_identifier_model(m) {
        Ok((_, m1)) => {
            crate::scan::lemma_chomp_measure(m1, SpecLexeme::Operator(seq!['=']));
            match crate::scan::chomp_model(m1, SpecLexeme::Operator(seq!['='])) {
                Ok(m2) => {
                    lemma_callsite_result(m2);
                    match crate::grammar::spec_parse_callsite(m2) {
                        Ok((_, m3)) => {
                            crate::scan::lemma_chomp_measure(
                                m3,
                                SpecLexeme::Identifier(seq!['i', 'n']),
                            );
                            match crate::scan::chomp_model(
                                m3,
                                SpecLexeme::Identifier(seq!['i', 'n']),
                            ) {
                                Ok(m4) => {
                                    lemma_callsite_result(m4);
                                },
                                Err(_) => {},
                            }
                        },
                        Err(_) => {},
                    }
                },
                Err(_) => {},
            }
        },
        Err(_) => {},
    }
}

/// The arm loop of a match expression never grows the un-scanned input.
pub proof fn lemma_arms_result(acc: Seq<crate::parser::SpecPatternExpr>, m: LexerModel)
    ensures
        match crate::grammar::spec_parse_match_arms(acc, m) {
            Ok((_, m2)) => lex_measure(m2) <= lex_measure(m),
            Err(_) => true,
        },
    decreases lex_measure(m), 3int,
{
    crate::scan::lemma_skip_semicolon_measure(m);
    match crate::scan::skip_semicolon_model(m) {
        Ok(m1) => {
            if m1.state is Read {
                lemma_predicate_result(m1);
                match spec_parse_predicate(m1) {
                    Ok((Some(p), m2)) => {
                        if lex_measure(m2) < lex_measure(m) {
                            crate::scan::lemma_chomp_measure(
                                m2,
                                SpecLexeme::Operator(seq!['=', '>']),
                            );
                            match crate::scan::chomp_model(
                                m2,
                                SpecLexeme::Operator(seq!['=', '>']),
                            ) {
                                Ok(m3) => {
                                    lemma_callsite_result(m3);
                                    match crate::grammar::spec_parse_callsite(m3) {
                                        Ok((body, m4)) => {
                                            lemma_arms_result(
                                                acc.push(
                                                    crate::parser::SpecPatternExpr {
                                                        predicate: p,
                                                        expr: body,
                                                    },
                                                ),
                                                m4,
                                            );
                                        },
                                        Err(_) => {},
                                    }
                                },
                                Err(_) => {},
                            }
                        }
                    },
                    _ => {},
                }
            }
        },
        Err(_) => {},
    }
}

/// A match expression consumes input and yields a match node.
pub proof fn lemma_match_result(location: SpecLoc, m: LexerModel)
    ensures
        match crate::grammar::spec_parse_match_expr(location, m) {
            Ok((p, m2)) => p matches Some(e) && lex_measure(m2) < lex_measure(m)
                && !is_empty_callsite(e),
            Err(_) => true,
        },
    decreases lex_measure(m), 4int,
{
    lemma_callsite_result(m);
    match crate::grammar::spec_parse_callsite(m) {
        Ok((_, m1)) => {
            lemma_arms_result(Seq::empty(), m1);
        },
        Err(_) => {},
    }
}

/// The lexemes the scanner can produce: identifier text starts with a
/// letter or underscore and continues with identifier characters, operator
/// text holds operator characters, quoted strings keep both delimiting
/// quotes with none inside, and integers fit 64 signed bits.
pub open spec fn wf_lexeme(l: SpecLexeme) -> bool {
    match l {
        SpecLexeme::Signed(v) => i64::MIN as int <= v <= i64::MAX as int,
        SpecLexeme::Identifier(s) => s.len() > 0 && crate::chars::is_ident_start_char(s[0]) && (
        forall|i: int| 0 <= i < s.len() ==> crate::chars::is_ident_char(s[i])),
        SpecLexeme::Operator(s) => s.len() > 0 && (forall|i: int|
            0 <= i < s.len() ==> crate::chars::is_op_char(s[i])),
        SpecLexeme::QuotedString(s) => s.len() >= 2 && s[0] == '"' && s.last() == '"' && (forall|
            i: int,
        | 1 <= i < s.len() - 1 ==> s[i] != '"'),
        _ => true,
    }
}

/// The bracket kinds of a nesting stack, innermost last.
pub open spec fn nest_kinds(ns: Seq<SpecNest>) -> Seq<BracketType> {
    ns.map_values(|n: SpecNest| n.bt)
}

/// The bracket kinds after one lexeme: opening brackets push their kind,
/// closing brackets pop, and every other lexeme leaves the stack alone.
pub open spec fn kinds_after(l: SpecLexeme, ks: Seq<BracketType>) -> Seq<BracketType> {
    match l {
        SpecLexeme::LParen => ks.push(BracketType::Paren),
        SpecLexeme::LSquare => ks.push(BracketType::Square),
        SpecLexeme::LCurly => ks.push(BracketType::Curly),
        SpecLexeme::RParen => ks.drop_last(),
        SpecLexeme::RSquare => ks.drop_last(),
        SpecLexeme::RCurly => ks.drop_last(),
        _ => ks,
    }
}

/// The source text of a lexeme sequence: each lexeme's text, one space
/// between consecutive lexemes.
pub open spec fn render_lexemes(ls: Seq<SpecLexeme>) -> Seq<char>
    decreases ls.len(),
{
    if ls.len() == 0 {
        Seq::empty()
    } else if ls.len() == 1 {
        crate::lexer::lexeme_source(ls[0])
    } else {
        crate::lexer::lexeme_source(ls[0]) + seq![' '] + render_lexemes(ls.drop_first())
    }
}

/// A well-formed lexeme's source text is never empty.
pub proof fn lemma_source_nonempty(l: SpecLexeme)
    requires
        wf_lexeme(l),
    ensures
        crate::lexer::lexeme_source(l).len() >= 1,
{
    match l {
        SpecLexeme::Signed(v) => {
            if v < 0 {
                crate::chars::lemma_dec_digits_wf(-v);
            } else {
                crate::chars::lemma_dec_digits_wf(v);
            }
        },
        _ => {},
    }
}

/// Every token the scanner yields is well formed, closing brackets match
/// the innermost open bracket, and the nesting stack's kinds change exactly
/// as the token dictates.
pub proof fn lemma_scan_facts(rest: Seq<char>, loc: SpecLoc, nesting: Seq<SpecNest>)
    ensures
        (spec_scan(rest, loc, nesting) matches ScanOut::Tok { token, nesting: n2, .. }
            ==> wf_lexeme(token.lexeme) && nest_kinds(n2) == kinds_after(
            token.lexeme,
            nest_kinds(nesting),
        ) && (token.lexeme is RParen ==> nesting.len() > 0 && nesting.last().bt
            == BracketType::Paren) && (token.lexeme is RSquare ==> nesting.len() > 0
            && nesting.last().bt == BracketType::Square) && (token.lexeme is RCurly
            ==> nesting.len() > 0 && nesting.last().bt == BracketType::Curly)),
    decreases rest.len(),
{
    if rest.len() > 0 {
        let c = rest[0];
        if c == '\n' && nesting.len() == 0 {
        } else if crate::chars::is_space_char(c) {
            lemma_scan_facts(rest.drop_first(), crate::location::next_loc(loc, c), nesting);
        } else if crate::chars::is_digit_char(c) || (c == '-' && rest.len() > 1
            && crate::chars::is_digit_char(rest[1])) {
        } else if crate::chars::is_ident_start_char(c) {
            crate::chars::lemma_run_len_props(rest, crate::scan::ident_pred());
            let k = crate::chars::run_len(rest, crate::scan::ident_pred()) as int;
            assert(rest.take(k)[0] == c);
            assert forall|i: int| 0 <= i < k implies crate::chars::is_ident_char(
                rest.take(k)[i],
            ) by {
                assert(rest.take(k)[i] == rest[i]);
            }
        } else if crate::chars::is_op_char(c) {
            crate::chars::lemma_run_len_props(rest, crate::scan::op_pred());
            let k = crate::chars::run_len(rest, crate::scan::op_pred()) as int;
            assert forall|i: int| 0 <= i < k implies crate::chars::is_op_char(
                rest.take(k)[i],
            ) by {
                assert(rest.take(k)[i] == rest[i]);
            }
        } else if c == '"' {
            crate::chars::lemma_run_len_props(rest.skip(1), crate::scan::str_body_pred());
            let k = crate::chars::run_len(rest.skip(1), crate::scan::str_body_pred()) as int;
            if 1 + k != rest.len() {
                let span = rest.take(k + 2);
                assert(span[0] == c);
                assert(rest.skip(1)[k] == rest[k + 1]);
                assert(span.last() == rest[k + 1]);
                assert forall|i: int| 1 <= i < span.len() - 1 implies span[i] != '"' by {
                    assert(rest.skip(1)[i - 1] == rest[i]);
                    assert(span[i] == rest[i]);
                }
            }
        } else if c == '(' || c == '[' || c == '{' {
            let bt = crate::scan::open_bt(c);
            assert(nest_kinds(nesting.push(SpecNest { location: loc, bt })) =~= nest_kinds(
                nesting,
            ).push(bt));
        } else if c == ')' || c == ']' || c == '}' {
            if nesting.len() > 0 && nesting.last().bt == close_bt(c) {
                assert(nest_kinds(nesting.drop_last()) =~= nest_kinds(nesting).drop_last());
            }
        }
    }
}

/// Scanning the source text of one well-formed lexeme, followed by nothing
/// or by a space, yields exactly that lexeme back, leaves exactly the tail
/// un-scanned, and changes the nesting kinds as the lexeme dictates. A
/// closing bracket asks for a matching innermost open bracket.
pub proof fn lemma_scan_one(l: SpecLexeme, tail: Seq<char>, loc: SpecLoc, nesting: Seq<SpecNest>)
    requires
        wf_lexeme(l),
        tail.len() == 0 || tail[0] == ' ',
        l is RParen ==> nesting.len() > 0 && nesting.last().bt == BracketType::Paren,
        l is RSquare ==> nesting.len() > 0 && nesting.last().bt == BracketType::Square,
        l is RCurly ==> nesting.len() > 0 && nesting.last().bt == BracketType::Curly,
    ensures
        (spec_scan(crate::lexer::lexeme_source(l) + tail, loc, nesting) matches ScanOut::Tok {
            token,
            rest,
            nesting: n2,
            ..
        } && token.lexeme == l && rest =~= tail && nest_kinds(n2) == kinds_after(
            l,
            nest_kinds(nesting),
        )),
{
    let s = crate::lexer::lexeme_source(l);
    let r = s + tail;
    lemma_source_nonempty(l);
    assert(r[0] == s[0]);
    match l {
        SpecLexeme::Signed(v) => {
            if v >= 0 {
                crate::chars::lemma_dec_digits_wf(v);
                assert(s == crate::chars::dec_digits(v));
                assert(crate::chars::is_digit_char(r[0]));
                assert(r.skip(0) =~= r);
                crate::chars::lemma_run_len_is(
                    r,
                    crate::scan::digit_pred(),
                    s.len() as int,
                );
                assert(r.skip(0).take(s.len() as int) =~= s);
                crate::chars::lemma_digits_val_dec_digits(v);
                assert(r.skip(0 + s.len() as int) =~= tail);
                assert(r.take(0 + s.len() as int) =~= s);
            } else {
                crate::chars::lemma_dec_digits_wf(-v);
                assert(s == seq!['-'] + crate::chars::dec_digits(-v));
                assert(r[0] == '-');
                assert(r[1] == crate::chars::dec_digits(-v)[0]);
                assert(crate::chars::is_digit_char(r[1]));
                assert(!crate::chars::is_digit_char('-'));
                assert(r.skip(1) =~= crate::chars::dec_digits(-v) + tail);
                crate::chars::lemma_run_len_is(
                    r.skip(1),
                    crate::scan::digit_pred(),
                    crate::chars::dec_digits(-v).len() as int,
                );
                let k = crate::chars::dec_digits(-v).len() as int;
                assert(r.skip(1).take(k) =~= crate::chars::dec_digits(-v));
                crate::chars::lemma_digits_val_dec_digits(-v);
                assert(r.skip(1 + k) =~= tail);
                assert(r.take(1 + k) =~= s);
            }
        },
        SpecLexeme::Identifier(t) => {
            assert(!crate::chars::is_digit_char(t[0]));
            assert(t[0] != '-');
            crate::chars::lemma_run_len_is(r, crate::scan::ident_pred(), t.len() as int);
            assert(r.take(t.len() as int) =~= t);
            assert(r.skip(t.len() as int) =~= tail);
        },
        SpecLexeme::Operator(t) => {
            assert(!crate::chars::is_digit_char(t[0]));
            assert(!crate::chars::is_ident_start_char(t[0]));
            if t[0] == '-' && r.len() > 1 {
                if t.len() > 1 {
                    assert(r[1] == t[1]);
                    assert(!crate::chars::is_digit_char(r[1]));
                } else {
                    assert(r[1] == tail[0]);
                    assert(!crate::chars::is_digit_char(r[1]));
                }
            }
            crate::chars::lemma_run_len_is(r, crate::scan::op_pred(), t.len() as int);
            assert(r.take(t.len() as int) =~= t);
            assert(r.skip(t.len() as int) =~= tail);
        },
        SpecLexeme::QuotedString(t) => {
            assert(!crate::chars::is_digit_char('"'));
            assert(!crate::chars::is_ident_start_char('"'));
            assert(!crate::chars::is_op_char('"'));
            let k = t.len() - 2;
            assert(r.skip(1) =~= t.skip(1) + tail);
            assert forall|i: int| 0 <= i < k implies r.skip(1)[i] != '"' by {
                assert(r.skip(1)[i] == t[i + 1]);
            }
            assert(r.skip(1)[k] == t.last());
            crate::chars::lemma_run_len_is(r.skip(1), crate::scan::str_body_pred(), k);
            assert(1 + k < r.len());
            assert(r.take(k + 2) =~= t);
            assert(r.skip(k + 2) =~= tail);
        },
        SpecLexeme::Semicolon => {
            assert(r.drop_first() =~= tail);
        },
        SpecLexeme::Comma => {
            assert(r.drop_first() =~= tail);
        },
        SpecLexeme::LParen => {
            assert(r.drop_first() =~= tail);
            assert(nest_kinds(nesting.push(SpecNest { location: loc, bt: BracketType::Paren }))
                =~= nest_kinds(nesting).push(BracketType::Paren));
        },
        SpecLexeme::LSquare => {
            assert(r.drop_first() =~= tail);
            assert(nest_kinds(nesting.push(SpecNest { location: loc, bt: BracketType::Square }))
                =~= nest_kinds(nesting).push(BracketType::Square));
        },
        SpecLexeme::LCurly => {
            assert(r.drop_first() =~= tail);
            assert(nest_kinds(nesting.push(SpecNest { location: loc, bt: BracketType::Curly }))
                =~= nest_kinds(nesting).push(BracketType::Curly));
        },
        SpecLexeme::RParen => {
            assert(r.drop_first() =~= tail);
            assert(nest_kinds(nesting.drop_last()) =~= nest_kinds(nesting).drop_last());
        },
        SpecLexeme::RSquare => {
            assert(r.drop_first() =~= tail);
            assert(nest_kinds(nesting.drop_last()) =~= nest_kinds(nesting).drop_last());
        },
        SpecLexeme::RCurly => {
            assert(r.drop_first() =~= tail);
            assert(nest_kinds(nesting.drop_last()) =~= nest_kinds(nesting).drop_last());
        },
    }
}

/// A leading space changes nothing of the lexemes an input scans to.
pub proof fn lemma_scan_lexemes_space(y: Seq<char>, loc: SpecLoc, nesting: Seq<SpecNest>)
    ensures
        scan_lexemes(seq![' '] + y, loc, nesting) == scan_lexemes(y, next_loc(loc, ' '), nesting),
{
    let r = seq![' '] + y;
    assert(r[0] == ' ');
    assert(r.drop_first() =~= y);
    assert(spec_scan(r, loc, nesting) == spec_scan(y, next_loc(loc, ' '), nesting));
    crate::scan::lemma_scan_progress(y, next_loc(loc, ' '), nesting);
}

/// Re-lexing the text reconstructed from a scan's lexemes — each lexeme's
/// source text, one space between lexemes — reproduces exactly the original
/// lexeme sequence, from any starting location and any nesting stack with
/// the same bracket kinds.
pub proof fn lemma_relex_round_trip(
    rest: Seq<char>,
    loc: SpecLoc,
    nesting: Seq<SpecNest>,
    loc2: SpecLoc,
    nesting2: Seq<SpecNest>,
)
    requires
        scan_lexemes(rest, loc, nesting) is Ok,
        nest_kinds(nesting2) == nest_kinds(nesting),
    ensures
        scan_lexemes(
            render_lexemes(scan_lexemes(rest, loc, nesting)->Ok_0),
            loc2,
            nesting2,
        ) == scan_lexemes(rest, loc, nesting),
    decreases rest.len(),
{
    let ls = scan_lexemes(rest, loc, nesting)->Ok_0;
    match spec_scan(rest, loc, nesting) {
        ScanOut::End { .. } => {
            assert(ls =~= Seq::<SpecLexeme>::empty());
            assert(render_lexemes(ls) =~= Seq::<char>::empty());
        },
        ScanOut::Fail { .. } => {
        },
        ScanOut::Tok { token, rest: rest_a, loc: loc_a, nesting: nesting_a } => {
            crate::scan::lemma_scan_progress(rest, loc, nesting);
            lemma_scan_facts(rest, loc, nesting);
            let ls2 = scan_lexemes(rest_a, loc_a, nesting_a)->Ok_0;
            assert(ls == seq![token.lexeme] + ls2);
            assert(ls[0] == token.lexeme);
            assert(ls.drop_first() =~= ls2);
            let tail: Seq<char> = if ls2.len() == 0 {
                Seq::empty()
            } else {
                seq![' '] + render_lexemes(ls2)
            };
            assert(render_lexemes(ls) == crate::lexer::lexeme_source(token.lexeme) + tail) by {
                if ls.len() == 1 {
                    assert(crate::lexer::lexeme_source(ls[0]) + Seq::<char>::empty()
                        =~= crate::lexer::lexeme_source(ls[0]));
                }
            }
            if ls2.len() > 0 {
                assert(tail[0] == ' ');
            }
            assert(nest_kinds(nesting2).len() == nesting2.len());
            assert(nest_kinds(nesting).len() == nesting.len());
            if nesting.len() > 0 && nesting2.len() > 0 {
                assert(nest_kinds(nesting2)[nesting2.len() - 1] == nesting2.last().bt);
                assert(nest_kinds(nesting)[nesting.len() - 1] == nesting.last().bt);
            }
            lemma_scan_one(token.lexeme, tail, loc2, nesting2);
            lemma_source_nonempty(token.lexeme);
            match spec_scan(render_lexemes(ls), loc2, nesting2) {
                ScanOut::Tok { token: token_b, rest: rest_b, loc: loc_b, nesting: nesting_b } => {
                    assert(rest_b.len() < render_lexemes(ls).len());
                    if ls2.len() == 0 {
                        assert(rest_b =~= Seq::<char>::empty());
                        assert(scan_lexemes(render_lexemes(ls), loc2, nesting2) == Ok::<
                            _,
                            SpecError,
                        >(seq![token.lexeme] + Seq::<SpecLexeme>::empty()));
                        assert(seq![token.lexeme] + Seq::<SpecLexeme>::empty() =~= ls);
                    } else {
                        lemma_scan_lexemes_space(render_lexemes(ls2), loc_b, nesting_b);
                        lemma_relex_round_trip(
                            rest_a,
                            loc_a,
                            nesting_a,
                            next_loc(loc_b, ' '),
                            nesting_b,
                        );
                        assert(scan_lexemes(rest_b, loc_b, nesting_b) == Ok::<_, SpecError>(
                            ls2,
                        ));
                        assert(seq![token.lexeme] + ls2 =~= ls);
                    }
                },
                _ => {
                    assert(false);
                },
            }
        },
    }
}

/// Idempotence of lexing under reconstruction: a full input's lexemes,
/// rendered back to text and lexed again from a fresh start, come out
/// unchanged.
pub proof fn lemma_lex_render_idempotent(
    input: Seq<char>,
    filename: Seq<char>,
    filename2: Seq<char>,
)
    requires
        scan_lexemes(input, SpecLoc { filename, line: 1, col: 0 }, Seq::empty()) is Ok,
    ensures
        (scan_lexemes(
            render_lexemes(
                scan_lexemes(input, SpecLoc { filename, line: 1, col: 0 }, Seq::empty())->Ok_0,
            ),
            SpecLoc { filename: filename2, line: 1, col: 0 },
            Seq::empty(),
        ) == scan_lexemes(input, SpecLoc { filename, line: 1, col: 0 }, Seq::empty())),
{
    lemma_relex_round_trip(
        input,
        SpecLoc { filename, line: 1, col: 0 },
        Seq::empty(),
        SpecLoc { filename: filename2, line: 1, col: 0 },
        Seq::empty(),
    );
}

} // verus!
