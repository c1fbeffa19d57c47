//! The parser's mathematical model: one spec function per grammar rule,
//! consuming the lexer model one token at a time with one-token lookahead.
//! The executable parser is proved to return exactly what these functions
//! describe.
//!
//! Termination of the mutually recursive rules follows the measure
//! `(lex_measure, rank)`: every guarded recursion step consumes input. The
//! guards (`if lex_measure .. < ..`) always hold on the paths the executable
//! parser takes, which its contracts show.

use vstd::prelude::*;

use crate::chars::is_upper_char;
use crate::error::SpecError;
use crate::identifier::SpecIdentifier;
use crate::lexer::SpecLexeme;
use crate::location::SpecLoc;
use crate::parser::{SpecDecl, SpecExpr, SpecPatternExpr, SpecPredicate, spec_is_keyword};
use crate::scan::{
    advance_model, chomp_model, err_at, skip_semicolon_model, LexerModel, SpecLexState,
};

verus! {

pub use crate::scan::lex_measure;

/// Message of the error for a missing token where a predicate was required.
pub open spec fn missing_predicate_msg() -> Seq<char> {
    "missing token where a predicate was expected?"@
}

/// Message of the error for a missing identifier.
pub open spec fn expected_identifier_msg() -> Seq<char> {
    "expected an identifier here"@
}

/// Message of the error for a missing call-site expression.
pub open spec fn missing_callsite_msg() -> Seq<char> {
    "missing function callsite expression"@
}

/// Model of `maybe_id`: an optional leading identifier that is not a
/// keyword; anything else matches nothing and consumes nothing.
pub open spec fn maybe_id_model(m: LexerModel) -> Result<
    (Option<SpecIdentifier>, LexerModel),
    SpecError,
> {
    match m.state {
        SpecLexState::Read(t) => match t.lexeme {
            SpecLexeme::Identifier(name) => if spec_is_keyword(name) {
                Ok((None, m))
            } else {
                match advance_model(m) {
                    Ok((m2, _)) => Ok(
                        (Some(SpecIdentifier { name, location: t.location }), m2),
                    ),
                    Err(e) => Err(e),
                }
            },
            _ => Ok((None, m)),
        },
        _ => Ok((None, m)),
    }
}

/// Model of `parse_identifier`: the buffered token must be an identifier,
/// which is consumed; anything else is an error.
pub open spec fn parse_identifier_model(m: LexerModel) -> Result<
    (SpecIdentifier, LexerModel),
    SpecError,
> {
    match m.state {
        SpecLexState::Read(t) => match t.lexeme {
            SpecLexeme::Identifier(name) => match advance_model(m) {
                Ok((m2, _)) => Ok((SpecIdentifier { name, location: t.location }, m2)),
                Err(e) => Err(e),
            },
            _ => Err(err_at(m.loc, expected_identifier_msg())),
        },
        _ => Err(err_at(m.loc, expected_identifier_msg())),
    }
}

/// Model of `parse_predicate`, by lookahead on the buffered token: integer
/// and string literals are literal patterns; an identifier starting with an
/// upper-case letter is a constructor applied to the following predicates,
/// any other identifier an irrefutable binding; an open parenthesis starts
/// a tuple pattern. Other tokens match nothing and consume nothing, and a
/// missing token is an error.
pub open spec fn spec_parse_predicate(m: LexerModel) -> Result<
    (Option<SpecPredicate>, LexerModel),
    SpecError,
>
    decreases lex_measure(m), 0int,
{
    match m.state {
        SpecLexState::Read(t) => match t.lexeme {
            SpecLexeme::Signed(v) => match advance_model(m) {
                Ok((m2, _)) => Ok(
                    (Some(SpecPredicate::Integer { location: t.location, value: v }), m2),
                ),
                Err(e) => Err(e),
            },
            SpecLexeme::QuotedString(s) => match advance_model(m) {
                Ok((m2, _)) => Ok(
                    (Some(SpecPredicate::String { location: t.location, value: s }), m2),
                ),
                Err(e) => Err(e),
            },
            SpecLexeme::Identifier(name) => if name.len() > 0 && is_upper_char(name[0]) {
                match advance_model(m) {
                    Ok((m2, _)) => if lex_measure(m2) < lex_measure(m) {
                        match spec_parse_predicates_rest(Seq::empty(), m2) {
                            Ok((dims, m3)) => Ok(
                                (
                                    Some(
                                        SpecPredicate::Ctor {
                                            ctor_id: SpecIdentifier { name, location: t.location },
                                            dims,
                                        },
                                    ),
                                    m3,
                                ),
                            ),
                            Err(e) => Err(e),
                        }
                    } else {
                        arbitrary()
                    },
                    Err(e) => Err(e),
                }
            } else {
                match advance_model(m) {
                    Ok((m2, _)) => Ok(
                        (
                            Some(
                                SpecPredicate::Irrefutable(
                                    SpecIdentifier { name, location: t.location },
                                ),
                            ),
                            m2,
                        ),
                    ),
                    Err(e) => Err(e),
                }
            },
            SpecLexeme::LParen => match advance_model(m) {
                Ok((m2, _)) => if lex_measure(m2) < lex_measure(m) {
                    spec_parse_tuple_rest(t.location, Seq::empty(), m2)
                } else {
                    arbitrary()
                },
                Err(e) => Err(e),
            },
            _ => Ok((None, m)),
        },
        _ => Err(err_at(m.loc, missing_predicate_msg())),
    }
}

/// Model of `parse_predicates`: every following predicate in order,
/// stopping without error at the first token that starts none.
pub open spec fn spec_parse_predicates_rest(acc: Seq<SpecPredicate>, m: LexerModel) -> Result<
    (Seq<SpecPredicate>, LexerModel),
    SpecError,
>
    decreases lex_measure(m), 1int,
{
    match spec_parse_predicate(m) {
        Err(e) => Err(e),
        Ok((None, m2)) => Ok((acc, m2)),
        Ok((Some(p), m2)) => if lex_measure(m2) < lex_measure(m) {
            spec_parse_predicates_rest(acc.push(p), m2)
        } else {
            arbitrary()
        },
    }
}

/// Model of the body of `parse_tuple_predicate`, after the opening
/// parenthesis: comma-separated predicates up to the closing parenthesis.
/// A single parenthesized predicate with no comma degenerates to that
/// predicate; every other count makes a tuple pattern.
pub open spec fn spec_parse_tuple_rest(
    location: SpecLoc,
    items: Seq<SpecPredicate>,
    m: LexerModel,
) -> Result<(Option<SpecPredicate>, LexerModel), SpecError>
    decreases lex_measure(m), 1int,
{
    match spec_parse_predicate(m) {
        Err(e) => Err(e),
        Ok((None, m2)) => match chomp_model(m2, SpecLexeme::RParen) {
            Ok(m3) => Ok((Some(SpecPredicate::Tuple { location, dims: items }), m3)),
            Err(e) => Err(e),
        },
        Ok((Some(p), m2)) => if m2.state matches SpecLexState::Read(t2) && t2.lexeme
            is Comma {
            match advance_model(m2) {
                Ok((m3, _)) => if lex_measure(m3) < lex_measure(m) {
                    spec_parse_tuple_rest(location, items.push(p), m3)
                } else {
                    arbitrary()
                },
                Err(e) => Err(e),
            }
        } else {
            match chomp_model(m2, SpecLexeme::RParen) {
                Ok(m3) => if items.len() == 0 {
                    Ok((Some(p), m3))
                } else {
                    Ok((Some(SpecPredicate::Tuple { location, dims: items.push(p) }), m3))
                },
                Err(e) => Err(e),
            }
        },
    }
}

/// Model of `parse_callsite_term`, by lookahead on the buffered token: the
/// keywords `let` and `match` open their expressions; any other keyword, a
/// semicolon, a bare `=`, a closing parenthesis, or a missing token match
/// nothing and consume nothing; a plain identifier or an operator is a
/// symbol reference; literals are literal expressions; an open parenthesis
/// wraps a whole call-site expression; any other lexeme is an
/// "unimplemented construct" error.
pub open spec fn spec_parse_callsite_term(m: LexerModel) -> Result<
    (Option<SpecExpr>, LexerModel),
    SpecError,
>
    decreases lex_measure(m), 0int,
{
    match m.state {
        SpecLexState::Read(t) => match t.lexeme {
            SpecLexeme::Identifier(name) => if name == "let"@ {
                match advance_model(m) {
                    Ok((m2, loc2)) => if lex_measure(m2) < lex_measure(m) {
                        spec_parse_let_expr(loc2, m2)
                    } else {
                        arbitrary()
                    },
                    Err(e) => Err(e),
                }
            } else if name == "match"@ {
                match advance_model(m) {
                    Ok((m2, loc2)) => if lex_measure(m2) < lex_measure(m) {
                        spec_parse_match_expr(loc2, m2)
                    } else {
                        arbitrary()
                    },
                    Err(e) => Err(e),
                }
            } else if spec_is_keyword(name) {
                Ok((None, m))
            } else {
                match advance_model(m) {
                    Ok((m2, _)) => Ok(
                        (
                            Some(
                                SpecExpr::Symbol { id: SpecIdentifier { name, location: t.location } },
                            ),
                            m2,
                        ),
                    ),
                    Err(e) => Err(e),
                }
            },
            SpecLexeme::Semicolon => Ok((None, m)),
            SpecLexeme::Operator(name) => if name == seq!['='] {
                Ok((None, m))
            } else {
                match advance_model(m) {
                    Ok((m2, _)) => Ok(
                        (
                            Some(
                                SpecExpr::Symbol { id: SpecIdentifier { name, location: t.location } },
                            ),
                            m2,
                        ),
                    ),
                    Err(e) => Err(e),
                }
            },
            SpecLexeme::LParen => match advance_model(m) {
                Ok((m2, _)) => if lex_measure(m2) < lex_measure(m) {
                    match spec_parse_callsite(m2) {
                        Ok((e, m3)) => match chomp_model(m3, SpecLexeme::RParen) {
                            Ok(m4) => Ok((Some(e), m4)),
                            Err(e2) => Err(e2),
                        },
                        Err(e2) => Err(e2),
                    }
                } else {
                    arbitrary()
                },
                Err(e) => Err(e),
            },
            SpecLexeme::RParen => Ok((None, m)),
            SpecLexeme::QuotedString(s) => match advance_model(m) {
                Ok((m2, _)) => Ok(
                    (Some(SpecExpr::LiteralString { location: t.location, value: s }), m2),
                ),
                Err(e) => Err(e),
            },
            SpecLexeme::Signed(v) => match advance_model(m) {
                Ok((m2, _)) => Ok(
                    (Some(SpecExpr::LiteralInteger { location: t.location, value: v }), m2),
                ),
                Err(e) => Err(e),
            },
            _ => Err(err_at(t.location, crate::error::not_impl_msg())),
        },
        _ => Ok((None, m)),
    }
}

/// Model of the argument loop of `parse_callsite`: every following
/// call-site term in order, stopping without error at the first token that
/// starts none.
pub open spec fn spec_parse_args_rest(acc: Seq<SpecExpr>, m: LexerModel) -> Result<
    (Seq<SpecExpr>, LexerModel),
    SpecError,
>
    decreases lex_measure(m), 1int,
{
    match spec_parse_callsite_term(m) {
        Err(e) => Err(e),
        Ok((None, m2)) => Ok((acc, m2)),
        Ok((Some(e), m2)) => if lex_measure(m2) < lex_measure(m) {
            spec_parse_args_rest(acc.push(e), m2)
        } else {
            arbitrary()
        },
    }
}

/// Model of `parse_callsite`: skip leading semicolons, require one leading
/// term, and greedily take every following term as an argument. Zero
/// arguments collapse to the bare function expression, never a
/// zero-argument call site.
pub open spec fn spec_parse_callsite(m: LexerModel) -> Result<(SpecExpr, LexerModel), SpecError>
    decreases lex_measure(m), 2int,
{
    match skip_semicolon_model(m) {
        Err(e) => Err(e),
        Ok(m1) => if lex_measure(m1) <= lex_measure(m) {
            match spec_parse_callsite_term(m1) {
                Err(e) => Err(e),
                Ok((None, m2)) => Err(err_at(m2.loc, missing_callsite_msg())),
                Ok((Some(f), m2)) => if lex_measure(m2) <= lex_measure(m) {
                    match spec_parse_args_rest(Seq::empty(), m2) {
                        Err(e) => Err(e),
                        Ok((args, m3)) => if args.len() == 0 {
                            Ok((f, m3))
                        } else {
                            Ok(
                                (
                                    SpecExpr::Callsite {
                                        function: Box::new(f),
                                        arguments: args,
                                    },
                                    m3,
                                ),
                            )
                        },
                    }
                } else {
                    arbitrary()
                },
            }
        } else {
            arbitrary()
        },
    }
}

/// Model of `parse_let_expr`, after the `let` keyword: an identifier, `=`,
/// the bound value, the keyword `in`, and the body.
pub open spec fn spec_parse_let_expr(location: SpecLoc, m: LexerModel) -> Result<
    (Option<SpecExpr>, LexerModel),
    SpecError,
>
    decreases lex_measure(m), 3int,
{
    match parse_identifier_model(m) {
        Err(e) => Err(e),
        Ok((binding, m1)) => if lex_measure(m1) <= lex_measure(m) {
            match chomp_model(m1, SpecLexeme::Operator(seq!['='])) {
                Err(e) => Err(e),
                Ok(m2) => if lex_measure(m2) <= lex_measure(m) {
                    match spec_parse_callsite(m2) {
                        Err(e) => Err(e),
                        Ok((value, m3)) => if lex_measure(m3) <= lex_measure(m) {
                            match chomp_model(m3, SpecLexeme::Identifier(seq!['i', 'n'])) {
                                Err(e) => Err(e),
                                Ok(m4) => if lex_measure(m4) <= lex_measure(m) {
                                    match spec_parse_callsite(m4) {
                                        Err(e) => Err(e),
                                        Ok((body, m5)) => Ok(
                                            (
                                                Some(
                                                    SpecExpr::Let {
                                                        location,
                                                        binding,
                                                        value: Box::new(value),
                                                        body: Box::new(body),
                                                    },
                                                ),
                                                m5,
                                            ),
                                        ),
                                    }
                                } else {
                                    arbitrary()
                                },
                            }
                        } else {
                            arbitrary()
                        },
                    }
                } else {
                    arbitrary()
                },
            }
        } else {
            arbitrary()
        },
    }
}

/// Model of the arm loop of `parse_match_expr`: skip semicolons, and while
/// a token is buffered and starts a predicate, require `=>` and an arm body
/// expression. The arms end cleanly at the first token that starts no
/// predicate, or at the end of the input.
pub open spec fn spec_parse_match_arms(acc: Seq<SpecPatternExpr>, m: LexerModel) -> Result<
    (Seq<SpecPatternExpr>, LexerModel),
    SpecError,
>
    decreases lex_measure(m), 3int,
{
    match skip_semicolon_model(m) {
        Err(e) => Err(e),
        Ok(m1) => if lex_measure(m1) <= lex_measure(m) {
            if !(m1.state is Read) {
                Ok((acc, m1))
            } else {
                match spec_parse_predicate(m1) {
                    Err(e) => Err(e),
                    Ok((None, m2)) => Ok((acc, m2)),
                    Ok((Some(p), m2)) => if lex_measure(m2) < lex_measure(m) {
                        match chomp_model(m2, SpecLexeme::Operator(seq!['=', '>'])) {
                            Err(e) => Err(e),
                            Ok(m3) => if lex_measure(m3) <= lex_measure(m) {
                                match spec_parse_callsite(m3) {
                                    Err(e) => Err(e),
                                    Ok((body, m4)) => if lex_measure(m4) < lex_measure(m) {
                                        spec_parse_match_arms(
                                            acc.push(SpecPatternExpr { predicate: p, expr: body }),
                                            m4,
                                        )
                                    } else {
                                        arbitrary()
                                    },
                                }
                            } else {
                                arbitrary()
                            },
                        }
                    } else {
                        arbitrary()
                    },
                }
            }
        } else {
            arbitrary()
        },
    }
}

/// Model of `parse_match_expr`, after the `match` keyword: the subject
/// call-site expression, then the arms.
pub open spec fn spec_parse_match_expr(location: SpecLoc, m: LexerModel) -> Result<
    (Option<SpecExpr>, LexerModel),
    SpecError,
>
    decreases lex_measure(m), 4int,
{
    match spec_parse_callsite(m) {
        Err(e) => Err(e),
        Ok((subject, m1)) => if lex_measure(m1) <= lex_measure(m) {
            match spec_parse_match_arms(Seq::empty(), m1) {
                Err(e) => Err(e),
                Ok((arms, m2)) => Ok(
                    (
                        Some(
                            SpecExpr::Match {
                                location,
                                subject: Box::new(subject),
                                pattern_exprs: arms,
                            },
                        ),
                        m2,
                    ),
                ),
            }
        } else {
            arbitrary()
        },
    }
}

/// Model of `parse_decl`: an optional leading non-keyword identifier (no
/// identifier: no declaration, nothing consumed), the parameter
/// predicates, `=`, and one call-site expression as the body.
pub open spec fn spec_parse_decl(m: LexerModel) -> Result<
    (Option<SpecDecl>, LexerModel),
    SpecError,
> {
    match maybe_id_model(m) {
        Err(e) => Err(e),
        Ok((None, m1)) => Ok((None, m1)),
        Ok((Some(id), m1)) => match spec_parse_predicates_rest(Seq::empty(), m1) {
            Err(e) => Err(e),
            Ok((preds, m2)) => match chomp_model(m2, SpecLexeme::Operator(seq!['='])) {
                Err(e) => Err(e),
                Ok(m3) => match spec_parse_callsite(m3) {
                    Err(e) => Err(e),
                    Ok((body, m4)) => Ok(
                        (Some(SpecDecl { id, predicates: preds, body }), m4),
                    ),
                },
            },
        },
    }
}

/// Model of `parse_many`: every declaration in order, semicolons between
/// declarations skipped, ending at the first position where none begins.
pub open spec fn spec_parse_many_rest(acc: Seq<SpecDecl>, m: LexerModel) -> Result<
    (Seq<SpecDecl>, LexerModel),
    SpecError,
>
    decreases lex_measure(m),
{
    match skip_semicolon_model(m) {
        Err(e) => Err(e),
        Ok(m1) => if lex_measure(m1) <= lex_measure(m) {
            match spec_parse_decl(m1) {
                Err(e) => Err(e),
                Ok((None, m2)) => Ok((acc, m2)),
                Ok((Some(d), m2)) => if lex_measure(m2) < lex_measure(m) {
                    spec_parse_many_rest(acc.push(d), m2)
                } else {
                    arbitrary()
                },
            }
        } else {
            arbitrary()
        },
    }
}

/// Model of `compile`: lex and parse a whole input, yielding the
/// declarations in source order or the first error anywhere.
pub open spec fn compile_model(filename: Seq<char>, input: Seq<char>) -> Result<
    Seq<SpecDecl>,
    SpecError,
> {
    let m = LexerModel {
        rest: input,
        loc: SpecLoc { filename, line: 1, col: 0 },
        nesting: Seq::empty(),
        state: SpecLexState::Started,
    };
    match advance_model(m) {
        Err(e) => Err(e),
        Ok((m1, _)) => match spec_parse_many_rest(Seq::empty(), m1) {
            Err(e) => Err(e),
            Ok((ds, _)) => Ok(ds),
        },
    }
}

} // verus!
