//! The abstract syntax tree and the recursive-descent parser: declarations,
//! their head predicates (patterns), and call-site expressions, built from
//! the lexer's token stream with one-token lookahead.

use vstd::prelude::*;

pub use crate::error::ErrorLevel;

use crate::error::ParseError;
use crate::identifier::{Identifier, SpecIdentifier};
use crate::lexer::{Lexer, Lexeme, SpecLexeme};
use crate::location::{HasLocation, Location, SpecLoc};
use crate::token::Token;

verus! {

broadcast use {
    vstd::seq::group_seq_axioms,
    vstd::seq::axiom_seq_index_decreases,
    vstd::std_specs::vec::axiom_vec_index_decreases,
    vstd::std_specs::vec::axiom_vec_decreases_to_view,
};

/// Mathematical model of a [`Predicate`].
#[verifier::ext_equal]
pub ghost enum SpecPredicate {
    Irrefutable(SpecIdentifier),
    Integer { location: SpecLoc, value: int },
    String { location: SpecLoc, value: Seq<char> },
    Ctor { ctor_id: SpecIdentifier, dims: Seq<SpecPredicate> },
    Tuple { location: SpecLoc, dims: Seq<SpecPredicate> },
}

/// A pattern in a declaration head or a match arm: an irrefutable binding,
/// an integer or string literal, a constructor applied to sub-patterns, or
/// a parenthesized comma-separated tuple of patterns.
#[derive(Debug)]
pub enum Predicate {
    Irrefutable(Identifier),
    Integer { location: Location, value: i64 },
    String { location: Location, value: Vec<char> },
    Ctor { ctor_id: Identifier, dims: Vec<Predicate> },
    Tuple { location: Location, dims: Vec<Predicate> },
}

impl View for Predicate {
    type V = SpecPredicate;

    open spec fn view(&self) -> SpecPredicate
        decreases self,
    {
        match self {
            Predicate::Irrefutable(id) => SpecPredicate::Irrefutable(id@),
            Predicate::Integer { location, value } => SpecPredicate::Integer {
                location: location@,
                value: *value as int,
            },
            Predicate::String { location, value } => SpecPredicate::String {
                location: location@,
                value: value@,
            },
            Predicate::Ctor { ctor_id, dims } => SpecPredicate::Ctor {
                ctor_id: ctor_id@,
                dims: preds_view(dims@),
            },
            Predicate::Tuple { location, dims } => SpecPredicate::Tuple {
                location: location@,
                dims: preds_view(dims@),
            },
        }
    }
}

impl HasLocation for Predicate {
    open spec fn spec_location(&self) -> SpecLoc {
        match self {
            Predicate::Irrefutable(id) => id.spec_location(),
            Predicate::Integer { location, .. } => location@,
            Predicate::String { location, .. } => location@,
            Predicate::Ctor { ctor_id, .. } => ctor_id.spec_location(),
            Predicate::Tuple { location, .. } => location@,
        }
    }

    fn get_location(&self) -> (l: &Location) {
        match self {
            Predicate::Irrefutable(id) => id.get_location(),
            Predicate::Integer { location, .. } => location,
            Predicate::String { location, .. } => location,
            Predicate::Ctor { ctor_id, .. } => ctor_id.get_location(),
            Predicate::Tuple { location, .. } => location,
        }
    }
}

/// The views of a sequence of predicates, in order.
pub open spec fn preds_view(s: Seq<Predicate>) -> Seq<SpecPredicate>
    decreases s,
{
    if s.len() == 0 {
        Seq::empty()
    } else {
        seq![s[0].view()] + preds_view(s.drop_first())
    }
}

/// `preds_view` maps indices one for one.
pub proof fn lemma_preds_view(s: Seq<Predicate>)
    ensures
        preds_view(s).len() == s.len(),
        forall|i: int| 0 <= i < s.len() ==> preds_view(s)[i] == s[i]@,
    decreases s.len(),
{
    if s.len() > 0 {
        lemma_preds_view(s.drop_first());
        assert(preds_view(s) == seq![s[0].view()] + preds_view(s.drop_first()));
        assert forall|i: int| 0 <= i < s.len() implies preds_view(s)[i] == s[i]@ by {
            if i == 0 {
                assert(preds_view(s)[0] == s[0].view());
            } else {
                assert(s.drop_first()[i - 1] == s[i]);
                assert(preds_view(s)[i] == preds_view(s.drop_first())[i - 1]);
            }
        }
    }
}

/// Mathematical model of a [`PatternExpr`].
#[verifier::ext_equal]
pub ghost struct SpecPatternExpr {
    pub predicate: SpecPredicate,
    pub expr: SpecExpr,
}

/// One arm of a match expression: a pattern and the expression its success
/// selects.
#[derive(Debug)]
pub struct PatternExpr {
    pub predicate: Predicate,
    pub expr: Expr,
}

impl View for PatternExpr {
    type V = SpecPatternExpr;

    open spec fn view(&self) -> SpecPatternExpr
        decreases self,
    {
        SpecPatternExpr { predicate: self.predicate@, expr: self.expr.view() }
    }
}

/// Mathematical model of an [`Expr`].
#[verifier::ext_equal]
pub ghost enum SpecExpr {
    Lambda { location: SpecLoc, param_names: Seq<SpecIdentifier>, body: Box<SpecExpr> },
    Let { location: SpecLoc, binding: SpecIdentifier, value: Box<SpecExpr>, body: Box<SpecExpr> },
    LiteralInteger { location: SpecLoc, value: int },
    LiteralString { location: SpecLoc, value: Seq<char> },
    Symbol { id: SpecIdentifier },
    Match { location: SpecLoc, subject: Box<SpecExpr>, pattern_exprs: Seq<SpecPatternExpr> },
    Callsite { function: Box<SpecExpr>, arguments: Seq<SpecExpr> },
    TupleCtor { location: SpecLoc, dims: Seq<SpecExpr> },
}

/// An expression: a lambda, a let binding, a literal, a symbol reference,
/// a match, a call site (a function with one or more arguments), or a tuple
/// constructor.
#[derive(Debug)]
pub enum Expr {
    Lambda { location: Location, param_names: Vec<Identifier>, body: Box<Expr> },
    Let { location: Location, binding: Identifier, value: Box<Expr>, body: Box<Expr> },
    LiteralInteger { location: Location, value: i64 },
    LiteralString { location: Location, value: Vec<char> },
    Symbol { id: Identifier },
    Match { location: Location, subject: Box<Expr>, pattern_exprs: Vec<PatternExpr> },
    Callsite { function: Box<Expr>, arguments: Vec<Expr> },
    TupleCtor { location: Location, dims: Vec<Expr> },
}

impl View for Expr {
    type V = SpecExpr;

    open spec fn view(&self) -> SpecExpr
        decreases self,
    {
        match self {
            Expr::Lambda { location, param_names, body } => SpecExpr::Lambda {
                location: location@,
                param_names: Seq::new(param_names@.len(), |i: int| param_names[i]@),
                body: Box::new((**body).view()),
            },
            Expr::Let { location, binding, value, body } => SpecExpr::Let {
                location: location@,
                binding: binding@,
                value: Box::new((**value).view()),
                body: Box::new((**body).view()),
            },
            Expr::LiteralInteger { location, value } => SpecExpr::LiteralInteger {
                location: location@,
                value: *value as int,
            },
            Expr::LiteralString { location, value } => SpecExpr::LiteralString {
                location: location@,
                value: value@,
            },
            Expr::Symbol { id } => SpecExpr::Symbol { id: id@ },
            Expr::Match { location, subject, pattern_exprs } => SpecExpr::Match {
                location: location@,
                subject: Box::new((**subject).view()),
                pattern_exprs: pattern_exprs_view(pattern_exprs@),
            },
            Expr::Callsite { function, arguments } => SpecExpr::Callsite {
                function: Box::new((**function).view()),
                arguments: exprs_view(arguments@),
            },
            Expr::TupleCtor { location, dims } => SpecExpr::TupleCtor {
                location: location@,
                dims: exprs_view(dims@),
            },
        }
    }
}

/// The views of a sequence of expressions, in order.
pub open spec fn exprs_view(s: Seq<Expr>) -> Seq<SpecExpr>
    decreases s,
{
    if s.len() == 0 {
        Seq::empty()
    } else {
        seq![s[0].view()] + exprs_view(s.drop_first())
    }
}

/// `exprs_view` maps indices one for one.
pub proof fn lemma_exprs_view(s: Seq<Expr>)
    ensures
        exprs_view(s).len() == s.len(),
        forall|i: int| 0 <= i < s.len() ==> exprs_view(s)[i] == s[i]@,
    decreases s.len(),
{
    if s.len() > 0 {
        lemma_exprs_view(s.drop_first());
        assert(exprs_view(s) == seq![s[0].view()] + exprs_view(s.drop_first()));
        assert forall|i: int| 0 <= i < s.len() implies exprs_view(s)[i] == s[i]@ by {
            if i == 0 {
                assert(exprs_view(s)[0] == s[0].view());
            } else {
                assert(s.drop_first()[i - 1] == s[i]);
                assert(exprs_view(s)[i] == exprs_view(s.drop_first())[i - 1]);
            }
        }
    }
}

/// The views of a sequence of match arms, in order.
pub open spec fn pattern_exprs_view(s: Seq<PatternExpr>) -> Seq<SpecPatternExpr>
    decreases s,
{
    if s.len() == 0 {
        Seq::empty()
    } else {
        seq![
            SpecPatternExpr { predicate: s[0].predicate.view(), expr: s[0].expr.view() },
        ] + pattern_exprs_view(s.drop_first())
    }
}

/// `pattern_exprs_view` maps indices one for one.
pub proof fn lemma_pattern_exprs_view(s: Seq<PatternExpr>)
    ensures
        pattern_exprs_view(s).len() == s.len(),
        forall|i: int| 0 <= i < s.len() ==> pattern_exprs_view(s)[i] == s[i]@,
    decreases s.len(),
{
    if s.len() > 0 {
        lemma_pattern_exprs_view(s.drop_first());
        assert(pattern_exprs_view(s) == seq![
            SpecPatternExpr { predicate: s[0].predicate.view(), expr: s[0].expr.view() },
        ] + pattern_exprs_view(s.drop_first()));
        assert forall|i: int| 0 <= i < s.len() implies pattern_exprs_view(s)[i] == s[i]@ by {
            if i == 0 {
                assert(pattern_exprs_view(s)[0] == s[0].view());
            } else {
                assert(s.drop_first()[i - 1] == s[i]);
                assert(pattern_exprs_view(s)[i] == pattern_exprs_view(s.drop_first())[i - 1]);
            }
        }
    }
}

/// The location a spec-level expression derives: a call site reports its
/// function's location, a symbol its identifier's.
pub open spec fn spec_expr_location(e: SpecExpr) -> SpecLoc
    decreases e,
{
    match e {
        SpecExpr::Lambda { location, .. } => location,
        SpecExpr::Let { location, .. } => location,
        SpecExpr::LiteralInteger { location, .. } => location,
        SpecExpr::LiteralString { location, .. } => location,
        SpecExpr::Symbol { id } => id.location,
        SpecExpr::Match { location, .. } => location,
        SpecExpr::Callsite { function, .. } => spec_expr_location(*function),
        SpecExpr::TupleCtor { location, .. } => location,
    }
}

impl HasLocation for Expr {
    open spec fn spec_location(&self) -> SpecLoc {
        spec_expr_location(self@)
    }

    fn get_location(&self) -> (l: &Location)
        decreases self,
    {
        match self {
            Expr::Lambda { location, .. } => location,
            Expr::Let { location, .. } => location,
            Expr::LiteralInteger { location, .. } => location,
            Expr::LiteralString { location, .. } => location,
            Expr::Symbol { id } => id.get_location(),
            Expr::Match { location, .. } => location,
            Expr::Callsite { function, .. } => function.get_location(),
            Expr::TupleCtor { location, .. } => location,
        }
    }
}

/// Mathematical model of a [`Decl`].
#[verifier::ext_equal]
pub ghost struct SpecDecl {
    pub id: SpecIdentifier,
    pub predicates: Seq<SpecPredicate>,
    pub body: SpecExpr,
}

/// A top-level declaration: a name, its parameter patterns, and its body.
#[derive(Debug)]
pub struct Decl {
    pub id: Identifier,
    pub predicates: Vec<Predicate>,
    pub body: Expr,
}

impl View for Decl {
    type V = SpecDecl;

    open spec fn view(&self) -> SpecDecl {
        SpecDecl {
            id: self.id@,
            predicates: preds_view(self.predicates@),
            body: self.body@,
        }
    }
}

impl HasLocation for Decl {
    open spec fn spec_location(&self) -> SpecLoc {
        self.id.spec_location()
    }

    fn get_location(&self) -> (l: &Location) {
        self.id.get_location()
    }
}

/// The view of an optional value: the view of its content, if any.
pub open spec fn opt_view<T: View>(o: Option<T>) -> Option<T::V> {
    match o {
        Some(x) => Some(x@),
        None => None,
    }
}

/// The views of a sequence of declarations, in order.
pub open spec fn decls_view(s: Seq<Decl>) -> Seq<SpecDecl>
    decreases s,
{
    if s.len() == 0 {
        Seq::empty()
    } else {
        seq![s[0].view()] + decls_view(s.drop_first())
    }
}

/// `decls_view` maps indices one for one.
pub proof fn lemma_decls_view(s: Seq<Decl>)
    ensures
        decls_view(s).len() == s.len(),
        forall|i: int| 0 <= i < s.len() ==> decls_view(s)[i] == s[i]@,
    decreases s.len(),
{
    if s.len() > 0 {
        lemma_decls_view(s.drop_first());
        assert(decls_view(s) == seq![s[0].view()] + decls_view(s.drop_first()));
        assert forall|i: int| 0 <= i < s.len() implies decls_view(s)[i] == s[i]@ by {
            if i == 0 {
                assert(decls_view(s)[0] == s[0].view());
            } else {
                assert(s.drop_first()[i - 1] == s[i]);
                assert(decls_view(s)[i] == decls_view(s.drop_first())[i - 1]);
            }
        }
    }
}

/// Extending a predicate sequence extends its views.
pub proof fn lemma_preds_view_push(s: Seq<Predicate>, x: Predicate)
    ensures
        preds_view(s.push(x)) == preds_view(s).push(x@),
{
    lemma_preds_view(s);
    lemma_preds_view(s.push(x));
    assert(preds_view(s.push(x)) =~= preds_view(s).push(x@));
}

/// Extending an expression sequence extends its views.
pub proof fn lemma_exprs_view_push(s: Seq<Expr>, x: Expr)
    ensures
        exprs_view(s.push(x)) == exprs_view(s).push(x@),
{
    lemma_exprs_view(s);
    lemma_exprs_view(s.push(x));
    assert(exprs_view(s.push(x)) =~= exprs_view(s).push(x@));
}

/// Extending an arm sequence extends its views.
pub proof fn lemma_pattern_exprs_view_push(s: Seq<PatternExpr>, x: PatternExpr)
    ensures
        pattern_exprs_view(s.push(x)) == pattern_exprs_view(s).push(x@),
{
    lemma_pattern_exprs_view(s);
    lemma_pattern_exprs_view(s.push(x));
    assert(pattern_exprs_view(s.push(x)) =~= pattern_exprs_view(s).push(x@));
}

/// Extending a declaration sequence extends its views.
pub proof fn lemma_decls_view_push(s: Seq<Decl>, x: Decl)
    ensures
        decls_view(s.push(x)) == decls_view(s).push(x@),
{
    lemma_decls_view(s);
    lemma_decls_view(s.push(x));
    assert(decls_view(s.push(x)) =~= decls_view(s).push(x@));
}

/// The reserved words the grammar gives meaning to; none may name a
/// declaration.
pub open spec fn spec_is_keyword(name: Seq<char>) -> bool {
    ||| name == "if"@
    ||| name == "then"@
    ||| name == "else"@
    ||| name == "do"@
    ||| name == "let"@
    ||| name == "in"@
    ||| name == "match"@
}

/// Whether `name` is a reserved keyword.
pub fn is_keyword(name: &Vec<char>) -> (r: bool)
    ensures
        r == spec_is_keyword(name@),
{
    let r = text_is(name, "if") || text_is(name, "then") || text_is(name, "else") || text_is(
        name,
        "do",
    ) || text_is(name, "let") || text_is(name, "in") || text_is(name, "match");
    r
}

/// Try to read one leading identifier that is not a reserved keyword.
/// Anything else, including a keyword or a missing token, matches nothing
/// and consumes nothing.
pub fn maybe_id(lexer: &mut Lexer) -> (r: Result<Option<Identifier>, ParseError>)
    requires
        old(lexer).wf(),
    ensures
        final(lexer).wf(),
        match (r, crate::grammar::maybe_id_model(old(lexer)@)) {
            (Ok(id), Ok((sid, m2))) => opt_view(id) == sid && final(lexer)@ == m2 && (id is Some
                ==> crate::grammar::lex_measure(m2) < crate::grammar::lex_measure(old(lexer)@)) && (
            id is None ==> m2 == old(lexer)@),
            (Err(e), Err(se)) => e@ == se,
            _ => false,
        },
{
    let ghost m0 = lexer@;
    match lexer.peek() {
        None => Ok(None),
        Some(token) => {
            let Token { location, lexeme } = token;
            match lexeme {
                Lexeme::Identifier(name) => {
                    if is_keyword(&name) {
                        Ok(None)
                    } else {
                        proof {
                            crate::scan::lemma_advance_measure(m0);
                        }
                        match lexer.advance_mut() {
                            Ok(_) => Ok(Some(Identifier::new(name, location))),
                            Err(e) => Err(e),
                        }
                    }
                },
                _ => Ok(None),
            }
        },
    }
}

/// Require the buffered token to be an identifier, and consume it; any
/// other token, or a missing one, is an error.
pub fn parse_identifier(lexer: &mut Lexer) -> (r: Result<Identifier, ParseError>)
    requires
        old(lexer).wf(),
    ensures
        final(lexer).wf(),
        match (r, crate::grammar::parse_identifier_model(old(lexer)@)) {
            (Ok(id), Ok((sid, m2))) => id@ == sid && final(lexer)@ == m2
                && crate::grammar::lex_measure(m2) < crate::grammar::lex_measure(old(lexer)@),
            (Err(e), Err(se)) => e@ == se,
            _ => false,
        },
{
    let ghost m0 = lexer@;
    match lexer.peek() {
        Some(token) => {
            let Token { location, lexeme } = token;
            match lexeme {
                Lexeme::Identifier(name) => {
                    proof {
                        crate::scan::lemma_advance_measure(m0);
                    }
                    match lexer.advance_mut() {
                        Ok(_) => Ok(Identifier::new(name, location)),
                        Err(e) => Err(e),
                    }
                },
                _ => {
                    let mut msg: Vec<char> = Vec::new();
                    crate::chars::append_str(&mut msg, "expected an identifier here");
                    proof {
                        assert(msg@ =~= crate::grammar::expected_identifier_msg());
                    }
                    Err(ParseError::error(lexer.location().clone(), msg))
                },
            }
        },
        None => {
            let mut msg: Vec<char> = Vec::new();
            crate::chars::append_str(&mut msg, "expected an identifier here");
            proof {
                assert(msg@ =~= crate::grammar::expected_identifier_msg());
            }
            Err(ParseError::error(lexer.location().clone(), msg))
        },
    }
}

/// Try to read one predicate, by lookahead on the buffered token: an
/// integer or string literal, an identifier (upper-case first letter: a
/// constructor pattern taking the following predicates; otherwise an
/// irrefutable binding), or a parenthesized tuple pattern. Other tokens
/// match nothing and consume nothing; a missing token is an error.
pub fn parse_predicate(lexer: &mut Lexer) -> (r: Result<Option<Predicate>, ParseError>)
    requires
        old(lexer).wf(),
    ensures
        final(lexer).wf(),
        match (r, crate::grammar::spec_parse_predicate(old(lexer)@)) {
            (Ok(p), Ok((sp, m2))) => opt_view(p) == sp && final(lexer)@ == m2 && (p is Some
                ==> crate::grammar::lex_measure(m2) < crate::grammar::lex_measure(old(lexer)@)) && (
            p is None ==> m2 == old(lexer)@),
            (Err(e), Err(se)) => e@ == se,
            _ => false,
        },
    decreases crate::grammar::lex_measure(lexer@), 0int,
{
    let ghost m0 = lexer@;
    match lexer.peek() {
        None => {
            let mut msg: Vec<char> = Vec::new();
            crate::chars::append_str(&mut msg, "missing token where a predicate was expected?");
            proof {
                assert(msg@ =~= crate::grammar::missing_predicate_msg());
            }
            Err(ParseError::error(lexer.location().clone(), msg))
        },
        Some(token) => {
            let Token { location, lexeme } = token;
            match lexeme {
                Lexeme::Signed(value) => {
                    proof {
                        crate::scan::lemma_advance_measure(m0);
                    }
                    match lexer.advance_mut() {
                        Ok(_) => Ok(Some(Predicate::Integer { location, value })),
                        Err(e) => Err(e),
                    }
                },
                Lexeme::QuotedString(value) => {
                    proof {
                        crate::scan::lemma_advance_measure(m0);
                    }
                    match lexer.advance_mut() {
                        Ok(_) => Ok(Some(Predicate::String { location, value })),
                        Err(e) => Err(e),
                    }
                },
                Lexeme::Identifier(name) => {
                    if name.len() > 0 && crate::chars::exec_is_upper_char(name[0]) {
                        proof {
                            crate::scan::lemma_advance_measure(m0);
                        }
                        match lexer.advance_mut() {
                            Err(e) => Err(e),
                            Ok(_) => {
                                let ctor_id = Identifier::new(name, location);
                                match parse_predicates(lexer) {
                                    Err(e) => Err(e),
                                    Ok(dims) => Ok(Some(Predicate::Ctor { ctor_id, dims })),
                                }
                            },
                        }
                    } else {
                        proof {
                            crate::scan::lemma_advance_measure(m0);
                        }
                        match lexer.advance_mut() {
                            Ok(_) => Ok(
                                Some(Predicate::Irrefutable(Identifier::new(name, location))),
                            ),
                            Err(e) => Err(e),
                        }
                    }
                },
                Lexeme::LParen => {
                    proof {
                        crate::scan::lemma_advance_measure(m0);
                    }
                    match lexer.advance_mut() {
                        Err(e) => Err(e),
                        Ok(_) => parse_tuple_predicate(location, lexer),
                    }
                },
                _ => Ok(None),
            }
        },
    }
}

/// Read every following predicate in order, stopping without error at the
/// first token that starts none.
pub fn parse_predicates(lexer: &mut Lexer) -> (r: Result<Vec<Predicate>, ParseError>)
    requires
        old(lexer).wf(),
    ensures
        final(lexer).wf(),
        match (r, crate::grammar::spec_parse_predicates_rest(Seq::empty(), old(lexer)@)) {
            (Ok(v), Ok((sv, m2))) => preds_view(v@) == sv && final(lexer)@ == m2
                && crate::grammar::lex_measure(m2) <= crate::grammar::lex_measure(old(lexer)@),
            (Err(e), Err(se)) => e@ == se,
            _ => false,
        },
    decreases crate::grammar::lex_measure(lexer@), 1int,
{
    let ghost m0 = lexer@;
    let mut predicates: Vec<Predicate> = Vec::new();
    proof {
        assert(preds_view(predicates@) =~= Seq::<SpecPredicate>::empty());
    }
    loop
        invariant
            lexer.wf(),
            crate::grammar::lex_measure(lexer@) <= crate::grammar::lex_measure(old(lexer)@),
            m0 == old(lexer)@,
            crate::grammar::spec_parse_predicates_rest(Seq::empty(), m0)
                == crate::grammar::spec_parse_predicates_rest(preds_view(predicates@), lexer@),
        decreases crate::grammar::lex_measure(lexer@),
    {
        let ghost m_i = lexer@;
        let ghost acc_i = preds_view(predicates@);
        match parse_predicate(lexer) {
            Err(e) => {
                return Err(e);
            },
            Ok(None) => {
                return Ok(predicates);
            },
            Ok(Some(p)) => {
                proof {
                    lemma_preds_view_push(predicates@, p);
                }
                predicates.push(p);
            },
        }
    }
}

/// Read the body of a parenthesized tuple pattern, after the opening
/// parenthesis: comma-separated predicates up to the closing parenthesis.
/// A single parenthesized predicate with no comma degenerates to that bare
/// predicate, not a one-element tuple.
pub fn parse_tuple_predicate(location: Location, lexer: &mut Lexer) -> (r: Result<
    Option<Predicate>,
    ParseError,
>)
    requires
        old(lexer).wf(),
    ensures
        final(lexer).wf(),
        match (
            r,
            crate::grammar::spec_parse_tuple_rest(location@, Seq::empty(), old(lexer)@),
        ) {
            (Ok(p), Ok((sp, m2))) => p is Some && opt_view(p) == sp && final(lexer)@ == m2
                && crate::grammar::lex_measure(m2) < crate::grammar::lex_measure(old(lexer)@),
            (Err(e), Err(se)) => e@ == se,
            _ => false,
        },
    decreases crate::grammar::lex_measure(lexer@), 1int,
{
    let ghost m0 = lexer@;
    let mut predicates: Vec<Predicate> = Vec::new();
    proof {
        assert(preds_view(predicates@) =~= Seq::<SpecPredicate>::empty());
    }
    loop
        invariant
            lexer.wf(),
            crate::grammar::lex_measure(lexer@) <= crate::grammar::lex_measure(old(lexer)@),
            m0 == old(lexer)@,
            crate::grammar::spec_parse_tuple_rest(location@, Seq::empty(), m0)
                == crate::grammar::spec_parse_tuple_rest(
                location@,
                preds_view(predicates@),
                lexer@,
            ),
        decreases crate::grammar::lex_measure(lexer@),
    {
        let ghost m_i = lexer@;
        match parse_predicate(lexer) {
            Err(e) => {
                return Err(e);
            },
            Ok(None) => {
                let ghost m2 = lexer@;
                proof {
                    crate::scan::lemma_chomp_measure(m2, SpecLexeme::RParen);
                }
                match lexer.chomp(Lexeme::RParen) {
                    Err(e) => {
                        return Err(e);
                    },
                    Ok(()) => {
                        return Ok(Some(Predicate::Tuple { location, dims: predicates }));
                    },
                }
            },
            Ok(Some(p)) => {
                let ghost m2 = lexer@;
                if lexer.peek_matches(Lexeme::Comma) {
                    proof {
                        crate::scan::lemma_advance_measure(m2);
                        lemma_preds_view_push(predicates@, p);
                    }
                    match lexer.advance_mut() {
                        Err(e) => {
                            return Err(e);
                        },
                        Ok(_) => {
                            predicates.push(p);
                        },
                    }
                } else {
                    proof {
                        crate::scan::lemma_chomp_measure(m2, SpecLexeme::RParen);
                    }
                    match lexer.chomp(Lexeme::RParen) {
                        Err(e) => {
                            return Err(e);
                        },
                        Ok(()) => {
                            proof {
                                lemma_preds_view(predicates@);
                            }
                            if predicates.len() == 0 {
                                return Ok(Some(p));
                            } else {
                                proof {
                                    lemma_preds_view_push(predicates@, p);
                                }
                                predicates.push(p);
                                return Ok(
                                    Some(Predicate::Tuple { location, dims: predicates }),
                                );
                            }
                        },
                    }
                }
            },
        }
    }
}

/// Try to read one call-site term, by lookahead on the buffered token: the
/// keyword `let` or `match` opens its expression; any other keyword, a
/// semicolon, a bare `=`, a closing parenthesis, or a missing token matches
/// nothing and consumes nothing; a plain identifier or an operator becomes
/// a symbol reference; a literal becomes a literal expression; an open
/// parenthesis wraps a whole call-site expression; anything else is an
/// "unimplemented construct" error.
pub fn parse_callsite_term(lexer: &mut Lexer) -> (r: Result<Option<Expr>, ParseError>)
    requires
        old(lexer).wf(),
    ensures
        final(lexer).wf(),
        match (r, crate::grammar::spec_parse_callsite_term(old(lexer)@)) {
            (Ok(p), Ok((sp, m2))) => opt_view(p) == sp && final(lexer)@ == m2 && (p is Some
                ==> crate::grammar::lex_measure(m2) < crate::grammar::lex_measure(old(lexer)@)) && (
            p is None ==> m2 == old(lexer)@),
            (Err(e), Err(se)) => e@ == se,
            _ => false,
        },
    decreases crate::grammar::lex_measure(lexer@), 0int,
{
    let ghost m0 = lexer@;
    match lexer.peek() {
        None => Ok(None),
        Some(token) => {
            let Token { location, lexeme } = token;
            match lexeme {
                Lexeme::Identifier(name) => {
                    if text_is(&name, "let") {
                        proof {
                            crate::scan::lemma_advance_measure(m0);
                        }
                        match lexer.advance_mut() {
                            Err(e) => Err(e),
                            Ok(loc) => parse_let_expr(loc, lexer),
                        }
                    } else if text_is(&name, "match") {
                        proof {
                            crate::scan::lemma_advance_measure(m0);
                        }
                        match lexer.advance_mut() {
                            Err(e) => Err(e),
                            Ok(loc) => parse_match_expr(loc, lexer),
                        }
                    } else if is_keyword(&name) {
                        Ok(None)
                    } else {
                        proof {
                            crate::scan::lemma_advance_measure(m0);
                        }
                        match lexer.advance_mut() {
                            Ok(_) => Ok(Some(Expr::Symbol { id: Identifier::new(name, location) })),
                            Err(e) => Err(e),
                        }
                    }
                },
                Lexeme::Semicolon => Ok(None),
                Lexeme::Operator(name) => {
                    let is_eq = name.len() == 1 && name[0] == '=';
                    proof {
                        if is_eq {
                            assert(name@ =~= seq!['=']);
                        }
                    }
                    if is_eq {
                        Ok(None)
                    } else {
                        proof {
                            crate::scan::lemma_advance_measure(m0);
                        }
                        match lexer.advance_mut() {
                            Ok(_) => Ok(Some(Expr::Symbol { id: Identifier::new(name, location) })),
                            Err(e) => Err(e),
                        }
                    }
                },
                Lexeme::LParen => {
                    proof {
                        crate::scan::lemma_advance_measure(m0);
                    }
                    match lexer.advance_mut() {
                        Err(e) => Err(e),
                        Ok(_) => {
                            match parse_callsite(lexer) {
                                Err(e) => Err(e),
                                Ok(expr) => {
                                    let ghost m3 = lexer@;
                                    proof {
                                        crate::scan::lemma_chomp_measure(m3, SpecLexeme::RParen);
                                    }
                                    match lexer.chomp(Lexeme::RParen) {
                                        Err(e) => Err(e),
                                        Ok(()) => Ok(Some(expr)),
                                    }
                                },
                            }
                        },
                    }
                },
                Lexeme::RParen => Ok(None),
                Lexeme::QuotedString(value) => {
                    proof {
                        crate::scan::lemma_advance_measure(m0);
                    }
                    match lexer.advance_mut() {
                        Ok(_) => Ok(Some(Expr::LiteralString { location, value })),
                        Err(e) => Err(e),
                    }
                },
                Lexeme::Signed(value) => {
                    proof {
                        crate::scan::lemma_advance_measure(m0);
                    }
                    match lexer.advance_mut() {
                        Ok(_) => Ok(Some(Expr::LiteralInteger { location, value })),
                        Err(e) => Err(e),
                    }
                },
                _ => {
                    let e = ParseError::not_impl(location);
                    proof {
                        assert(e@ =~= crate::scan::err_at(
                            e@.location,
                            crate::error::not_impl_msg(),
                        ));
                    }
                    Err(e)
                },
            }
        },
    }
}

/// Read every following call-site term in order as arguments, stopping
/// without error at the first token that starts none.
fn parse_callsite_args(lexer: &mut Lexer) -> (r: Result<Vec<Expr>, ParseError>)
    requires
        old(lexer).wf(),
    ensures
        final(lexer).wf(),
        match (r, crate::grammar::spec_parse_args_rest(Seq::empty(), old(lexer)@)) {
            (Ok(v), Ok((sv, m2))) => exprs_view(v@) == sv && final(lexer)@ == m2
                && crate::grammar::lex_measure(m2) <= crate::grammar::lex_measure(old(lexer)@),
            (Err(e), Err(se)) => e@ == se,
            _ => false,
        },
    decreases crate::grammar::lex_measure(lexer@), 1int,
{
    let ghost m0 = lexer@;
    let mut arguments: Vec<Expr> = Vec::new();
    proof {
        assert(exprs_view(arguments@) =~= Seq::<SpecExpr>::empty());
    }
    loop
        invariant
            lexer.wf(),
            crate::grammar::lex_measure(lexer@) <= crate::grammar::lex_measure(old(lexer)@),
            m0 == old(lexer)@,
            crate::grammar::spec_parse_args_rest(Seq::empty(), m0)
                == crate::grammar::spec_parse_args_rest(exprs_view(arguments@), lexer@),
        decreases crate::grammar::lex_measure(lexer@),
    {
        match parse_callsite_term(lexer) {
            Err(e) => {
                return Err(e);
            },
            Ok(None) => {
                return Ok(arguments);
            },
            Ok(Some(a)) => {
                proof {
                    lemma_exprs_view_push(arguments@, a);
                }
                arguments.push(a);
            },
        }
    }
}

/// Read one call-site expression: skip leading semicolons, require one
/// leading term, and greedily take every following term as an argument.
/// Zero arguments collapse to the bare function expression, never a
/// zero-argument call site.
pub fn parse_callsite(lexer: &mut Lexer) -> (r: Result<Expr, ParseError>)
    requires
        old(lexer).wf(),
    ensures
        final(lexer).wf(),
        match (r, crate::grammar::spec_parse_callsite(old(lexer)@)) {
            (Ok(e), Ok((se, m2))) => e@ == se && final(lexer)@ == m2
                && crate::grammar::lex_measure(m2) < crate::grammar::lex_measure(old(lexer)@),
            (Err(e), Err(se)) => e@ == se,
            _ => false,
        },
    decreases crate::grammar::lex_measure(lexer@), 2int,
{
    let ghost m0 = lexer@;
    proof {
        crate::scan::lemma_skip_semicolon_measure(m0);
    }
    match lexer.skip_semicolon() {
        Err(e) => {
            return Err(e);
        },
        Ok(()) => {},
    }
    let ghost m1 = lexer@;
    match parse_callsite_term(lexer) {
        Err(e) => Err(e),
        Ok(None) => {
            let mut msg: Vec<char> = Vec::new();
            crate::chars::append_str(&mut msg, "missing function callsite expression");
            proof {
                assert(msg@ =~= crate::grammar::missing_callsite_msg());
            }
            Err(ParseError::error(lexer.location().clone(), msg))
        },
        Ok(Some(function)) => {
            match parse_callsite_args(lexer) {
                Err(e) => Err(e),
                Ok(arguments) => {
                    proof {
                        lemma_exprs_view(arguments@);
                    }
                    if arguments.len() == 0 {
                        Ok(function)
                    } else {
                        Ok(Expr::Callsite { function: Box::new(function), arguments })
                    }
                },
            }
        },
    }
}

/// Read a let expression, after the `let` keyword: an identifier, `=`, the
/// bound value, the keyword `in`, and the body.
pub fn parse_let_expr(location: Location, lexer: &mut Lexer) -> (r: Result<
    Option<Expr>,
    ParseError,
>)
    requires
        old(lexer).wf(),
    ensures
        final(lexer).wf(),
        match (r, crate::grammar::spec_parse_let_expr(location@, old(lexer)@)) {
            (Ok(p), Ok((sp, m2))) => p is Some && opt_view(p) == sp && final(lexer)@ == m2
                && crate::grammar::lex_measure(m2) < crate::grammar::lex_measure(old(lexer)@),
            (Err(e), Err(se)) => e@ == se,
            _ => false,
        },
    decreases crate::grammar::lex_measure(lexer@), 3int,
{
    let ghost m0 = lexer@;
    match parse_identifier(lexer) {
        Err(e) => {
            return Err(e);
        },
        Ok(binding) => {
            let ghost m1 = lexer@;
            proof {
                crate::scan::lemma_chomp_measure(m1, SpecLexeme::Operator(seq!['=']));
            }
            let eq_vec: Vec<char> = vec!['='];
            proof {
                assert(eq_vec@ =~= seq!['=']);
            }
            match lexer.chomp(Lexeme::Operator(eq_vec)) {
                Err(e) => {
                    return Err(e);
                },
                Ok(()) => {},
            }
            match parse_callsite(lexer) {
                Err(e) => {
                    return Err(e);
                },
                Ok(value) => {
                    let ghost m3 = lexer@;
                    proof {
                        crate::scan::lemma_chomp_measure(
                            m3,
                            SpecLexeme::Identifier(seq!['i', 'n']),
                        );
                    }
                    let in_vec: Vec<char> = vec!['i', 'n'];
                    proof {
                        assert(in_vec@ =~= seq!['i', 'n']);
                    }
                    match lexer.chomp(Lexeme::Identifier(in_vec)) {
                        Err(e) => {
                            return Err(e);
                        },
                        Ok(()) => {},
                    }
                    match parse_callsite(lexer) {
                        Err(e) => Err(e),
                        Ok(body) => Ok(
                            Some(
                                Expr::Let {
                                    location,
                                    binding,
                                    value: Box::new(value),
                                    body: Box::new(body),
                                },
                            ),
                        ),
                    }
                },
            }
        },
    }
}

/// Read the arms of a match expression: skip semicolons, and while a token
/// is buffered and starts a predicate, require `=>` and an arm body
/// expression. The arms end cleanly at the first token that starts no
/// predicate, or at the end of the input.
fn parse_match_arms(lexer: &mut Lexer) -> (r: Result<Vec<PatternExpr>, ParseError>)
    requires
        old(lexer).wf(),
    ensures
        final(lexer).wf(),
        match (r, crate::grammar::spec_parse_match_arms(Seq::empty(), old(lexer)@)) {
            (Ok(v), Ok((sv, m2))) => pattern_exprs_view(v@) == sv && final(lexer)@ == m2
                && crate::grammar::lex_measure(m2) <= crate::grammar::lex_measure(old(lexer)@),
            (Err(e), Err(se)) => e@ == se,
            _ => false,
        },
    decreases crate::grammar::lex_measure(lexer@), 3int,
{
    let ghost m0 = lexer@;
    let mut arms: Vec<PatternExpr> = Vec::new();
    proof {
        assert(pattern_exprs_view(arms@) =~= Seq::<SpecPatternExpr>::empty());
    }
    loop
        invariant
            lexer.wf(),
            crate::grammar::lex_measure(lexer@) <= crate::grammar::lex_measure(old(lexer)@),
            m0 == old(lexer)@,
            crate::grammar::spec_parse_match_arms(Seq::empty(), m0)
                == crate::grammar::spec_parse_match_arms(pattern_exprs_view(arms@), lexer@),
        decreases crate::grammar::lex_measure(lexer@),
    {
        let ghost m_i = lexer@;
        proof {
            crate::scan::lemma_skip_semicolon_measure(m_i);
        }
        match lexer.skip_semicolon() {
            Err(e) => {
                return Err(e);
            },
            Ok(()) => {},
        }
        if lexer.peek().is_none() {
            return Ok(arms);
        }
        match parse_predicate(lexer) {
            Err(e) => {
                return Err(e);
            },
            Ok(None) => {
                return Ok(arms);
            },
            Ok(Some(predicate)) => {
                let ghost m2 = lexer@;
                proof {
                    crate::scan::lemma_chomp_measure(m2, SpecLexeme::Operator(seq!['=', '>']));
                }
                let arrow_vec: Vec<char> = vec!['=', '>'];
                proof {
                    assert(arrow_vec@ =~= seq!['=', '>']);
                }
                match lexer.chomp(Lexeme::Operator(arrow_vec)) {
                    Err(e) => {
                        return Err(e);
                    },
                    Ok(()) => {},
                }
                match parse_callsite(lexer) {
                    Err(e) => {
                        return Err(e);
                    },
                    Ok(expr) => {
                        let arm = PatternExpr { predicate, expr };
                        proof {
                            lemma_pattern_exprs_view_push(arms@, arm);
                        }
                        arms.push(arm);
                    },
                }
            },
        }
    }
}

/// Read a match expression, after the `match` keyword: the subject
/// call-site expression, then the arms.
pub fn parse_match_expr(location: Location, lexer: &mut Lexer) -> (r: Result<
    Option<Expr>,
    ParseError,
>)
    requires
        old(lexer).wf(),
    ensures
        final(lexer).wf(),
        match (r, crate::grammar::spec_parse_match_expr(location@, old(lexer)@)) {
            (Ok(p), Ok((sp, m2))) => p is Some && opt_view(p) == sp && final(lexer)@ == m2
                && crate::grammar::lex_measure(m2) < crate::grammar::lex_measure(old(lexer)@),
            (Err(e), Err(se)) => e@ == se,
            _ => false,
        },
    decreases crate::grammar::lex_measure(lexer@), 4int,
{
    let ghost m0 = lexer@;
    match parse_callsite(lexer) {
        Err(e) => Err(e),
        Ok(subject) => {
            match parse_match_arms(lexer) {
                Err(e) => Err(e),
                Ok(arms) => Ok(
                    Some(
                        Expr::Match {
                            location,
                            subject: Box::new(subject),
                            pattern_exprs: arms,
                        },
                    ),
                ),
            }
        },
    }
}

/// Try to read one declaration: an optional leading non-keyword identifier
/// (no identifier: no declaration, nothing consumed), the parameter
/// predicates, `=`, and one call-site expression as the body.
pub fn parse_decl(lexer: &mut Lexer) -> (r: Result<Option<Decl>, ParseError>)
    requires
        old(lexer).wf(),
    ensures
        final(lexer).wf(),
        match (r, crate::grammar::spec_parse_decl(old(lexer)@)) {
            (Ok(d), Ok((sd, m2))) => opt_view(d) == sd && final(lexer)@ == m2 && (d is Some
                ==> crate::grammar::lex_measure(m2) < crate::grammar::lex_measure(old(lexer)@)) && (
            d is None ==> m2 == old(lexer)@),
            (Err(e), Err(se)) => e@ == se,
            _ => false,
        },
{
    match maybe_id(lexer) {
        Err(e) => Err(e),
        Ok(None) => Ok(None),
        Ok(Some(id)) => {
            match parse_predicates(lexer) {
                Err(e) => Err(e),
                Ok(predicates) => {
                    let ghost m2 = lexer@;
                    proof {
                        crate::scan::lemma_chomp_measure(m2, SpecLexeme::Operator(seq!['=']));
                    }
                    let eq_vec: Vec<char> = vec!['='];
                    proof {
                        assert(eq_vec@ =~= seq!['=']);
                    }
                    match lexer.chomp(Lexeme::Operator(eq_vec)) {
                        Err(e) => Err(e),
                        Ok(()) => {
                            match parse_callsite(lexer) {
                                Err(e) => Err(e),
                                Ok(body) => Ok(Some(Decl { id, predicates, body })),
                            }
                        },
                    }
                },
            }
        },
    }
}

/// Read every declaration in order, semicolons between declarations
/// skipped, ending without error at the first position where none begins.
pub fn parse_many(lexer: &mut Lexer) -> (r: Result<Vec<Decl>, ParseError>)
    requires
        old(lexer).wf(),
    ensures
        final(lexer).wf(),
        match (r, crate::grammar::spec_parse_many_rest(Seq::empty(), old(lexer)@)) {
            (Ok(v), Ok((sv, m2))) => decls_view(v@) == sv && final(lexer)@ == m2,
            (Err(e), Err(se)) => e@ == se,
            _ => false,
        },
{
    let ghost m0 = lexer@;
    let mut decls: Vec<Decl> = Vec::new();
    proof {
        assert(decls_view(decls@) =~= Seq::<SpecDecl>::empty());
    }
    loop
        invariant
            lexer.wf(),
            m0 == old(lexer)@,
            crate::grammar::spec_parse_many_rest(Seq::empty(), m0)
                == crate::grammar::spec_parse_many_rest(decls_view(decls@), lexer@),
        decreases crate::grammar::lex_measure(lexer@),
    {
        let ghost m_i = lexer@;
        proof {
            crate::scan::lemma_skip_semicolon_measure(m_i);
        }
        match lexer.skip_semicolon() {
            Err(e) => {
                return Err(e);
            },
            Ok(()) => {},
        }
        match parse_decl(lexer) {
            Err(e) => {
                return Err(e);
            },
            Ok(None) => {
                return Ok(decls);
            },
            Ok(Some(d)) => {
                proof {
                    lemma_decls_view_push(decls@, d);
                }
                decls.push(d);
            },
        }
    }
}

/// Lex and parse a whole input under a filename label, yielding the
/// declarations in source order, or the first error anywhere in lexing or
/// parsing.
pub fn compile(filename: Vec<char>, input: Vec<char>) -> (r: Result<Vec<Decl>, ParseError>)
    requires
        input@.len() < usize::MAX as int,
    ensures
        match (r, crate::grammar::compile_model(filename@, input@)) {
            (Ok(v), Ok(sv)) => decls_view(v@) == sv,
            (Err(e), Err(se)) => e@ == se,
            _ => false,
        },
{
    let mut lexer = Lexer::new(filename, input);
    match lexer.advance_mut() {
        Err(e) => Err(e),
        Ok(_) => parse_many(&mut lexer),
    }
}

/// Whether `v` holds exactly the characters of `s`.
fn text_is(v: &Vec<char>, s: &str) -> (r: bool)
    ensures
        r == (v@ == s@),
{
    let n = vstd::string::StrSliceExecFns::unicode_len(s);
    if v.len() != n {
        proof {
            assert(v@ != s@);
        }
        return false;
    }
    let mut i: usize = 0;
    while i < n
        invariant
            i <= n,
            n == s@.len(),
            v@.len() == n,
            forall|j: int| 0 <= j < i ==> v@[j] == s@[j],
        decreases n - i,
    {
        if v[i] != vstd::string::StrSliceExecFns::get_char(s, i) {
            return false;
        }
        i += 1;
    }
    proof {
        assert(v@ =~= s@);
    }
    true
}

} // verus!
