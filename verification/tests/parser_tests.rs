use mueve::lexer::{Lexeme, Lexer};
use mueve::parser::{compile, parse_callsite, parse_decl, Decl, Expr, Predicate};

fn cs(s: &str) -> Vec<char> {
    s.chars().collect()
}

fn text(v: Vec<char>) -> String {
    v.iter().collect()
}

fn parse(input: &str) -> Result<Vec<Decl>, String> {
    compile(cs("test"), cs(input)).map_err(|e| text(e.render()))
}

fn started_lexer(input: &str) -> Lexer {
    let mut lexer = Lexer::new(cs("test"), cs(input));
    lexer.advance_mut().unwrap();
    lexer
}

#[test]
fn decl_with_irrefutable_predicate() {
    let decls = parse("f x = x").unwrap();
    assert_eq!(decls.len(), 1);
    let d = &decls[0];
    assert_eq!(d.id.name, cs("f"));
    assert_eq!(d.predicates.len(), 1);
    match &d.predicates[0] {
        Predicate::Irrefutable(id) => assert_eq!(id.name, cs("x")),
        _ => panic!("expected an irrefutable predicate"),
    }
    match &d.body {
        Expr::Symbol { id } => assert_eq!(id.name, cs("x")),
        _ => panic!("expected a symbol body"),
    }
}

#[test]
fn callsite_with_arguments() {
    let mut lexer = started_lexer("f x y");
    let body = parse_callsite(&mut lexer).unwrap();
    match body {
        Expr::Callsite {
            function,
            arguments,
        } => {
            match *function {
                Expr::Symbol { ref id } => assert_eq!(id.name, cs("f")),
                _ => panic!("expected a symbol function"),
            }
            assert_eq!(arguments.len(), 2);
            match &arguments[0] {
                Expr::Symbol { id } => assert_eq!(id.name, cs("x")),
                _ => panic!("expected a symbol argument"),
            }
            match &arguments[1] {
                Expr::Symbol { id } => assert_eq!(id.name, cs("y")),
                _ => panic!("expected a symbol argument"),
            }
        }
        _ => panic!("expected a call site"),
    }
}

#[test]
fn bare_function_is_not_a_callsite() {
    let mut lexer = started_lexer("f");
    let body = parse_callsite(&mut lexer).unwrap();
    match body {
        Expr::Symbol { id } => assert_eq!(id.name, cs("f")),
        _ => panic!("zero arguments must collapse to the bare symbol"),
    }
}

#[test]
fn let_expression() {
    let decls = parse("g = let x = 1 in x").unwrap();
    assert_eq!(decls.len(), 1);
    match &decls[0].body {
        Expr::Let {
            binding,
            value,
            body,
            ..
        } => {
            assert_eq!(binding.name, cs("x"));
            match **value {
                Expr::LiteralInteger { value: v, .. } => assert_eq!(v, 1),
                _ => panic!("expected an integer value"),
            }
            match **body {
                Expr::Symbol { ref id } => assert_eq!(id.name, cs("x")),
                _ => panic!("expected a symbol body"),
            }
        }
        _ => panic!("expected a let body"),
    }
}

#[test]
fn parenthesized_single_predicate_degenerates() {
    let decls = parse("f (x) = x").unwrap();
    assert_eq!(decls[0].predicates.len(), 1);
    match &decls[0].predicates[0] {
        Predicate::Irrefutable(id) => assert_eq!(id.name, cs("x")),
        _ => panic!("a single parenthesized predicate must stay bare"),
    }
}

#[test]
fn comma_separated_predicates_make_a_tuple() {
    let decls = parse("f (x, y) = x").unwrap();
    assert_eq!(decls[0].predicates.len(), 1);
    match &decls[0].predicates[0] {
        Predicate::Tuple { dims, .. } => {
            assert_eq!(dims.len(), 2);
            match &dims[0] {
                Predicate::Irrefutable(id) => assert_eq!(id.name, cs("x")),
                _ => panic!("expected an irrefutable element"),
            }
            match &dims[1] {
                Predicate::Irrefutable(id) => assert_eq!(id.name, cs("y")),
                _ => panic!("expected an irrefutable element"),
            }
        }
        _ => panic!("expected a tuple predicate"),
    }
}

#[test]
fn empty_parentheses_make_an_empty_tuple() {
    let decls = parse("f () = x").unwrap();
    assert_eq!(decls[0].predicates.len(), 1);
    match &decls[0].predicates[0] {
        Predicate::Tuple { dims, .. } => assert_eq!(dims.len(), 0),
        _ => panic!("expected a tuple predicate"),
    }
}

#[test]
fn capitalized_identifier_is_a_constructor_pattern() {
    let decls = parse("f Some x = 1").unwrap();
    assert_eq!(decls[0].predicates.len(), 1);
    match &decls[0].predicates[0] {
        Predicate::Ctor { ctor_id, dims } => {
            assert_eq!(ctor_id.name, cs("Some"));
            assert_eq!(dims.len(), 1);
            match &dims[0] {
                Predicate::Irrefutable(id) => assert_eq!(id.name, cs("x")),
                _ => panic!("expected an irrefutable sub-pattern"),
            }
        }
        _ => panic!("expected a constructor predicate"),
    }
}

#[test]
fn literal_predicates() {
    let decls = parse("f 1 \"s\" = x").unwrap();
    assert_eq!(decls[0].predicates.len(), 2);
    match &decls[0].predicates[0] {
        Predicate::Integer { value, .. } => assert_eq!(*value, 1),
        _ => panic!("expected an integer predicate"),
    }
    match &decls[0].predicates[1] {
        Predicate::String { value, .. } => assert_eq!(*value, cs("\"s\"")),
        _ => panic!("expected a string predicate"),
    }
}

#[test]
fn multiple_declarations_parse_in_order() {
    let decls = parse("f = x\ng = y").unwrap();
    assert_eq!(decls.len(), 2);
    assert_eq!(decls[0].id.name, cs("f"));
    assert_eq!(decls[1].id.name, cs("g"));
}

#[test]
fn match_expression_collects_arms() {
    let decls = parse("m = match x; 1 => y; 2 => z").unwrap();
    assert_eq!(decls.len(), 1);
    match &decls[0].body {
        Expr::Match {
            subject,
            pattern_exprs,
            ..
        } => {
            match **subject {
                Expr::Symbol { ref id } => assert_eq!(id.name, cs("x")),
                _ => panic!("expected a symbol subject"),
            }
            assert_eq!(pattern_exprs.len(), 2);
            match &pattern_exprs[0].predicate {
                Predicate::Integer { value, .. } => assert_eq!(*value, 1),
                _ => panic!("expected an integer arm pattern"),
            }
            match &pattern_exprs[0].expr {
                Expr::Symbol { id } => assert_eq!(id.name, cs("y")),
                _ => panic!("expected a symbol arm body"),
            }
            match &pattern_exprs[1].predicate {
                Predicate::Integer { value, .. } => assert_eq!(*value, 2),
                _ => panic!("expected an integer arm pattern"),
            }
        }
        _ => panic!("expected a match body"),
    }
}

#[test]
fn operator_is_a_first_class_symbol() {
    let decls = parse("f = + 1 2").unwrap();
    match &decls[0].body {
        Expr::Callsite { function, .. } => match **function {
            Expr::Symbol { ref id } => assert_eq!(id.name, cs("+")),
            _ => panic!("expected an operator symbol"),
        },
        _ => panic!("expected a call site"),
    }
}

#[test]
fn string_literal_expression_keeps_quotes() {
    let decls = parse("f = \"hi\"").unwrap();
    match &decls[0].body {
        Expr::LiteralString { value, .. } => assert_eq!(*value, cs("\"hi\"")),
        _ => panic!("expected a string literal body"),
    }
}

#[test]
fn missing_body_reports_missing_callsite() {
    let err = parse("f =").unwrap_err();
    assert_eq!(err, "test:1:3: error: missing function callsite expression");
}

#[test]
fn missing_token_in_predicates_reports_error() {
    let err = parse("f x").unwrap_err();
    assert_eq!(
        err,
        "test:1:3: error: missing token where a predicate was expected?"
    );
}

#[test]
fn unhandled_lexeme_reports_not_implemented() {
    let err = parse("f = ,").unwrap_err();
    assert_eq!(err, "test:1:4: error: parsing this is not implemented");
}

#[test]
fn let_without_identifier_reports_error() {
    let err = parse("f = let 1 = 2 in x").unwrap_err();
    assert!(err.contains("error: expected an identifier here"), "{}", err);
}

#[test]
fn let_missing_equals_reports_unexpected_token() {
    let err = parse("g = let x 5").unwrap_err();
    assert_eq!(
        err,
        "test:1:10: error: unexpected token (Signed(5)) found. expected Operator(=)"
    );
}

#[test]
fn unclosed_parenthesis_reports_eof() {
    let err = parse("f = (x").unwrap_err();
    assert_eq!(err, "test:1:6: error: hit EOF but expected RParen");
}

#[test]
fn keyword_cannot_start_a_declaration() {
    let decls = parse("let = 5").unwrap();
    assert_eq!(decls.len(), 0);
}

#[test]
fn parse_decl_leaves_lexer_alone_on_no_match() {
    let mut lexer = started_lexer("= x");
    let r = parse_decl(&mut lexer).unwrap();
    assert!(r.is_none());
    assert!(lexer.peek_matches(Lexeme::Operator(cs("="))));
}

#[test]
fn nested_parentheses_group_subexpressions() {
    let decls = parse("f = g (h x) y").unwrap();
    match &decls[0].body {
        Expr::Callsite { arguments, .. } => {
            assert_eq!(arguments.len(), 2);
            match &arguments[0] {
                Expr::Callsite { function, arguments } => {
                    match **function {
                        Expr::Symbol { ref id } => assert_eq!(id.name, cs("h")),
                        _ => panic!("expected h"),
                    }
                    assert_eq!(arguments.len(), 1);
                }
                _ => panic!("expected a nested call site"),
            }
        }
        _ => panic!("expected a call site"),
    }
}
