use mueve::error::ParseError;
use mueve::lexer::{describe_lexeme, render_lexeme_source, Lexeme, Lexer};
use mueve::location::Location;

fn cs(s: &str) -> Vec<char> {
    s.chars().collect()
}

fn text(v: Vec<char>) -> String {
    v.iter().collect()
}

fn lex_all(input: &str) -> Result<Vec<Lexeme>, ParseError> {
    let mut lexer = Lexer::new(cs("test"), cs(input));
    loop {
        lexer.advance_mut()?;
        match lexer.peek() {
            None => return Ok(Vec::new()),
            Some(t) => {
                let mut out = vec![t.lexeme];
                loop {
                    lexer.advance_mut()?;
                    match lexer.peek() {
                        None => return Ok(out),
                        Some(t2) => out.push(t2.lexeme),
                    }
                }
            }
        }
    }
}

#[test]
fn lex_some() {}

#[test]
fn single_punct_tokens() {
    let cases = vec![
        ("(", Lexeme::LParen),
        ("[", Lexeme::LSquare),
        ("{", Lexeme::LCurly),
        (";", Lexeme::Semicolon),
        (",", Lexeme::Comma),
    ];
    for (input, expected) in cases {
        let mut lexer = Lexer::new(cs("test"), cs(input));
        lexer.advance_mut().unwrap();
        let token = lexer.peek().unwrap();
        assert_eq!(token.lexeme, expected);
        assert_eq!(token.location.line, 1);
        assert_eq!(token.location.col, 0);
        lexer.advance_mut().unwrap();
        assert!(lexer.peek().is_none());
    }
}

#[test]
fn single_closer_fails() {
    for (input, kind) in vec![(")", "Paren"), ("]", "Square"), ("}", "Curly")] {
        let mut lexer = Lexer::new(cs("test"), cs(input));
        let err = lexer.advance_mut().unwrap_err();
        assert_eq!(
            text(err.render()),
            format!(
                "test:1:0: error: encountered a {} but we're not inside of any nested syntax",
                kind
            )
        );
    }
}

#[test]
fn mismatched_closer_fails() {
    let mut lexer = Lexer::new(cs("test"), cs("(((])))"));
    lexer.advance_mut().unwrap();
    lexer.advance_mut().unwrap();
    lexer.advance_mut().unwrap();
    let err = lexer.advance_mut().unwrap_err();
    assert_eq!(
        text(err.render()),
        "test:1:3: error: encountered a Square but expected to close a Paren from test:1:2"
    );
}

#[test]
fn balanced_brackets_lex_fully() {
    let lexemes = lex_all("([{}])").unwrap();
    assert_eq!(
        lexemes,
        vec![
            Lexeme::LParen,
            Lexeme::LSquare,
            Lexeme::LCurly,
            Lexeme::RCurly,
            Lexeme::RSquare,
            Lexeme::RParen,
        ]
    );
}

#[test]
fn newline_at_top_level_is_semicolon() {
    let lexemes = lex_all("a\nb").unwrap();
    assert_eq!(
        lexemes,
        vec![
            Lexeme::Identifier(cs("a")),
            Lexeme::Semicolon,
            Lexeme::Identifier(cs("b")),
        ]
    );
}

#[test]
fn newline_inside_brackets_is_whitespace() {
    let lexemes = lex_all("(a\nb)").unwrap();
    assert_eq!(
        lexemes,
        vec![
            Lexeme::LParen,
            Lexeme::Identifier(cs("a")),
            Lexeme::Identifier(cs("b")),
            Lexeme::RParen,
        ]
    );
}

#[test]
fn numeric_literals() {
    assert_eq!(lex_all("42").unwrap(), vec![Lexeme::Signed(42)]);
    assert_eq!(lex_all("-42").unwrap(), vec![Lexeme::Signed(-42)]);
    assert_eq!(lex_all("-").unwrap(), vec![Lexeme::Operator(cs("-"))]);
    assert_eq!(
        lex_all("9223372036854775807").unwrap(),
        vec![Lexeme::Signed(i64::MAX)]
    );
    assert_eq!(
        lex_all("-9223372036854775808").unwrap(),
        vec![Lexeme::Signed(i64::MIN)]
    );
}

#[test]
fn numeric_overflow_fails() {
    let err = lex_all("9223372036854775808").unwrap_err();
    assert_eq!(
        text(err.render()),
        "test:1:0: error: integer literal does not fit in a 64-bit signed value"
    );
    let err = lex_all("-9223372036854775809").unwrap_err();
    assert_eq!(
        text(err.render()),
        "test:1:0: error: integer literal does not fit in a 64-bit signed value"
    );
}

#[test]
fn quoted_string_keeps_delimiters() {
    let lexemes = lex_all("\"hello\"").unwrap();
    assert_eq!(lexemes, vec![Lexeme::QuotedString(cs("\"hello\""))]);
}

#[test]
fn unterminated_string_fails() {
    let err = lex_all("\"abc").unwrap_err();
    assert_eq!(
        text(err.render()),
        "test:1:0: error: input ended before the closing double-quote of a string"
    );
}

#[test]
fn unrecognized_character_fails() {
    let err = lex_all("#").unwrap_err();
    assert_eq!(
        text(err.render()),
        "test:1:0: error: could not figure out what to do with character (#)"
    );
}

#[test]
fn operators_lex_greedily() {
    assert_eq!(lex_all("=>").unwrap(), vec![Lexeme::Operator(cs("=>"))]);
    assert_eq!(
        lex_all("a => b").unwrap(),
        vec![
            Lexeme::Identifier(cs("a")),
            Lexeme::Operator(cs("=>")),
            Lexeme::Identifier(cs("b")),
        ]
    );
    assert_eq!(lex_all("-x").unwrap(), vec![
        Lexeme::Operator(cs("-")),
        Lexeme::Identifier(cs("x")),
    ]);
    assert_eq!(lex_all("->").unwrap(), vec![Lexeme::Operator(cs("->"))]);
}

#[test]
fn token_locations_track_columns_and_lines() {
    let mut lexer = Lexer::new(cs("test"), cs("f xy\nz"));
    lexer.advance_mut().unwrap();
    let t1 = lexer.peek().unwrap();
    assert_eq!((t1.location.line, t1.location.col), (1, 0));
    lexer.advance_mut().unwrap();
    let t2 = lexer.peek().unwrap();
    assert_eq!(t2.lexeme, Lexeme::Identifier(cs("xy")));
    assert_eq!((t2.location.line, t2.location.col), (1, 2));
    lexer.advance_mut().unwrap();
    let t3 = lexer.peek().unwrap();
    assert_eq!(t3.lexeme, Lexeme::Semicolon);
    lexer.advance_mut().unwrap();
    let t4 = lexer.peek().unwrap();
    assert_eq!(t4.lexeme, Lexeme::Identifier(cs("z")));
    assert_eq!((t4.location.line, t4.location.col), (2, 0));
}

#[test]
fn chomp_before_start_fails() {
    let mut lexer = Lexer::new(cs("test"), cs("x"));
    let err = lexer.chomp(Lexeme::Semicolon).unwrap_err();
    assert_eq!(text(err.render()), "test:1:0: error: lexer was not started!");
}

#[test]
fn chomp_at_eof_fails() {
    let mut lexer = Lexer::new(cs("test"), cs(""));
    lexer.advance_mut().unwrap();
    let err = lexer.chomp(Lexeme::Semicolon).unwrap_err();
    assert_eq!(
        text(err.render()),
        "test:1:0: error: hit EOF but expected Semicolon"
    );
}

#[test]
fn chomp_mismatch_names_both_sides() {
    let mut lexer = Lexer::new(cs("test"), cs("x"));
    lexer.advance_mut().unwrap();
    let err = lexer.chomp(Lexeme::Comma).unwrap_err();
    assert_eq!(
        text(err.render()),
        "test:1:0: error: unexpected token (Identifier(x)) found. expected Comma"
    );
}

#[test]
fn chomp_match_consumes() {
    let mut lexer = Lexer::new(cs("test"), cs("( x"));
    lexer.advance_mut().unwrap();
    lexer.chomp(Lexeme::LParen).unwrap();
    assert_eq!(lexer.peek().unwrap().lexeme, Lexeme::Identifier(cs("x")));
}

#[test]
fn peek_matches_checks_structurally() {
    let mut lexer = Lexer::new(cs("test"), cs("abc"));
    assert!(!lexer.peek_matches(Lexeme::Identifier(cs("abc"))));
    lexer.advance_mut().unwrap();
    assert!(lexer.peek_matches(Lexeme::Identifier(cs("abc"))));
    assert!(!lexer.peek_matches(Lexeme::Identifier(cs("abd"))));
    assert!(!lexer.peek_matches(Lexeme::Semicolon));
}

#[test]
fn skip_semicolon_stops_at_other_token() {
    let mut lexer = Lexer::new(cs("test"), cs(";;;x"));
    lexer.advance_mut().unwrap();
    lexer.skip_semicolon().unwrap();
    assert_eq!(lexer.peek().unwrap().lexeme, Lexeme::Identifier(cs("x")));
}

#[test]
fn relex_of_rendered_tokens_is_identity() {
    let inputs = vec![
        "f x = g 42 \"s\" (a, b)\nh = -1",
        "([{}]) ; , => . - -7",
        "f = let x = 1 in x",
    ];
    for input in inputs {
        let lexemes = lex_all(input).unwrap();
        let mut rendered: Vec<char> = Vec::new();
        for (i, l) in lexemes.iter().enumerate() {
            if i > 0 {
                rendered.push(' ');
            }
            rendered.extend(render_lexeme_source(l));
        }
        let rendered_text: String = rendered.iter().collect();
        let relexed = lex_all(&rendered_text).unwrap();
        assert_eq!(lexemes, relexed);
    }
}

#[test]
fn describe_lexeme_renders_kind_and_payload() {
    assert_eq!(text(describe_lexeme(&Lexeme::Signed(-5))), "Signed(-5)");
    assert_eq!(
        text(describe_lexeme(&Lexeme::Identifier(cs("ab")))),
        "Identifier(ab)"
    );
    assert_eq!(text(describe_lexeme(&Lexeme::Comma)), "Comma");
    assert_eq!(
        text(describe_lexeme(&Lexeme::Signed(i64::MIN))),
        "Signed(-9223372036854775808)"
    );
}

#[test]
fn location_renders_as_triple() {
    let loc = Location {
        filename: cs("input.mv"),
        line: 10,
        col: 42,
    };
    assert_eq!(text(loc.render()), "input.mv:10:42");
}
