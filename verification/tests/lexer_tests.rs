use esh::lexer::Lexer;
use esh::lexer::TextSpan;
use esh::lexer::token::lookup_identifier;
use esh::lexer::token::Token;
use esh::lexer::token::TokenKind;

/// Scans the whole input, returning every token up to and including the
/// terminal end-of-input token.
fn scan_all(input: &str) -> Vec<(TokenKind, String)> {
    let mut lexer = Lexer::new(input);
    let mut out: Vec<(TokenKind, String)> = Vec::new();
    loop {
        let token = lexer.next_token();
        let kind = token.kind();
        let done = kind == TokenKind::Eof;
        out.push((kind, token.literal().to_string()));
        if done {
            break;
        }
    }
    out
}

fn kinds_of(input: &str) -> Vec<TokenKind> {
    scan_all(input).into_iter().map(|(k, _)| k).collect()
}

#[test]
fn test_next_token() {
    let source = r#"
            let five = 5;
        "#;

    let mut lexer = Lexer::new(source);

    let test_cases = vec![
        (TokenKind::Let, "let".to_string()),
        (TokenKind::Identifier("five".to_string()), "five".to_string()),
        (TokenKind::Assign, "=".to_string()),
        (TokenKind::Number("5".to_string()), "5".to_string()),
        (TokenKind::Semicolon, ";".to_string()),
    ];

    for (expected_kind, expected_literal) in test_cases {
        let token = lexer.next_token();
        assert_eq!(expected_kind, token.kind());
        assert_eq!(expected_literal, token.literal().to_string())
    }
}

#[test]
fn test_lookup_identifier() {
    let test_cases = vec![
        ("fn", TokenKind::Function),
        ("let", TokenKind::Let),
        ("true", TokenKind::True),
        ("false", TokenKind::False),
        ("if", TokenKind::If),
        ("else", TokenKind::Else),
        ("return", TokenKind::Return),
    ];

    for (identifier, expected) in test_cases {
        let kind = lookup_identifier(identifier);
        assert_eq!(kind, expected);
    }
}

#[test]
fn lookup_non_keyword_is_identifier() {
    assert_eq!(
        lookup_identifier("letter"),
        TokenKind::Identifier("letter".to_string())
    );
    assert_eq!(
        lookup_identifier("Let"),
        TokenKind::Identifier("Let".to_string())
    );
    assert_eq!(
        lookup_identifier(""),
        TokenKind::Identifier("".to_string())
    );
}

#[test]
fn repeated_calls_past_exhaustion_stay_eof() {
    let mut lexer = Lexer::new("x");
    assert_eq!(lexer.next_token().kind(), TokenKind::Identifier("x".to_string()));
    for _ in 0..5 {
        let token = lexer.next_token();
        assert_eq!(token.kind(), TokenKind::Eof);
        assert_eq!(token.literal(), "Eof");
    }
}

#[test]
fn single_char_operators_map_directly() {
    let table = vec![
        ("+", TokenKind::Plus),
        ("-", TokenKind::Minus),
        ("*", TokenKind::Asterisk),
        ("/", TokenKind::Slash),
        ("<", TokenKind::LessThan),
        (">", TokenKind::GreaterThan),
        (";", TokenKind::Semicolon),
        (",", TokenKind::Comma),
        ("(", TokenKind::LParen),
        (")", TokenKind::RParen),
        ("{", TokenKind::LBrace),
        ("}", TokenKind::RBrace),
    ];
    for (input, expected) in table {
        let mut lexer = Lexer::new(input);
        let token = lexer.next_token();
        assert_eq!(token.kind(), expected);
        assert_eq!(token.literal(), input);
        assert_eq!(lexer.next_token().kind(), TokenKind::Eof);
    }
}

#[test]
fn two_char_operators_need_adjacent_chars() {
    assert_eq!(kinds_of("=="), vec![TokenKind::Equal, TokenKind::Eof]);
    assert_eq!(kinds_of("!="), vec![TokenKind::NotEqual, TokenKind::Eof]);
    assert_eq!(kinds_of("="), vec![TokenKind::Assign, TokenKind::Eof]);
    assert_eq!(kinds_of("!"), vec![TokenKind::Bang, TokenKind::Eof]);
    assert_eq!(
        kinds_of("=a"),
        vec![
            TokenKind::Assign,
            TokenKind::Identifier("a".to_string()),
            TokenKind::Eof
        ]
    );
    assert_eq!(
        kinds_of("!a"),
        vec![
            TokenKind::Bang,
            TokenKind::Identifier("a".to_string()),
            TokenKind::Eof
        ]
    );
    // A space between the two characters breaks the two-character form.
    assert_eq!(
        kinds_of("= ="),
        vec![TokenKind::Assign, TokenKind::Assign, TokenKind::Eof]
    );
    assert_eq!(
        kinds_of("! ="),
        vec![TokenKind::Bang, TokenKind::Assign, TokenKind::Eof]
    );
}

#[test]
fn maximal_munch_keeps_word_whole() {
    let tokens = scan_all("foobar123");
    assert_eq!(tokens.len(), 2);
    assert_eq!(
        tokens[0].0,
        TokenKind::Identifier("foobar123".to_string())
    );
    assert_eq!(tokens[0].1, "foobar123");
    assert_eq!(tokens[1].0, TokenKind::Eof);
}

#[test]
fn keyword_needs_exact_match() {
    assert_eq!(
        kinds_of("iffy"),
        vec![TokenKind::Identifier("iffy".to_string()), TokenKind::Eof]
    );
    assert_eq!(kinds_of("if"), vec![TokenKind::If, TokenKind::Eof]);
}

#[test]
fn whitespace_never_changes_the_tokens() {
    let plain = kinds_of("let x=1;");
    let spaced = kinds_of(" \t\r\n let \n x \t = 1 ; \n");
    assert_eq!(plain, spaced);
    assert_eq!(
        plain,
        vec![
            TokenKind::Let,
            TokenKind::Identifier("x".to_string()),
            TokenKind::Assign,
            TokenKind::Number("1".to_string()),
            TokenKind::Semicolon,
            TokenKind::Eof
        ]
    );
}

#[test]
fn unicode_whitespace_is_skipped() {
    // No-break space and ideographic space count as whitespace too.
    assert_eq!(
        kinds_of("\u{00A0}x\u{3000}y"),
        vec![
            TokenKind::Identifier("x".to_string()),
            TokenKind::Identifier("y".to_string()),
            TokenKind::Eof
        ]
    );
}

#[test]
fn scenario_let_five() {
    let tokens = scan_all("let five = 5;");
    let kinds: Vec<TokenKind> = tokens.iter().map(|(k, _)| k.clone()).collect();
    assert_eq!(
        kinds,
        vec![
            TokenKind::Let,
            TokenKind::Identifier("five".to_string()),
            TokenKind::Assign,
            TokenKind::Number("5".to_string()),
            TokenKind::Semicolon,
            TokenKind::Eof
        ]
    );
    // The number lexeme reads as the value 5.0.
    assert_eq!(tokens[3].1.parse::<f64>().unwrap(), 5.0);
}

#[test]
fn scenario_not_equal_ten() {
    let tokens = scan_all("x != 10");
    let kinds: Vec<TokenKind> = tokens.iter().map(|(k, _)| k.clone()).collect();
    assert_eq!(
        kinds,
        vec![
            TokenKind::Identifier("x".to_string()),
            TokenKind::NotEqual,
            TokenKind::Number("10".to_string()),
            TokenKind::Eof
        ]
    );
    assert_eq!(tokens[2].1.parse::<f64>().unwrap(), 10.0);
}

#[test]
fn scenario_unrecognized_char() {
    let tokens = scan_all("@");
    assert_eq!(tokens.len(), 2);
    assert_eq!(tokens[0].0, TokenKind::Illegal);
    assert_eq!(tokens[0].1, "Illegal");
    assert_eq!(tokens[1].0, TokenKind::Eof);
}

#[test]
fn scenario_empty_input() {
    let tokens = scan_all("");
    assert_eq!(tokens.len(), 1);
    assert_eq!(tokens[0].0, TokenKind::Eof);
    assert_eq!(tokens[0].1, "Eof");
}

#[test]
fn whitespace_only_input_is_just_eof() {
    assert_eq!(kinds_of(" \t\n\r "), vec![TokenKind::Eof]);
}

#[test]
fn malformed_numeral_is_one_lexeme() {
    let tokens = scan_all("1.2.3");
    assert_eq!(tokens.len(), 2);
    assert_eq!(tokens[0].0, TokenKind::Number("1.2.3".to_string()));
    assert_eq!(tokens[0].1, "1.2.3");
    // The lexeme does not parse as a number; a consumer substituting on
    // failure reads it as 0.0.
    assert_eq!(tokens[0].1.parse::<f64>().unwrap_or(0.0), 0.0);
}

#[test]
fn number_stops_before_letter() {
    assert_eq!(
        kinds_of("9a"),
        vec![
            TokenKind::Number("9".to_string()),
            TokenKind::Identifier("a".to_string()),
            TokenKind::Eof
        ]
    );
}

#[test]
fn dot_does_not_start_a_number() {
    assert_eq!(
        kinds_of(".5"),
        vec![
            TokenKind::Illegal,
            TokenKind::Number("5".to_string()),
            TokenKind::Eof
        ]
    );
}

#[test]
fn underscore_starts_a_word() {
    assert_eq!(
        kinds_of("_foo_1"),
        vec![TokenKind::Identifier("_foo_1".to_string()), TokenKind::Eof]
    );
}

#[test]
fn keyword_literal_is_matched_text() {
    let mut lexer = Lexer::new("fn");
    let token = lexer.next_token();
    assert_eq!(token.kind(), TokenKind::Function);
    assert_eq!(token.literal(), "fn");
}

#[test]
fn token_new_renders_kind() {
    let token = Token::new(TokenKind::Equal);
    assert_eq!(token.kind(), TokenKind::Equal);
    assert_eq!(token.literal(), "==");
    let token = Token::new(TokenKind::Identifier("abc".to_string()));
    assert_eq!(token.literal(), "abc");
    assert_eq!(TokenKind::Return.to_string(), "return");
    assert_eq!(TokenKind::Illegal.to_string(), "Illegal");
}

#[test]
fn cursor_primitives_walk_the_input() {
    let mut lexer = Lexer::new("ab");
    assert_eq!(lexer.current_char(), Some('a'));
    assert_eq!(lexer.peek_char(), Some('b'));
    lexer.advance();
    assert_eq!(lexer.current_char(), Some('b'));
    assert_eq!(lexer.peek_char(), None);
    lexer.advance();
    assert_eq!(lexer.current_char(), None);
    lexer.advance();
    assert_eq!(lexer.current_char(), None);
}

#[test]
fn read_identifier_consumes_word_chars() {
    let mut lexer = Lexer::new("abc1 rest");
    let word = lexer.read_identifier();
    assert_eq!(word, "abc1");
    assert_eq!(lexer.current_char(), Some(' '));
}

#[test]
fn read_number_consumes_digits_and_dots() {
    let mut lexer = Lexer::new("12.5x");
    let lexeme = lexer.read_number();
    assert_eq!(lexeme, "12.5");
    assert_eq!(lexer.current_char(), Some('x'));
}

#[test]
fn skip_whitespace_stops_at_significant_char() {
    let mut lexer = Lexer::new("   x");
    lexer.skip_whitespace();
    assert_eq!(lexer.current_char(), Some('x'));
}

#[test]
fn text_span_covers_its_range() {
    let span = TextSpan::new(1, 4);
    assert_eq!(span.length(), 3);
    assert_eq!(span.to_string("hello"), "ell");
    let empty = TextSpan::new(2, 2);
    assert_eq!(empty.length(), 0);
    assert_eq!(empty.to_string("hello"), "");
}
