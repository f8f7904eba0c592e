use psh_parser::lexer::{tokenize, Lexer};
use psh_parser::syntax::SyntaxKind;
use psh_parser::token_kind::TokenKind;

fn check(input: &str, kind: TokenKind) {
    let mut lexer = Lexer::new(input);

    let token = lexer.next().unwrap();
    assert_eq!((token.text, token.kind), (input, kind));
}

fn check_multiple(input: &str, kinds: &[TokenKind]) {
    let mut lexer = Lexer::new(input);
    let mut actual_text = String::new();
    let mut actual_kinds = Vec::new();
    while let Some(token) = lexer.next() {
        actual_text.push_str(token.text);
        actual_kinds.push(token.kind);
    }
    assert!(!actual_kinds.is_empty(), "lexer should have completed non-empty");

    assert_eq!((input.to_owned(), kinds), (actual_text, actual_kinds.as_slice()));
}

#[test]
fn lex_spaces_and_tabs_and_newlines() {
    check("  \t  \r \n ", TokenKind::Whitespace);
}

#[test]
fn lex_spaces() {
    check("   ", TokenKind::Whitespace);
}

#[test]
fn test_keywords() {
    let source = [
        ("else", TokenKind::ElseKw),
        ("if", TokenKind::IfKw),
        ("then", TokenKind::ThenKw),
    ];

    for (source, expected) in source {
        check(source, expected);
    }
}

#[test]
fn test_symbols() {
    let source = [
        ("(", TokenKind::LParen),
        (")", TokenKind::RParen),
        ("*", TokenKind::Star),
        ("+", TokenKind::Plus),
        (",", TokenKind::Comma),
        ("-", TokenKind::Minus),
        ("/", TokenKind::Slash),
        (":", TokenKind::Colon),
        ("::", TokenKind::DoubleColon),
        ("=", TokenKind::Equals),
        ("{", TokenKind::LBrace),
        ("|", TokenKind::Pipe),
        ("}", TokenKind::RBrace),
    ];

    for (source, expected) in source {
        check(source, expected);
    }
}

#[test]
fn test_non_ident_symbols() {
    let source: [(&str, Vec<TokenKind>); 2] = [
        ("<::>", vec![TokenKind::LAngle, TokenKind::DoubleColon, TokenKind::RAngle]),
        ("||", vec![TokenKind::Pipe, TokenKind::Pipe]),
    ];

    for (source, expected) in source {
        check_multiple(source, &expected);
    }
}

#[test]
fn character_identifiers() {
    let source = [
        ("ABCdef", TokenKind::Ident),
        ("Asdf", TokenKind::Ident),
        ("_Asdf", TokenKind::Ident),
        ("_asdf", TokenKind::Ident),
        ("ab123cde456", TokenKind::Ident),
        ("abcd", TokenKind::Ident),
        ("asdf", TokenKind::Ident),
        ("thingThing", TokenKind::Ident),
        ("thingThingThingThing", TokenKind::Ident),
        ("x", TokenKind::Ident),
    ];

    for (source, expected) in source {
        check(source, expected);
    }
}

#[test]
fn lex_integral() {
    check("123456", TokenKind::Integer);
}

#[test]
fn lex_fraction() {
    check("123456.123456", TokenKind::Fraction);
}

#[test]
fn lex_string() {
    check(r#""hello""#, TokenKind::String);
    check("'char'", TokenKind::String);
}

#[test]
fn lex_comment() {
    check("-- foo", TokenKind::Comment);
}

fn kinds_and_texts(input: &str) -> Vec<(TokenKind, String, u32, u32)> {
    tokenize(input)
        .into_iter()
        .map(|t| (t.kind, t.text.to_owned(), u32::from(t.range.start()), u32::from(t.range.end())))
        .collect()
}

fn kinds(input: &str) -> Vec<TokenKind> {
    tokenize(input).into_iter().map(|t| t.kind).collect()
}

#[test]
fn lex_let_keyword() {
    check("let", TokenKind::LetKw);
}

#[test]
fn keywords_never_lex_as_identifiers() {
    assert_eq!(
        kinds("let if then else"),
        vec![
            TokenKind::LetKw,
            TokenKind::Whitespace,
            TokenKind::IfKw,
            TokenKind::Whitespace,
            TokenKind::ThenKw,
            TokenKind::Whitespace,
            TokenKind::ElseKw,
        ]
    );
    assert_eq!(kinds("(let)"), vec![TokenKind::LParen, TokenKind::LetKw, TokenKind::RParen]);
    assert_eq!(kinds("1if"), vec![TokenKind::Integer, TokenKind::IfKw]);
}

#[test]
fn longer_words_are_identifiers() {
    check("lets", TokenKind::Ident);
    check("iff", TokenKind::Ident);
    assert_eq!(kinds("then_"), vec![TokenKind::ThenKw, TokenKind::Error]);
    check("else_if", TokenKind::Ident);
    check("_let", TokenKind::Ident);
    check("le", TokenKind::Ident);
}

#[test]
fn identifier_underscores() {
    check("a_b_c1", TokenKind::Ident);
    assert_eq!(kinds("a__b"), vec![TokenKind::Ident, TokenKind::Error, TokenKind::Ident]);
    assert_eq!(kinds("a_"), vec![TokenKind::Ident, TokenKind::Error]);
    assert_eq!(kinds("_"), vec![TokenKind::Error]);
    assert_eq!(kinds("_1"), vec![TokenKind::Error, TokenKind::Integer]);
    assert_eq!(kinds("a_1"), vec![TokenKind::Ident, TokenKind::Error, TokenKind::Integer]);
}

#[test]
fn numbers_and_dots() {
    assert_eq!(kinds("1."), vec![TokenKind::Integer, TokenKind::Error]);
    assert_eq!(kinds(".5"), vec![TokenKind::Error, TokenKind::Integer]);
    assert_eq!(kinds("1.2.3"), vec![TokenKind::Fraction, TokenKind::Error, TokenKind::Integer]);
}

#[test]
fn string_escapes() {
    check(r#""a\tb\nc\u\"d""#, TokenKind::String);
    check(r#"'it\"s'"#, TokenKind::String);
    check("\"two\nlines\"", TokenKind::String);
    check("\"héllo ✓\"", TokenKind::String);
}

#[test]
fn unterminated_string_is_errors_token_by_token() {
    assert_eq!(
        kinds_and_texts("\"ab"),
        vec![
            (TokenKind::Error, "\"".to_owned(), 0, 1),
            (TokenKind::Ident, "ab".to_owned(), 1, 3),
        ]
    );
    assert_eq!(
        kinds(r#""a\q""#),
        vec![
            TokenKind::Error,
            TokenKind::Ident,
            TokenKind::Error,
            TokenKind::Ident,
            TokenKind::Error,
        ]
    );
}

#[test]
fn comment_stops_at_line_end() {
    assert_eq!(
        kinds_and_texts("-- é\n-1"),
        vec![
            (TokenKind::Comment, "-- é".to_owned(), 0, 5),
            (TokenKind::Whitespace, "\n".to_owned(), 5, 6),
            (TokenKind::Minus, "-".to_owned(), 6, 7),
            (TokenKind::Integer, "1".to_owned(), 7, 8),
        ]
    );
}

#[test]
fn unknown_characters_are_single_errors() {
    assert_eq!(
        kinds_and_texts("é✓$"),
        vec![
            (TokenKind::Error, "é".to_owned(), 0, 2),
            (TokenKind::Error, "✓".to_owned(), 2, 5),
            (TokenKind::Error, "$".to_owned(), 5, 6),
        ]
    );
}

#[test]
fn form_feed_is_no_whitespace() {
    assert_eq!(kinds(" \u{c} "), vec![TokenKind::Whitespace, TokenKind::Error, TokenKind::Whitespace]);
}

#[test]
fn empty_input_has_no_tokens() {
    assert!(tokenize("").is_empty());
    assert!(Lexer::new("").next().is_none());
}

#[test]
fn token_texts_cover_the_input() {
    for input in ["", "  \n-- c", "let x = (1, 2.5) | f::g -- done\n", "\"open", "é = 'ü' ☃", "if a then b else c"] {
        let tokens = tokenize(input);
        let mut text = String::new();
        let mut at = 0;
        for token in &tokens {
            assert_eq!(u32::from(token.range.start()), at);
            assert_eq!(&input[at as usize..u32::from(token.range.end()) as usize], token.text);
            assert!(!token.text.is_empty());
            at = u32::from(token.range.end());
            text.push_str(token.text);
        }
        assert_eq!(text, input);
        assert_eq!(at as usize, input.len());
    }
}

#[test]
fn token_kinds_become_the_syntax_kinds_of_their_name() {
    let pairs = [
        (TokenKind::Whitespace, SyntaxKind::Whitespace),
        (TokenKind::LetKw, SyntaxKind::LetKw),
        (TokenKind::IfKw, SyntaxKind::IfKw),
        (TokenKind::ThenKw, SyntaxKind::ThenKw),
        (TokenKind::ElseKw, SyntaxKind::ElseKw),
        (TokenKind::Ident, SyntaxKind::Ident),
        (TokenKind::Integer, SyntaxKind::Integer),
        (TokenKind::Fraction, SyntaxKind::Fraction),
        (TokenKind::String, SyntaxKind::String),
        (TokenKind::Colon, SyntaxKind::Colon),
        (TokenKind::DoubleColon, SyntaxKind::DoubleColon),
        (TokenKind::Comma, SyntaxKind::Comma),
        (TokenKind::Plus, SyntaxKind::Plus),
        (TokenKind::Minus, SyntaxKind::Minus),
        (TokenKind::Star, SyntaxKind::Star),
        (TokenKind::Slash, SyntaxKind::Slash),
        (TokenKind::Equals, SyntaxKind::Equals),
        (TokenKind::LParen, SyntaxKind::LParen),
        (TokenKind::RParen, SyntaxKind::RParen),
        (TokenKind::LBrace, SyntaxKind::LBrace),
        (TokenKind::RBrace, SyntaxKind::RBrace),
        (TokenKind::LBracket, SyntaxKind::LBracket),
        (TokenKind::RBracket, SyntaxKind::RBracket),
        (TokenKind::LAngle, SyntaxKind::LAngle),
        (TokenKind::RAngle, SyntaxKind::RAngle),
        (TokenKind::Pipe, SyntaxKind::Pipe),
        (TokenKind::Comment, SyntaxKind::Comment),
        (TokenKind::Error, SyntaxKind::Error),
    ];
    for (token_kind, syntax_kind) in pairs {
        assert_eq!(SyntaxKind::from(token_kind), syntax_kind);
    }
}
