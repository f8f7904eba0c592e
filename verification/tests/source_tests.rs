use psh_parser::lexer::{tokenize, Token};
use psh_parser::source::Source;
use psh_parser::text::{TextRange, TextSize};
use psh_parser::token_kind::TokenKind;

#[test]
fn peek_nth_kind_0_empty() {
    let input = "";
    let tokens: Vec<_> = tokenize(input);
    let mut source = Source::new(&tokens);

    assert_eq!(source.peek_nth_kind(0), None);
}

#[test]
fn peek_nth_kind_1_empty() {
    let input = "";
    let tokens: Vec<_> = tokenize(input);
    let mut source = Source::new(&tokens);

    assert_eq!(source.peek_nth_kind(1), None);
}

#[test]
fn peek_nth_kind_0_multiple() {
    let input = "typeof hi : String -> String";
    let tokens: Vec<_> = tokenize(input);
    let mut source = Source::new(&tokens);

    assert_eq!(source.peek_nth_kind(0), Some(TokenKind::Ident));
}

#[test]
fn peek_nth_kind_1_multiple() {
    let input = "typeof hi : String -> String";
    let tokens: Vec<_> = tokenize(input);
    let mut source = Source::new(&tokens);

    assert_eq!(source.peek_nth_kind(1), Some(TokenKind::Ident));
}

#[test]
fn peeking_skips_trivia_and_changes_nothing() {
    let tokens: Vec<_> = tokenize("  -- note\n a + b ");
    let mut source = Source::new(&tokens);

    assert_eq!(source.peek_nth_kind(0), Some(TokenKind::Ident));
    assert_eq!(source.peek_nth_kind(0), Some(TokenKind::Ident));
    assert_eq!(source.peek_nth_kind(2), Some(TokenKind::Ident));
    assert_eq!(source.peek_nth_kind(1), Some(TokenKind::Plus));
    assert_eq!(source.peek_nth_kind(3), None);
    assert_eq!(source.peek_nth_token(1).map(|t| t.text), Some("+"));
}

#[test]
fn next_token_never_hands_out_trivia() {
    let tokens: Vec<_> = tokenize(" a -- c\n + 1 ");
    let mut source = Source::new(&tokens);

    let mut seen = Vec::new();
    while let Some(token) = source.next_token() {
        seen.push((token.kind, token.text));
    }
    assert_eq!(
        seen,
        vec![(TokenKind::Ident, "a"), (TokenKind::Plus, "+"), (TokenKind::Integer, "1")]
    );
    assert_eq!(source.peek_nth_kind(0), None);
    assert!(source.next_token().is_none());
}

#[test]
fn last_token_range_is_of_the_very_last_token() {
    let tokens: Vec<_> = tokenize("a  ");
    let source = Source::new(&tokens);
    assert_eq!(source.last_token_range(), Some(TextRange::new(1.into(), 3.into())));

    let none: Vec<Token> = Vec::new();
    assert_eq!(Source::new(&none).last_token_range(), None);
}

#[test]
fn ranges_have_a_length() {
    let range = TextRange::new(TextSize::new(3), TextSize::from(10));
    assert_eq!(u32::from(range.len()), 7);
    assert_eq!(range.start(), TextSize::new(3));
    assert_eq!(range.end().raw, 10);
}
