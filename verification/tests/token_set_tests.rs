use psh_parser::token_kind::TokenKind;
use psh_parser::token_set::TokenSet;

#[test]
fn it_works() {
    let set = TokenSet::new([TokenKind::LetKw, TokenKind::Integer]);

    assert!(set.contains(TokenKind::LetKw));
    assert!(set.contains(TokenKind::Integer));
    assert!(!set.contains(TokenKind::String));

    let set = set.union(TokenSet::new([TokenKind::String]));

    assert!(set.contains(TokenKind::LetKw));
    assert!(set.contains(TokenKind::Integer));
    assert!(set.contains(TokenKind::String));
    assert!(!set.contains(TokenKind::Ident));
}

#[test]
fn macro_works() {
    let set1 = TokenSet::new([TokenKind::LetKw, TokenKind::Integer]);
    let set2 = TokenSet::new([TokenKind::LetKw, TokenKind::Integer]);

    assert!(set1.contains(TokenKind::LetKw));
    assert!(set2.contains(TokenKind::LetKw));

    assert!(set1.contains(TokenKind::Integer));
    assert!(set2.contains(TokenKind::Integer));
}

#[test]
fn plus_works() {
    let set1 = TokenSet::new([TokenKind::LetKw, TokenKind::Integer]);
    let set2 = TokenSet::new([TokenKind::LetKw]).plus(TokenKind::Integer);

    assert!(set1.contains(TokenKind::LetKw));
    assert!(set2.contains(TokenKind::LetKw));

    assert!(set1.contains(TokenKind::Integer));
    assert!(set2.contains(TokenKind::Integer));
}

#[test]
fn minus_works() {
    let set1 = TokenSet::new([TokenKind::LetKw, TokenKind::Integer, TokenKind::Ident])
        .minus(TokenKind::Ident);

    assert!(set1.contains(TokenKind::LetKw));
    assert!(set1.contains(TokenKind::Integer));
    assert!(!set1.contains(TokenKind::Ident));
}

#[test]
fn empty_set_holds_nothing() {
    let set = TokenSet::empty();
    assert!(!set.contains(TokenKind::Whitespace));
    assert!(!set.contains(TokenKind::Error));
    assert!(!TokenSet::default().contains(TokenKind::LetKw));
}

const ALL_KINDS: [TokenKind; 28] = [
    TokenKind::Whitespace,
    TokenKind::LetKw,
    TokenKind::IfKw,
    TokenKind::ThenKw,
    TokenKind::ElseKw,
    TokenKind::Ident,
    TokenKind::Integer,
    TokenKind::Fraction,
    TokenKind::String,
    TokenKind::Colon,
    TokenKind::DoubleColon,
    TokenKind::Comma,
    TokenKind::Plus,
    TokenKind::Minus,
    TokenKind::Star,
    TokenKind::Slash,
    TokenKind::Equals,
    TokenKind::LBrace,
    TokenKind::RBrace,
    TokenKind::LBracket,
    TokenKind::RBracket,
    TokenKind::LParen,
    TokenKind::RParen,
    TokenKind::LAngle,
    TokenKind::RAngle,
    TokenKind::Pipe,
    TokenKind::Comment,
    TokenKind::Error,
];

fn members(set: TokenSet) -> Vec<TokenKind> {
    ALL_KINDS.iter().copied().filter(|kind| set.contains(*kind)).collect()
}

#[test]
fn every_kind_has_a_bit_of_its_own() {
    for (ordinal, kind) in ALL_KINDS.iter().enumerate() {
        assert_eq!(kind.ordinal() as usize, ordinal);
        assert_eq!(members(TokenSet::new([*kind])), vec![*kind]);
        assert_eq!(members(TokenSet::new(ALL_KINDS).minus(*kind)).len(), 27);
    }
    assert_eq!(members(TokenSet::new(ALL_KINDS)), ALL_KINDS.to_vec());
}

#[test]
fn union_is_symmetric_and_minus_undoes_plus() {
    let a = TokenSet::new([TokenKind::Plus, TokenKind::Minus]);
    let b = TokenSet::new([TokenKind::Minus, TokenKind::Star]);
    assert_eq!(members(a.union(b)), members(b.union(a)));
    assert_eq!(members(a.union(b)), vec![TokenKind::Plus, TokenKind::Minus, TokenKind::Star]);
    assert_eq!(members(a.plus(TokenKind::Pipe).minus(TokenKind::Pipe)), members(a));
    assert_eq!(members(a.minus(TokenKind::Pipe)), members(a));
    assert_eq!(members(a.plus(TokenKind::Plus)), members(a));
}
