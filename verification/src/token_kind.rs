//! The closed set of lexical categories.

use vstd::prelude::*;

verus! {

/// A lexical category. The order of the variants is the order of their
/// ordinals, which key the bitmask of a token set.
#[derive(Debug, Copy, Clone, Ord, PartialOrd, Eq, PartialEq, Hash, Structural)]
pub enum TokenKind {
    Whitespace,
    LetKw,
    IfKw,
    ThenKw,
    ElseKw,
    Ident,
    Integer,
    Fraction,
    String,
    Colon,
    DoubleColon,
    Comma,
    Plus,
    Minus,
    Star,
    Slash,
    Equals,
    LBrace,
    RBrace,
    LBracket,
    RBracket,
    LParen,
    RParen,
    LAngle,
    RAngle,
    Pipe,
    Comment,
    Error,
}

/// The number of token kinds; every ordinal is below it.
pub const TOKEN_KIND_COUNT: u8 = 28;

impl TokenKind {
    /// Trivia are the kinds that the tree keeps and the grammar never sees.
    pub open spec fn spec_is_trivia(self) -> bool {
        self == TokenKind::Whitespace || self == TokenKind::Comment
    }

    /// The position of the kind in the enumeration.
    pub open spec fn spec_ordinal(self) -> u8 {
        match self {
            TokenKind::Whitespace => 0,
            TokenKind::LetKw => 1,
            TokenKind::IfKw => 2,
            TokenKind::ThenKw => 3,
            TokenKind::ElseKw => 4,
            TokenKind::Ident => 5,
            TokenKind::Integer => 6,
            TokenKind::Fraction => 7,
            TokenKind::String => 8,
            TokenKind::Colon => 9,
            TokenKind::DoubleColon => 10,
            TokenKind::Comma => 11,
            TokenKind::Plus => 12,
            TokenKind::Minus => 13,
            TokenKind::Star => 14,
            TokenKind::Slash => 15,
            TokenKind::Equals => 16,
            TokenKind::LBrace => 17,
            TokenKind::RBrace => 18,
            TokenKind::LBracket => 19,
            TokenKind::RBracket => 20,
            TokenKind::LParen => 21,
            TokenKind::RParen => 22,
            TokenKind::LAngle => 23,
            TokenKind::RAngle => 24,
            TokenKind::Pipe => 25,
            TokenKind::Comment => 26,
            TokenKind::Error => 27,
        }
    }

    #[must_use]
    #[verifier::when_used_as_spec(spec_is_trivia)]
    pub fn is_trivia(self) -> (r: bool)
        ensures
            r == self.spec_is_trivia(),
    {
        match self {
            TokenKind::Whitespace | TokenKind::Comment => true,
            _ => false,
        }
    }

    #[must_use]
    #[verifier::when_used_as_spec(spec_ordinal)]
    pub fn ordinal(self) -> (r: u8)
        ensures
            r == self.spec_ordinal(),
            r < TOKEN_KIND_COUNT,
    {
        match self {
            TokenKind::Whitespace => 0,
            TokenKind::LetKw => 1,
            TokenKind::IfKw => 2,
            TokenKind::ThenKw => 3,
            TokenKind::ElseKw => 4,
            TokenKind::Ident => 5,
            TokenKind::Integer => 6,
            TokenKind::Fraction => 7,
            TokenKind::String => 8,
            TokenKind::Colon => 9,
            TokenKind::DoubleColon => 10,
            TokenKind::Comma => 11,
            TokenKind::Plus => 12,
            TokenKind::Minus => 13,
            TokenKind::Star => 14,
            TokenKind::Slash => 15,
            TokenKind::Equals => 16,
            TokenKind::LBrace => 17,
            TokenKind::RBrace => 18,
            TokenKind::LBracket => 19,
            TokenKind::RBracket => 20,
            TokenKind::LParen => 21,
            TokenKind::RParen => 22,
            TokenKind::LAngle => 23,
            TokenKind::RAngle => 24,
            TokenKind::Pipe => 25,
            TokenKind::Comment => 26,
            TokenKind::Error => 27,
        }
    }

    /// How the kind is named in a diagnostic.
    #[must_use]
    pub fn describe(self) -> (r: &'static str)
        ensures
            r@ == self.description(),
    {
        match self {
            TokenKind::Whitespace => "whitespace",
            TokenKind::LetKw => "‘let’",
            TokenKind::IfKw => "‘if‘",
            TokenKind::ThenKw => "‘then‘",
            TokenKind::ElseKw => "‘else‘",
            TokenKind::Ident => "identifier",
            TokenKind::Integer => "integer",
            TokenKind::Fraction => "fraction",
            TokenKind::String => "string",
            TokenKind::Colon => "‘:’",
            TokenKind::DoubleColon => "‘::’",
            TokenKind::Comma => "‘,’",
            TokenKind::Plus => "‘+’",
            TokenKind::Minus => "‘-’",
            TokenKind::Star => "‘*’",
            TokenKind::Slash => "‘/’",
            TokenKind::Equals => "‘=’",
            TokenKind::LParen => "‘(’",
            TokenKind::RParen => "‘)’",
            TokenKind::LBrace => "‘{’",
            TokenKind::RBrace => "‘}’",
            TokenKind::LBracket => "‘[’",
            TokenKind::RBracket => "‘]’",
            TokenKind::LAngle => "‘<’",
            TokenKind::RAngle => "‘>’",
            TokenKind::Pipe => "‘|’",
            TokenKind::Comment => "comment",
            TokenKind::Error => "an unrecognized token",
        }
    }

    /// The text of `describe`, as a sequence of characters.
    pub open spec fn description(self) -> Seq<char> {
        match self {
            TokenKind::Whitespace => "whitespace"@,
            TokenKind::LetKw => "‘let’"@,
            TokenKind::IfKw => "‘if‘"@,
            TokenKind::ThenKw => "‘then‘"@,
            TokenKind::ElseKw => "‘else‘"@,
            TokenKind::Ident => "identifier"@,
            TokenKind::Integer => "integer"@,
            TokenKind::Fraction => "fraction"@,
            TokenKind::String => "string"@,
            TokenKind::Colon => "‘:’"@,
            TokenKind::DoubleColon => "‘::’"@,
            TokenKind::Comma => "‘,’"@,
            TokenKind::Plus => "‘+’"@,
            TokenKind::Minus => "‘-’"@,
            TokenKind::Star => "‘*’"@,
            TokenKind::Slash => "‘/’"@,
            TokenKind::Equals => "‘=’"@,
            TokenKind::LParen => "‘(’"@,
            TokenKind::RParen => "‘)’"@,
            TokenKind::LBrace => "‘{’"@,
            TokenKind::RBrace => "‘}’"@,
            TokenKind::LBracket => "‘[’"@,
            TokenKind::RBracket => "‘]’"@,
            TokenKind::LAngle => "‘<’"@,
            TokenKind::RAngle => "‘>’"@,
            TokenKind::Pipe => "‘|’"@,
            TokenKind::Comment => "comment"@,
            TokenKind::Error => "an unrecognized token"@,
        }
    }
}

} // verus!
