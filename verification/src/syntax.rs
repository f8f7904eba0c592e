//! The kinds of the syntax tree: one leaf kind for each token kind, then the
//! kinds of the inner nodes.

use vstd::prelude::*;
use crate::token_kind::TokenKind;

verus! {

/// The kind of a node or of a leaf of the syntax tree. The leaf kinds come
/// first, then the node kinds; the position of a kind is its raw number.
#[derive(Debug, Copy, Clone, Ord, PartialOrd, Eq, PartialEq, Hash, Structural)]
pub enum SyntaxKind {
    Whitespace,
    LetKw,
    IfKw,
    ThenKw,
    ElseKw,
    Ident,
    Integer,
    Fraction,
    String,
    Colon,
    DoubleColon,
    Comma,
    Plus,
    Minus,
    Star,
    Slash,
    Equals,
    LParen,
    RParen,
    LBrace,
    RBrace,
    LBracket,
    RBracket,
    LAngle,
    RAngle,
    Pipe,
    Comment,
    Error,

    SourceFile,
    Path,
    VariableRef,
    VariableDef,
    StringLiteral,
    IntLiteral,
    FractionLiteral,
    UnaryExpr,
    InfixExpr,
    IfExpr,
    ThenExpr,
    ElseExpr,
    IfThenElseExpr,
    Unit,
    ParenExpr,
    ParenPattern,
    TupleExpr,
    TuplePattern,
    TuplePatternArg,
}

/// The number of syntax kinds; every raw number of a kind is below it.
pub const SYNTAX_KIND_COUNT: u16 = 47;

impl SyntaxKind {
    /// The position of the kind in the enumeration.
    pub open spec fn spec_to_raw(self) -> u16 {
        match self {
            SyntaxKind::Whitespace => 0,
            SyntaxKind::LetKw => 1,
            SyntaxKind::IfKw => 2,
            SyntaxKind::ThenKw => 3,
            SyntaxKind::ElseKw => 4,
            SyntaxKind::Ident => 5,
            SyntaxKind::Integer => 6,
            SyntaxKind::Fraction => 7,
            SyntaxKind::String => 8,
            SyntaxKind::Colon => 9,
            SyntaxKind::DoubleColon => 10,
            SyntaxKind::Comma => 11,
            SyntaxKind::Plus => 12,
            SyntaxKind::Minus => 13,
            SyntaxKind::Star => 14,
            SyntaxKind::Slash => 15,
            SyntaxKind::Equals => 16,
            SyntaxKind::LParen => 17,
            SyntaxKind::RParen => 18,
            SyntaxKind::LBrace => 19,
            SyntaxKind::RBrace => 20,
            SyntaxKind::LBracket => 21,
            SyntaxKind::RBracket => 22,
            SyntaxKind::LAngle => 23,
            SyntaxKind::RAngle => 24,
            SyntaxKind::Pipe => 25,
            SyntaxKind::Comment => 26,
            SyntaxKind::Error => 27,
            SyntaxKind::SourceFile => 28,
            SyntaxKind::Path => 29,
            SyntaxKind::VariableRef => 30,
            SyntaxKind::VariableDef => 31,
            SyntaxKind::StringLiteral => 32,
            SyntaxKind::IntLiteral => 33,
            SyntaxKind::FractionLiteral => 34,
            SyntaxKind::UnaryExpr => 35,
            SyntaxKind::InfixExpr => 36,
            SyntaxKind::IfExpr => 37,
            SyntaxKind::ThenExpr => 38,
            SyntaxKind::ElseExpr => 39,
            SyntaxKind::IfThenElseExpr => 40,
            SyntaxKind::Unit => 41,
            SyntaxKind::ParenExpr => 42,
            SyntaxKind::ParenPattern => 43,
            SyntaxKind::TupleExpr => 44,
            SyntaxKind::TuplePattern => 45,
            SyntaxKind::TuplePatternArg => 46,
        }
    }

    /// The kind that a token of kind `kind` has as a leaf of the tree.
    pub open spec fn of_token(kind: TokenKind) -> SyntaxKind {
        match kind {
            TokenKind::Whitespace => SyntaxKind::Whitespace,
            TokenKind::LetKw => SyntaxKind::LetKw,
            TokenKind::IfKw => SyntaxKind::IfKw,
            TokenKind::ThenKw => SyntaxKind::ThenKw,
            TokenKind::ElseKw => SyntaxKind::ElseKw,
            TokenKind::Ident => SyntaxKind::Ident,
            TokenKind::Integer => SyntaxKind::Integer,
            TokenKind::Fraction => SyntaxKind::Fraction,
            TokenKind::String => SyntaxKind::String,
            TokenKind::Colon => SyntaxKind::Colon,
            TokenKind::DoubleColon => SyntaxKind::DoubleColon,
            TokenKind::Comma => SyntaxKind::Comma,
            TokenKind::Plus => SyntaxKind::Plus,
            TokenKind::Minus => SyntaxKind::Minus,
            TokenKind::Star => SyntaxKind::Star,
            TokenKind::Slash => SyntaxKind::Slash,
            TokenKind::Equals => SyntaxKind::Equals,
            TokenKind::LParen => SyntaxKind::LParen,
            TokenKind::RParen => SyntaxKind::RParen,
            TokenKind::LBrace => SyntaxKind::LBrace,
            TokenKind::RBrace => SyntaxKind::RBrace,
            TokenKind::LBracket => SyntaxKind::LBracket,
            TokenKind::RBracket => SyntaxKind::RBracket,
            TokenKind::LAngle => SyntaxKind::LAngle,
            TokenKind::RAngle => SyntaxKind::RAngle,
            TokenKind::Pipe => SyntaxKind::Pipe,
            TokenKind::Comment => SyntaxKind::Comment,
            TokenKind::Error => SyntaxKind::Error,
        }
    }

    #[must_use]
    #[verifier::when_used_as_spec(spec_to_raw)]
    pub fn to_raw(self) -> (r: u16)
        ensures
            r == self.spec_to_raw(),
            r < SYNTAX_KIND_COUNT,
    {
        match self {
            SyntaxKind::Whitespace => 0,
            SyntaxKind::LetKw => 1,
            SyntaxKind::IfKw => 2,
            SyntaxKind::ThenKw => 3,
            SyntaxKind::ElseKw => 4,
            SyntaxKind::Ident => 5,
            SyntaxKind::Integer => 6,
            SyntaxKind::Fraction => 7,
            SyntaxKind::String => 8,
            SyntaxKind::Colon => 9,
            SyntaxKind::DoubleColon => 10,
            SyntaxKind::Comma => 11,
            SyntaxKind::Plus => 12,
            SyntaxKind::Minus => 13,
            SyntaxKind::Star => 14,
            SyntaxKind::Slash => 15,
            SyntaxKind::Equals => 16,
            SyntaxKind::LParen => 17,
            SyntaxKind::RParen => 18,
            SyntaxKind::LBrace => 19,
            SyntaxKind::RBrace => 20,
            SyntaxKind::LBracket => 21,
            SyntaxKind::RBracket => 22,
            SyntaxKind::LAngle => 23,
            SyntaxKind::RAngle => 24,
            SyntaxKind::Pipe => 25,
            SyntaxKind::Comment => 26,
            SyntaxKind::Error => 27,
            SyntaxKind::SourceFile => 28,
            SyntaxKind::Path => 29,
            SyntaxKind::VariableRef => 30,
            SyntaxKind::VariableDef => 31,
            SyntaxKind::StringLiteral => 32,
            SyntaxKind::IntLiteral => 33,
            SyntaxKind::FractionLiteral => 34,
            SyntaxKind::UnaryExpr => 35,
            SyntaxKind::InfixExpr => 36,
            SyntaxKind::IfExpr => 37,
            SyntaxKind::ThenExpr => 38,
            SyntaxKind::ElseExpr => 39,
            SyntaxKind::IfThenElseExpr => 40,
            SyntaxKind::Unit => 41,
            SyntaxKind::ParenExpr => 42,
            SyntaxKind::ParenPattern => 43,
            SyntaxKind::TupleExpr => 44,
            SyntaxKind::TuplePattern => 45,
            SyntaxKind::TuplePatternArg => 46,
        }
    }

    /// The kind of raw number `raw`, if there is one.
    #[must_use]
    pub fn from_raw(raw: u16) -> (r: Option<SyntaxKind>)
        ensures
            raw < SYNTAX_KIND_COUNT <==> r is Some,
            r matches Some(kind) ==> kind.spec_to_raw() == raw,
    {
        match raw {
            0 => Some(SyntaxKind::Whitespace),
            1 => Some(SyntaxKind::LetKw),
            2 => Some(SyntaxKind::IfKw),
            3 => Some(SyntaxKind::ThenKw),
            4 => Some(SyntaxKind::ElseKw),
            5 => Some(SyntaxKind::Ident),
            6 => Some(SyntaxKind::Integer),
            7 => Some(SyntaxKind::Fraction),
            8 => Some(SyntaxKind::String),
            9 => Some(SyntaxKind::Colon),
            10 => Some(SyntaxKind::DoubleColon),
            11 => Some(SyntaxKind::Comma),
            12 => Some(SyntaxKind::Plus),
            13 => Some(SyntaxKind::Minus),
            14 => Some(SyntaxKind::Star),
            15 => Some(SyntaxKind::Slash),
            16 => Some(SyntaxKind::Equals),
            17 => Some(SyntaxKind::LParen),
            18 => Some(SyntaxKind::RParen),
            19 => Some(SyntaxKind::LBrace),
            20 => Some(SyntaxKind::RBrace),
            21 => Some(SyntaxKind::LBracket),
            22 => Some(SyntaxKind::RBracket),
            23 => Some(SyntaxKind::LAngle),
            24 => Some(SyntaxKind::RAngle),
            25 => Some(SyntaxKind::Pipe),
            26 => Some(SyntaxKind::Comment),
            27 => Some(SyntaxKind::Error),
            28 => Some(SyntaxKind::SourceFile),
            29 => Some(SyntaxKind::Path),
            30 => Some(SyntaxKind::VariableRef),
            31 => Some(SyntaxKind::VariableDef),
            32 => Some(SyntaxKind::StringLiteral),
            33 => Some(SyntaxKind::IntLiteral),
            34 => Some(SyntaxKind::FractionLiteral),
            35 => Some(SyntaxKind::UnaryExpr),
            36 => Some(SyntaxKind::InfixExpr),
            37 => Some(SyntaxKind::IfExpr),
            38 => Some(SyntaxKind::ThenExpr),
            39 => Some(SyntaxKind::ElseExpr),
            40 => Some(SyntaxKind::IfThenElseExpr),
            41 => Some(SyntaxKind::Unit),
            42 => Some(SyntaxKind::ParenExpr),
            43 => Some(SyntaxKind::ParenPattern),
            44 => Some(SyntaxKind::TupleExpr),
            45 => Some(SyntaxKind::TuplePattern),
            46 => Some(SyntaxKind::TuplePatternArg),
            _ => None,
        }
    }
}

impl From<TokenKind> for SyntaxKind {
    fn from(token_kind: TokenKind) -> (r: Self) {
        match token_kind {
            TokenKind::Whitespace => SyntaxKind::Whitespace,
            TokenKind::LetKw => SyntaxKind::LetKw,
            TokenKind::IfKw => SyntaxKind::IfKw,
            TokenKind::ThenKw => SyntaxKind::ThenKw,
            TokenKind::ElseKw => SyntaxKind::ElseKw,
            TokenKind::Ident => SyntaxKind::Ident,
            TokenKind::Integer => SyntaxKind::Integer,
            TokenKind::Fraction => SyntaxKind::Fraction,
            TokenKind::String => SyntaxKind::String,
            TokenKind::Colon => SyntaxKind::Colon,
            TokenKind::DoubleColon => SyntaxKind::DoubleColon,
            TokenKind::Comma => SyntaxKind::Comma,
            TokenKind::Plus => SyntaxKind::Plus,
            TokenKind::Minus => SyntaxKind::Minus,
            TokenKind::Star => SyntaxKind::Star,
            TokenKind::Slash => SyntaxKind::Slash,
            TokenKind::Equals => SyntaxKind::Equals,
            TokenKind::LParen => SyntaxKind::LParen,
            TokenKind::RParen => SyntaxKind::RParen,
            TokenKind::LBrace => SyntaxKind::LBrace,
            TokenKind::RBrace => SyntaxKind::RBrace,
            TokenKind::LBracket => SyntaxKind::LBracket,
            TokenKind::RBracket => SyntaxKind::RBracket,
            TokenKind::LAngle => SyntaxKind::LAngle,
            TokenKind::RAngle => SyntaxKind::RAngle,
            TokenKind::Pipe => SyntaxKind::Pipe,
            TokenKind::Comment => SyntaxKind::Comment,
            TokenKind::Error => SyntaxKind::Error,
        }
    }
}

impl vstd::std_specs::convert::FromSpecImpl<TokenKind> for SyntaxKind {
    open spec fn obeys_from_spec() -> bool {
        true
    }

    open spec fn from_spec(token_kind: TokenKind) -> Self {
        SyntaxKind::of_token(token_kind)
    }
}

/// Two token kinds with the same leaf kind are the same: each token kind
/// has a leaf kind of its own.
pub proof fn lemma_of_token_injective(a: TokenKind, b: TokenKind)
    requires
        SyntaxKind::of_token(a) == SyntaxKind::of_token(b),
    ensures
        a == b,
{
}

/// The language whose trees carry these kinds: it says which raw number of
/// the tree library stands for which kind.
#[derive(Debug, Copy, Clone, Ord, PartialOrd, Eq, PartialEq, Hash)]
pub enum PshLanguage {
    Psh,
}

impl PshLanguage {
    /// The kind that the raw number `raw` stands for.
    pub fn kind_from_raw(raw: u16) -> (kind: SyntaxKind)
        requires
            raw < SYNTAX_KIND_COUNT,
        ensures
            kind.spec_to_raw() == raw,
    {
        match SyntaxKind::from_raw(raw) {
            Some(kind) => kind,
            None => SyntaxKind::Error,
        }
    }

    /// The raw number that stands for `kind`.
    pub fn kind_to_raw(kind: SyntaxKind) -> (raw: u16)
        ensures
            raw == kind.spec_to_raw(),
            raw < SYNTAX_KIND_COUNT,
    {
        kind.to_raw()
    }
}

} // verus!
