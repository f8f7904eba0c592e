//! The lexical grammar, as functions on the bytes of the input.
//!
//! Every rule is stated as the end of its longest match at a given position.
//! `next_token` picks among the rules: the longest match wins, and a keyword
//! wins over an identifier of the same length. That this is so of the rules
//! as properties of a text is shown in `longest_match`.

use vstd::prelude::*;
use vstd::utf8::*;
use crate::token_kind::TokenKind;

verus! {

/// A class of bytes that a rule repeats.
#[derive(Debug, Copy, Clone, PartialEq, Eq, Structural)]
pub enum ByteClass {
    /// Space, tab, carriage return, line feed.
    Space,
    /// `0` to `9`.
    Digit,
    /// Anything but a line feed: the body of a comment.
    CommentBody,
    /// A byte inside a multi-byte character, after its first byte.
    Continuation,
}

pub open spec fn is_digit(b: u8) -> bool {
    0x30 <= b <= 0x39
}

pub open spec fn is_alpha(b: u8) -> bool {
    (0x41 <= b <= 0x5a) || (0x61 <= b <= 0x7a)
}

pub open spec fn is_alnum(b: u8) -> bool {
    is_alpha(b) || is_digit(b)
}

pub open spec fn is_space(b: u8) -> bool {
    b == 0x20 || b == 0x09 || b == 0x0d || b == 0x0a
}

pub open spec fn in_class(c: ByteClass, b: u8) -> bool {
    match c {
        ByteClass::Space => is_space(b),
        ByteClass::Digit => is_digit(b),
        ByteClass::CommentBody => b != 0x0a,
        ByteClass::Continuation => is_continuation_byte(b),
    }
}

/// The end of the longest run of bytes of class `c` that starts at `i`.
pub open spec fn run_end(s: Seq<u8>, i: int, c: ByteClass) -> int
    decreases s.len() - i,
{
    if 0 <= i < s.len() && in_class(c, s[i]) {
        run_end(s, i + 1, c)
    } else {
        i
    }
}

/// The end of an identifier whose first letter lies before `k`: letters and
/// digits go on, and so does one underscore that a letter follows.
pub open spec fn ident_tail(s: Seq<u8>, k: int) -> int
    decreases s.len() - k,
{
    if 0 <= k < s.len() && is_alnum(s[k]) {
        ident_tail(s, k + 1)
    } else if 0 <= k && k + 1 < s.len() && s[k] == 0x5f && is_alpha(s[k + 1]) {
        ident_tail(s, k + 2)
    } else {
        k
    }
}

/// The end of the longest identifier at `i`, or `i` where none starts: an
/// optional underscore, then runs of a letter and letters or digits, single
/// underscores between them.
pub open spec fn ident_end(s: Seq<u8>, i: int) -> int {
    let j = if 0 <= i < s.len() && s[i] == 0x5f {
        i + 1
    } else {
        i
    };
    if 0 <= j < s.len() && is_alpha(s[j]) {
        ident_tail(s, j + 1)
    } else {
        i
    }
}

/// Whether `b` may follow a backslash inside a string: `t`, `u`, `n` or `"`.
pub open spec fn is_escape(b: u8) -> bool {
    b == 0x74 || b == 0x75 || b == 0x6e || b == 0x22
}

/// The end of a string whose opening quote lies before `k`, just after the
/// closing `quote`; `None` where the text ends first or a backslash is
/// followed by no escape.
pub open spec fn string_end(s: Seq<u8>, k: int, quote: u8) -> Option<int>
    decreases s.len() - k,
{
    if !(0 <= k < s.len()) {
        None
    } else if s[k] == quote {
        Some(k + 1)
    } else if s[k] == 0x5c {
        if k + 1 < s.len() && is_escape(s[k + 1]) {
            string_end(s, k + 2, quote)
        } else {
            None
        }
    } else {
        string_end(s, k + 1, quote)
    }
}

/// The kind of the word `s[i..e]`: a keyword where it spells one.
pub open spec fn word_kind(s: Seq<u8>, i: int, e: int) -> TokenKind {
    let w = s.subrange(i, e);
    if w == seq![0x6cu8, 0x65u8, 0x74u8] {
        TokenKind::LetKw
    } else if w == seq![0x69u8, 0x66u8] {
        TokenKind::IfKw
    } else if w == seq![0x74u8, 0x68u8, 0x65u8, 0x6eu8] {
        TokenKind::ThenKw
    } else if w == seq![0x65u8, 0x6cu8, 0x73u8, 0x65u8] {
        TokenKind::ElseKw
    } else {
        TokenKind::Ident
    }
}

/// The keyword that the word `w` spells, if it spells one.
pub open spec fn keyword_of(w: Seq<u8>) -> Option<TokenKind> {
    if w == seq![0x6cu8, 0x65u8, 0x74u8] {
        Some(TokenKind::LetKw)
    } else if w == seq![0x69u8, 0x66u8] {
        Some(TokenKind::IfKw)
    } else if w == seq![0x74u8, 0x68u8, 0x65u8, 0x6eu8] {
        Some(TokenKind::ThenKw)
    } else if w == seq![0x65u8, 0x6cu8, 0x73u8, 0x65u8] {
        Some(TokenKind::ElseKw)
    } else {
        None
    }
}

/// The kind of a token of one byte of punctuation, if `b` is one.
pub open spec fn punct_kind(b: u8) -> Option<TokenKind> {
    if b == 0x3a {
        Some(TokenKind::Colon)
    } else if b == 0x2c {
        Some(TokenKind::Comma)
    } else if b == 0x2b {
        Some(TokenKind::Plus)
    } else if b == 0x2d {
        Some(TokenKind::Minus)
    } else if b == 0x2a {
        Some(TokenKind::Star)
    } else if b == 0x2f {
        Some(TokenKind::Slash)
    } else if b == 0x3d {
        Some(TokenKind::Equals)
    } else if b == 0x7b {
        Some(TokenKind::LBrace)
    } else if b == 0x7d {
        Some(TokenKind::RBrace)
    } else if b == 0x5b {
        Some(TokenKind::LBracket)
    } else if b == 0x5d {
        Some(TokenKind::RBracket)
    } else if b == 0x28 {
        Some(TokenKind::LParen)
    } else if b == 0x29 {
        Some(TokenKind::RParen)
    } else if b == 0x3c {
        Some(TokenKind::LAngle)
    } else if b == 0x3e {
        Some(TokenKind::RAngle)
    } else if b == 0x7c {
        Some(TokenKind::Pipe)
    } else {
        None
    }
}

/// The end of the one character that starts at `i`.
pub open spec fn char_end(s: Seq<u8>, i: int) -> int {
    run_end(s, i + 1, ByteClass::Continuation)
}

/// The token that starts at `i`, for `0 <= i < s.len()`: its kind and its end.
pub open spec fn next_token(s: Seq<u8>, i: int) -> (TokenKind, int) {
    let b = s[i];
    if is_space(b) {
        (TokenKind::Whitespace, run_end(s, i, ByteClass::Space))
    } else if is_digit(b) {
        let d = run_end(s, i, ByteClass::Digit);
        if d < s.len() && s[d] == 0x2e && run_end(s, d + 1, ByteClass::Digit) > d + 1 {
            (TokenKind::Fraction, run_end(s, d + 1, ByteClass::Digit))
        } else {
            (TokenKind::Integer, d)
        }
    } else if ident_end(s, i) > i {
        (word_kind(s, i, ident_end(s, i)), ident_end(s, i))
    } else if b == 0x22 || b == 0x27 {
        match string_end(s, i + 1, b) {
            Some(e) => (TokenKind::String, e),
            None => (TokenKind::Error, char_end(s, i)),
        }
    } else if b == 0x2d && i + 1 < s.len() && s[i + 1] == 0x2d {
        (TokenKind::Comment, run_end(s, i + 2, ByteClass::CommentBody))
    } else if b == 0x3a && i + 1 < s.len() && s[i + 1] == 0x3a {
        (TokenKind::DoubleColon, i + 2)
    } else {
        match punct_kind(b) {
            Some(kind) => (kind, i + 1),
            None => (TokenKind::Error, char_end(s, i)),
        }
    }
}

/// A lexeme: a token as the lexical grammar gives it, a kind and the bytes
/// `start..end`.
pub struct Lexeme {
    pub kind: TokenKind,
    pub start: int,
    pub end: int,
}

/// The lexeme that starts at `i`, for `0 <= i < s.len()`.
pub open spec fn lexeme_at(s: Seq<u8>, i: int) -> Lexeme {
    Lexeme { kind: next_token(s, i).0, start: i, end: next_token(s, i).1 }
}

/// The lexemes of `s` from position `i` on.
pub open spec fn lex_from(s: Seq<u8>, i: int) -> Seq<Lexeme>
    decreases s.len() - i,
{
    if 0 <= i < s.len() {
        proof {
            lemma_next_token_advances(s, i);
        }
        seq![lexeme_at(s, i)] + lex_from(s, lexeme_at(s, i).end)
    } else {
        Seq::empty()
    }
}

/// The lexemes of the whole of `s`.
pub open spec fn lex(s: Seq<u8>) -> Seq<Lexeme> {
    lex_from(s, 0)
}

/// Where a token may end in well-formed text: at the end, or before a byte
/// that starts a character.
pub open spec fn at_boundary(s: Seq<u8>, i: int) -> bool {
    0 <= i <= s.len() && (i < s.len() ==> !is_continuation_byte(s[i]))
}

pub proof fn lemma_run_end_bounds(s: Seq<u8>, i: int, c: ByteClass)
    requires
        0 <= i <= s.len(),
    ensures
        i <= run_end(s, i, c) <= s.len(),
        run_end(s, i, c) < s.len() ==> !in_class(c, s[run_end(s, i, c)]),
        forall|j: int| i <= j < run_end(s, i, c) ==> in_class(c, #[trigger] s[j]),
        i < s.len() && in_class(c, s[i]) ==> run_end(s, i, c) > i,
    decreases s.len() - i,
{
    if i < s.len() && in_class(c, s[i]) {
        lemma_run_end_bounds(s, i + 1, c);
    }
}

pub proof fn lemma_ident_tail_bounds(s: Seq<u8>, k: int)
    requires
        1 <= k <= s.len(),
        is_alnum(s[k - 1]),
    ensures
        k <= ident_tail(s, k) <= s.len(),
        is_alnum(s[ident_tail(s, k) - 1]),
    decreases s.len() - k,
{
    if k < s.len() && is_alnum(s[k]) {
        lemma_ident_tail_bounds(s, k + 1);
    } else if k + 1 < s.len() && s[k] == 0x5f && is_alpha(s[k + 1]) {
        lemma_ident_tail_bounds(s, k + 2);
    }
}

pub proof fn lemma_ident_end_bounds(s: Seq<u8>, i: int)
    requires
        0 <= i < s.len(),
    ensures
        i <= ident_end(s, i) <= s.len(),
        ident_end(s, i) > i ==> is_alnum(s[ident_end(s, i) - 1]),
{
    let j = if s[i] == 0x5f {
        i + 1
    } else {
        i
    };
    if j < s.len() && is_alpha(s[j]) {
        lemma_ident_tail_bounds(s, j + 1);
    }
}

pub proof fn lemma_string_end_bounds(s: Seq<u8>, k: int, quote: u8)
    requires
        0 <= k <= s.len(),
    ensures
        string_end(s, k, quote) matches Some(e) ==> k < e <= s.len() && s[e - 1] == quote,
    decreases s.len() - k,
{
    if k < s.len() && s[k] != quote {
        if s[k] == 0x5c {
            if k + 1 < s.len() && is_escape(s[k + 1]) {
                lemma_string_end_bounds(s, k + 2, quote);
            }
        } else {
            lemma_string_end_bounds(s, k + 1, quote);
        }
    }
}

/// A token is never empty and never runs past the end of the text.
pub proof fn lemma_next_token_advances(s: Seq<u8>, i: int)
    requires
        0 <= i < s.len(),
    ensures
        i < next_token(s, i).1 <= s.len(),
{
    lemma_run_end_bounds(s, i, ByteClass::Space);
    lemma_run_end_bounds(s, i, ByteClass::Digit);
    lemma_run_end_bounds(s, i + 1, ByteClass::Continuation);
    lemma_ident_end_bounds(s, i);
    lemma_string_end_bounds(s, i + 1, s[i]);
    let d = run_end(s, i, ByteClass::Digit);
    if d < s.len() {
        lemma_run_end_bounds(s, d + 1, ByteClass::Digit);
    }
    if i + 1 < s.len() {
        lemma_run_end_bounds(s, i + 2, ByteClass::CommentBody);
    }
}

/// A token whose text spells a keyword is that keyword, wherever in the
/// text it starts, and no token of another kind is a keyword: keywords and
/// identifiers exclude each other.
pub proof fn lemma_keywords_exclusive(s: Seq<u8>, i: int)
    requires
        0 <= i < s.len(),
    ensures
        ({
            let (kind, end) = next_token(s, i);
            let word = keyword_of(s.subrange(i, end));
            &&& word matches Some(keyword) ==> kind == keyword
            &&& kind == TokenKind::Ident ==> word is None
            &&& kind == TokenKind::LetKw || kind == TokenKind::IfKw || kind == TokenKind::ThenKw
                || kind == TokenKind::ElseKw ==> word == Some(kind)
        }),
{
    lemma_next_token_advances(s, i);
    lemma_ident_end_bounds(s, i);
    let (kind, end) = next_token(s, i);
    let w = s.subrange(i, end);
    assert(w[0] == s[i]);
    if keyword_of(w) is Some {
        assert(is_alpha(s[i])) by {
            let l = seq![0x6cu8, 0x65u8, 0x74u8];
            let f = seq![0x69u8, 0x66u8];
            let t = seq![0x74u8, 0x68u8, 0x65u8, 0x6eu8];
            let e = seq![0x65u8, 0x6cu8, 0x73u8, 0x65u8];
            assert(l[0] == 0x6cu8 && f[0] == 0x69u8 && t[0] == 0x74u8 && e[0] == 0x65u8);
        }
        lemma_ident_tail_bounds(s, i + 1);
    }
}

/// In well-formed text the byte after an ASCII byte starts a character.
pub proof fn lemma_boundary_after_ascii(s: Seq<u8>, k: int)
    requires
        valid_utf8(s),
        0 <= k < s.len(),
        s[k] < 0x80,
    ensures
        at_boundary(s, k + 1),
    decreases s.len(),
{
    if k + 1 < s.len() {
        is_char_boundary_iff_is_leading_byte(s, k);
        assert(is_char_boundary(s, k));
        lemma_boundary_step(s, k);
        is_char_boundary_iff_not_is_continuation_byte(s, k + 1);
    }
}

proof fn lemma_boundary_step(s: Seq<u8>, k: int)
    requires
        valid_utf8(s),
        0 <= k < s.len(),
        s[k] < 0x80,
        is_char_boundary(s, k),
    ensures
        is_char_boundary(s, k + 1),
    decreases s.len(),
{
    reveal_with_fuel(is_char_boundary, 2);
    if k == 0 {
        assert(length_of_first_scalar(s) == 1);
    } else {
        let l = length_of_first_scalar(s);
        let rest = pop_first_scalar(s);
        assert(1 <= l <= 4);
        if k - l < 0 {
            assert(!is_char_boundary(rest, k - l));
        } else if k - l >= rest.len() {
            assert(rest.len() == s.len() - l);
        } else {
            assert(rest[k - l] == s[k]);
            lemma_boundary_step(rest, k - l);
        }
    }
}

/// In well-formed text a position before a byte that starts a character, or
/// at the end, is a character boundary.
pub proof fn lemma_at_boundary(s: Seq<u8>, i: int)
    requires
        valid_utf8(s),
        at_boundary(s, i),
    ensures
        is_char_boundary(s, i),
{
    if i < s.len() {
        is_char_boundary_iff_not_is_continuation_byte(s, i);
    } else {
        is_char_boundary_start_end_of_seq(s);
    }
}

/// In well-formed text every token ends where a character starts.
pub proof fn lemma_next_token_boundary(s: Seq<u8>, i: int)
    requires
        valid_utf8(s),
        0 <= i < s.len(),
    ensures
        at_boundary(s, next_token(s, i).1),
{
    lemma_next_token_advances(s, i);
    let (kind, e) = next_token(s, i);
    let b = s[i];
    lemma_run_end_bounds(s, i, ByteClass::Space);
    lemma_run_end_bounds(s, i, ByteClass::Digit);
    lemma_run_end_bounds(s, i + 1, ByteClass::Continuation);
    lemma_ident_end_bounds(s, i);
    lemma_string_end_bounds(s, i + 1, b);
    let d = run_end(s, i, ByteClass::Digit);
    if d < s.len() {
        lemma_run_end_bounds(s, d + 1, ByteClass::Digit);
    }
    if i + 1 < s.len() {
        lemma_run_end_bounds(s, i + 2, ByteClass::CommentBody);
    }
    if kind == TokenKind::Error || kind == TokenKind::Comment {
    } else {
        assert(s[e - 1] < 0x80);
        lemma_boundary_after_ascii(s, e - 1);
    }
}

} // verus!
