//! The lexer: from text to its tokens, none of the text left out.

use vstd::prelude::*;
use vstd::string::*;
use vstd::utf8::*;
use crate::lexical::{
    at_boundary, ident_end, ident_tail, in_class, is_alnum, is_alpha, lemma_at_boundary,
    lemma_next_token_advances, lemma_next_token_boundary, lex, lex_from, lexeme_at, next_token,
    punct_kind, run_end, string_end, word_kind, ByteClass, Lexeme,
};
use crate::text::{TextRange, TextSize};
use crate::token_kind::TokenKind;

verus! {

/// A token: its kind, its text as a slice of the input, and the bytes of the
/// input that it covers.
#[derive(Debug, PartialEq)]
pub struct Token<'a> {
    pub kind: TokenKind,
    pub text: &'a str,
    pub range: TextRange,
}

/// A token without the borrow: its kind, the characters of its text, and
/// its range.
pub struct TokenView {
    pub kind: TokenKind,
    pub text: Seq<char>,
    pub range: TextRange,
}

impl<'a> View for Token<'a> {
    type V = TokenView;

    open spec fn view(&self) -> TokenView {
        TokenView { kind: self.kind, text: self.text@, range: self.range }
    }
}

/// The tokens of a list, each without its borrow.
pub open spec fn views(tokens: Seq<Token>) -> Seq<TokenView> {
    tokens.map_values(|t: Token| t@)
}

/// The token that the lexeme `lx` of the text `s` is: its text is its bytes
/// decoded, its range their offsets.
pub open spec fn token_of(s: Seq<u8>, lx: Lexeme) -> TokenView {
    TokenView {
        kind: lx.kind,
        text: decode_utf8(s.subrange(lx.start, lx.end)),
        range: TextRange::new(
            TextSize { raw: lx.start as u32 },
            TextSize { raw: lx.end as u32 },
        ),
    }
}

/// The tokens of the text `s`, in order.
pub open spec fn lexed(s: Seq<u8>) -> Seq<TokenView> {
    lex(s).map_values(|lx: Lexeme| token_of(s, lx))
}

fn byte_in_class(c: ByteClass, b: u8) -> (r: bool)
    ensures
        r == in_class(c, b),
{
    match c {
        ByteClass::Space => b == 0x20 || b == 0x09 || b == 0x0d || b == 0x0a,
        ByteClass::Digit => 0x30 <= b && b <= 0x39,
        ByteClass::CommentBody => b != 0x0a,
        ByteClass::Continuation => 0x80 <= b && b <= 0xbf,
    }
}

fn byte_is_alpha(b: u8) -> (r: bool)
    ensures
        r == is_alpha(b),
{
    (0x41 <= b && b <= 0x5a) || (0x61 <= b && b <= 0x7a)
}

fn byte_is_alnum(b: u8) -> (r: bool)
    ensures
        r == is_alnum(b),
{
    byte_is_alpha(b) || (0x30 <= b && b <= 0x39)
}

fn scan_run(bytes: &[u8], i: usize, c: ByteClass) -> (e: usize)
    requires
        i <= bytes@.len(),
    ensures
        e == run_end(bytes@, i as int, c),
        i <= e <= bytes@.len(),
{
    let mut j: usize = i;
    while j < bytes.len() && byte_in_class(c, bytes[j])
        invariant
            i <= j <= bytes@.len(),
            run_end(bytes@, j as int, c) == run_end(bytes@, i as int, c),
        decreases bytes@.len() - j,
    {
        j += 1;
    }
    j
}

fn scan_ident_tail(bytes: &[u8], k: usize) -> (e: usize)
    requires
        k <= bytes@.len(),
    ensures
        e == ident_tail(bytes@, k as int),
        k <= e <= bytes@.len(),
{
    let mut j: usize = k;
    loop
        invariant
            k <= j <= bytes@.len(),
            ident_tail(bytes@, j as int) == ident_tail(bytes@, k as int),
        ensures
            k <= j <= bytes@.len(),
            j == ident_tail(bytes@, k as int),
        decreases bytes@.len() - j,
    {
        if j < bytes.len() && byte_is_alnum(bytes[j]) {
            j += 1;
        } else if j < bytes.len() && bytes.len() - j > 1 && bytes[j] == 0x5f && byte_is_alpha(
            bytes[j + 1],
        ) {
            j += 2;
        } else {
            break ;
        }
    }
    j
}

fn scan_ident(bytes: &[u8], i: usize) -> (e: usize)
    requires
        i < bytes@.len(),
    ensures
        e == ident_end(bytes@, i as int),
        i <= e <= bytes@.len(),
{
    let j: usize = if bytes[i] == 0x5f {
        i + 1
    } else {
        i
    };
    if j < bytes.len() && byte_is_alpha(bytes[j]) {
        scan_ident_tail(bytes, j + 1)
    } else {
        i
    }
}

fn scan_string(bytes: &[u8], k: usize, quote: u8) -> (r: Option<usize>)
    requires
        k <= bytes@.len(),
    ensures
        r matches Some(e) ==> string_end(bytes@, k as int, quote) == Some(e as int) && e
            <= bytes@.len(),
        r is None ==> string_end(bytes@, k as int, quote) is None,
{
    let mut j: usize = k;
    loop
        invariant
            k <= j <= bytes@.len(),
            string_end(bytes@, j as int, quote) == string_end(bytes@, k as int, quote),
        decreases bytes@.len() - j,
    {
        if j >= bytes.len() {
            return None;
        }
        let b = bytes[j];
        if b == quote {
            return Some(j + 1);
        } else if b == 0x5c {
            if bytes.len() - j > 1 && (bytes[j + 1] == 0x74 || bytes[j + 1] == 0x75 || bytes[j
                + 1] == 0x6e || bytes[j + 1] == 0x22) {
                j += 2;
            } else {
                return None;
            }
        } else {
            j += 1;
        }
    }
}

fn classify_word(bytes: &[u8], i: usize, e: usize) -> (kind: TokenKind)
    requires
        i <= e <= bytes@.len(),
    ensures
        kind == word_kind(bytes@, i as int, e as int),
{
    let ghost w = bytes@.subrange(i as int, e as int);
    let n: usize = e - i;
    if n == 3 && bytes[i] == 0x6c && bytes[i + 1] == 0x65 && bytes[i + 2] == 0x74 {
        assert(w =~= seq![0x6cu8, 0x65u8, 0x74u8]);
        TokenKind::LetKw
    } else if n == 2 && bytes[i] == 0x69 && bytes[i + 1] == 0x66 {
        assert(w =~= seq![0x69u8, 0x66u8]);
        assert(seq![0x6cu8, 0x65u8, 0x74u8].len() == 3);
        TokenKind::IfKw
    } else if n == 4 && bytes[i] == 0x74 && bytes[i + 1] == 0x68 && bytes[i + 2] == 0x65
        && bytes[i + 3] == 0x6e {
        assert(w =~= seq![0x74u8, 0x68u8, 0x65u8, 0x6eu8]);
        assert(seq![0x6cu8, 0x65u8, 0x74u8].len() == 3);
        assert(seq![0x69u8, 0x66u8].len() == 2);
        TokenKind::ThenKw
    } else if n == 4 && bytes[i] == 0x65 && bytes[i + 1] == 0x6c && bytes[i + 2] == 0x73
        && bytes[i + 3] == 0x65 {
        assert(w =~= seq![0x65u8, 0x6cu8, 0x73u8, 0x65u8]);
        assert(seq![0x6cu8, 0x65u8, 0x74u8].len() == 3);
        assert(seq![0x69u8, 0x66u8].len() == 2);
        assert(seq![0x74u8, 0x68u8, 0x65u8, 0x6eu8][0] == 0x74u8);
        assert(w[0] == 0x65u8);
        TokenKind::ElseKw
    } else {
        proof {
            let k1 = seq![0x6cu8, 0x65u8, 0x74u8];
            let k2 = seq![0x69u8, 0x66u8];
            let k3 = seq![0x74u8, 0x68u8, 0x65u8, 0x6eu8];
            let k4 = seq![0x65u8, 0x6cu8, 0x73u8, 0x65u8];
            if w == k1 {
                assert(w.len() == 3 && w[0] == k1[0] && w[1] == k1[1] && w[2] == k1[2]);
            }
            if w == k2 {
                assert(w.len() == 2 && w[0] == k2[0] && w[1] == k2[1]);
            }
            if w == k3 {
                assert(w.len() == 4 && w[0] == k3[0] && w[1] == k3[1] && w[2] == k3[2] && w[3]
                    == k3[3]);
            }
            if w == k4 {
                assert(w.len() == 4 && w[0] == k4[0] && w[1] == k4[1] && w[2] == k4[2] && w[3]
                    == k4[3]);
            }
        }
        TokenKind::Ident
    }
}

fn classify_punct(b: u8) -> (r: Option<TokenKind>)
    ensures
        r == punct_kind(b),
{
    if b == 0x3a {
        Some(TokenKind::Colon)
    } else if b == 0x2c {
        Some(TokenKind::Comma)
    } else if b == 0x2b {
        Some(TokenKind::Plus)
    } else if b == 0x2d {
        Some(TokenKind::Minus)
    } else if b == 0x2a {
        Some(TokenKind::Star)
    } else if b == 0x2f {
        Some(TokenKind::Slash)
    } else if b == 0x3d {
        Some(TokenKind::Equals)
    } else if b == 0x7b {
        Some(TokenKind::LBrace)
    } else if b == 0x7d {
        Some(TokenKind::RBrace)
    } else if b == 0x5b {
        Some(TokenKind::LBracket)
    } else if b == 0x5d {
        Some(TokenKind::RBracket)
    } else if b == 0x28 {
        Some(TokenKind::LParen)
    } else if b == 0x29 {
        Some(TokenKind::RParen)
    } else if b == 0x3c {
        Some(TokenKind::LAngle)
    } else if b == 0x3e {
        Some(TokenKind::RAngle)
    } else if b == 0x7c {
        Some(TokenKind::Pipe)
    } else {
        None
    }
}

/// The kind and the end of the token that starts at `i`.
fn scan_token(bytes: &[u8], i: usize) -> (r: (TokenKind, usize))
    requires
        i < bytes@.len(),
    ensures
        r.0 == next_token(bytes@, i as int).0,
        r.1 == next_token(bytes@, i as int).1,
        i < r.1 <= bytes@.len(),
{
    proof {
        lemma_next_token_advances(bytes@, i as int);
    }
    let b = bytes[i];
    if byte_in_class(ByteClass::Space, b) {
        (TokenKind::Whitespace, scan_run(bytes, i, ByteClass::Space))
    } else if byte_in_class(ByteClass::Digit, b) {
        let d = scan_run(bytes, i, ByteClass::Digit);
        if d < bytes.len() && bytes[d] == 0x2e {
            let f = scan_run(bytes, d + 1, ByteClass::Digit);
            if f > d + 1 {
                return (TokenKind::Fraction, f);
            }
        }
        (TokenKind::Integer, d)
    } else {
        let w = scan_ident(bytes, i);
        if w > i {
            (classify_word(bytes, i, w), w)
        } else if b == 0x22 || b == 0x27 {
            match scan_string(bytes, i + 1, b) {
                Some(e) => (TokenKind::String, e),
                None => (TokenKind::Error, scan_run(bytes, i + 1, ByteClass::Continuation)),
            }
        } else if b == 0x2d && bytes.len() - i > 1 && bytes[i + 1] == 0x2d {
            (TokenKind::Comment, scan_run(bytes, i + 2, ByteClass::CommentBody))
        } else if b == 0x3a && bytes.len() - i > 1 && bytes[i + 1] == 0x3a {
            (TokenKind::DoubleColon, i + 2)
        } else {
            match classify_punct(b) {
                Some(kind) => (kind, i + 1),
                None => (TokenKind::Error, scan_run(bytes, i + 1, ByteClass::Continuation)),
            }
        }
    }
}

/// A lexer over a text, at some position between two of its tokens.
pub struct Lexer<'a> {
    input: &'a str,
    pos: usize,
}

impl<'a> Lexer<'a> {
    #[verifier::type_invariant]
    spec fn well_formed(self) -> bool {
        &&& self.input.spec_bytes().len() <= u32::MAX
        &&& at_boundary(self.input.spec_bytes(), self.pos as int)
    }

    /// The bytes of the whole text.
    pub closed spec fn source(self) -> Seq<u8> {
        self.input.spec_bytes()
    }

    /// Where the next token starts.
    pub closed spec fn offset(self) -> int {
        self.pos as int
    }

    /// A lexer at the start of `input`, which is short enough for its
    /// offsets to fit in 32 bits.
    #[must_use]
    pub fn new(input: &'a str) -> (r: Self)
        requires
            input.spec_bytes().len() <= u32::MAX,
        ensures
            r.source() == input.spec_bytes(),
            r.offset() == 0,
    {
        proof {
            let s = input.spec_bytes();
            encode_utf8_valid_utf8(input@);
            if s.len() > 0 {
                is_char_boundary_start_end_of_seq(s);
                is_char_boundary_iff_not_is_continuation_byte(s, 0);
            }
        }
        Lexer { input, pos: 0 }
    }

    /// The next token, or `None` at the end of the text.
    pub fn next(&mut self) -> (r: Option<Token<'a>>)
        ensures
            final(self).source() == old(self).source(),
            0 <= old(self).offset() <= old(self).source().len(),
            old(self).offset() == old(self).source().len() ==> r is None && final(self).offset()
                == old(self).offset(),
            old(self).offset() < old(self).source().len() ==> r is Some && r->0@ == token_of(
                old(self).source(),
                lexeme_at(old(self).source(), old(self).offset()),
            ) && final(self).offset() == lexeme_at(old(self).source(), old(self).offset()).end,
    {
        proof {
            use_type_invariant(&*self);
        }
        let input: &'a str = self.input;
        let bytes = input.as_bytes();
        let start = self.pos;
        if start >= bytes.len() {
            return None;
        }
        let (kind, end) = scan_token(bytes, start);
        proof {
            let s = input.spec_bytes();
            encode_utf8_valid_utf8(input@);
            lemma_next_token_boundary(s, start as int);
            lemma_at_boundary(s, end as int);
            valid_utf8_split(s, end as int);
            lemma_at_boundary(s.subrange(0, end as int), start as int);
        }
        let (head, _) = input.split_at(end);
        let (_, text) = head.split_at(start);
        self.pos = end;
        let range = TextRange::new(TextSize::new(start as u32), TextSize::new(end as u32));
        proof {
            assert(text.spec_bytes() =~= input.spec_bytes().subrange(start as int, end as int));
            encode_utf8_decode_utf8(text@);
        }
        Some(Token { kind, text, range })
    }
}

/// All the tokens of `input`, in order. Their texts, one after the other,
/// are the input.
pub fn tokenize<'a>(input: &'a str) -> (tokens: Vec<Token<'a>>)
    requires
        input.spec_bytes().len() <= u32::MAX,
    ensures
        views(tokens@) == lexed(input.spec_bytes()),
        crate::lossless::text_of(views(tokens@), tokens@.len() as int) == input@,
{
    let ghost s = input.spec_bytes();
    let mut lexer = Lexer::new(input);
    let mut tokens: Vec<Token<'a>> = Vec::new();
    let ghost mut done: Seq<Lexeme> = Seq::empty();
    loop
        invariant
            lexer.source() == s,
            0 <= lexer.offset() <= s.len(),
            tokens@.len() == done.len(),
            forall|i: int|
                0 <= i < tokens@.len() ==> (#[trigger] tokens@[i])@ == token_of(s, done[i]),
            lex(s) =~= done + lex_from(s, lexer.offset()),
        ensures
            views(tokens@) == lexed(s),
        decreases s.len() - lexer.offset(),
    {
        let ghost at = lexer.offset();
        match lexer.next() {
            None => {
                assert(lex_from(s, at) =~= Seq::<Lexeme>::empty());
                assert(lex(s) =~= done);
                assert(views(tokens@) =~= lexed(s));
                break ;
            },
            Some(token) => {
                proof {
                    lemma_next_token_advances(s, at);
                    let lx = lexeme_at(s, at);
                    assert(lex_from(s, at) =~= seq![lx] + lex_from(s, lx.end));
                    done = done.push(lx);
                }
                tokens.push(token);
            },
        }
    }
    proof {
        crate::lossless::lemma_tokens_cover(input);
    }
    tokens
}

} // verus!
