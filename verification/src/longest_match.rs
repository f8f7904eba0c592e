//! The rules of the lexical grammar as properties of a text, and the law
//! that ties the lexer to them: a token is the longest text from its start
//! that any rule accepts, a keyword before an identifier where both accept
//! the same text, and an error only where no rule accepts any text.

use vstd::prelude::*;
use crate::lexical::{
    at_boundary, lemma_next_token_boundary, ident_end, ident_tail, in_class, is_alnum, is_alpha, is_digit, is_escape, is_space,
    keyword_of, lemma_ident_end_bounds, lemma_next_token_advances, lemma_run_end_bounds,
    lemma_string_end_bounds, next_token, punct_kind, run_end, string_end, ByteClass,
};
use crate::token_kind::TokenKind;

verus! {

/// Every byte of `w` is of class `c`.
pub open spec fn all_in(w: Seq<u8>, c: ByteClass) -> bool {
    forall|j: int| 0 <= j < w.len() ==> in_class(c, #[trigger] w[j])
}

/// `w` is an identifier: it starts with a letter or an underscore, holds
/// letters, digits and underscores only, and a letter follows each
/// underscore.
pub open spec fn is_ident_text(w: Seq<u8>) -> bool {
    &&& w.len() >= 1
    &&& is_alpha(w[0]) || w[0] == 0x5f
    &&& forall|j: int| 0 <= j < w.len() ==> is_alnum(#[trigger] w[j]) || w[j] == 0x5f
    &&& forall|j: int|
        0 <= j < w.len() && #[trigger] w[j] == 0x5f ==> j + 1 < w.len() && is_alpha(w[j + 1])
}

/// `w` is a fraction: digits, a dot, digits.
pub open spec fn is_fraction_text(w: Seq<u8>) -> bool {
    exists|k: int|
        1 <= k < w.len() - 1 && #[trigger] w[k] == 0x2e && all_in(w.subrange(0, k), ByteClass::Digit)
            && all_in(w.subrange(k + 1, w.len() as int), ByteClass::Digit)
}

/// `w` is a string: it opens with a quote, and read from there it closes
/// with the same quote at its very end, each backslash on the way followed
/// by an escape.
pub open spec fn is_string_text(w: Seq<u8>) -> bool {
    &&& w.len() >= 2
    &&& w[0] == 0x22 || w[0] == 0x27
    &&& string_end(w, 1, w[0]) == Some(w.len() as int)
}

/// `w` is a comment: two dashes, and no line feed after them.
pub open spec fn is_comment_text(w: Seq<u8>) -> bool {
    &&& w.len() >= 2
    &&& w[0] == 0x2d
    &&& w[1] == 0x2d
    &&& forall|j: int| 2 <= j < w.len() ==> #[trigger] w[j] != 0x0a
}

/// The rule for tokens of kind `kind` accepts the text `w`. No rule makes
/// an error token.
pub open spec fn accepts(kind: TokenKind, w: Seq<u8>) -> bool {
    match kind {
        TokenKind::Whitespace => w.len() >= 1 && all_in(w, ByteClass::Space),
        TokenKind::Integer => w.len() >= 1 && all_in(w, ByteClass::Digit),
        TokenKind::Fraction => is_fraction_text(w),
        TokenKind::Ident => is_ident_text(w),
        TokenKind::String => is_string_text(w),
        TokenKind::Comment => is_comment_text(w),
        TokenKind::LetKw | TokenKind::IfKw | TokenKind::ThenKw | TokenKind::ElseKw => keyword_of(w)
            == Some(kind),
        TokenKind::DoubleColon => w == seq![0x3au8, 0x3au8],
        TokenKind::Error => false,
        _ => w.len() == 1 && punct_kind(w[0]) == Some(kind),
    }
}

/// Whether `kind` is a keyword.
pub open spec fn is_keyword(kind: TokenKind) -> bool {
    kind == TokenKind::LetKw || kind == TokenKind::IfKw || kind == TokenKind::ThenKw || kind
        == TokenKind::ElseKw
}

proof fn lemma_run_covers(s: Seq<u8>, i: int, e: int, c: ByteClass)
    requires
        0 <= i <= e <= s.len(),
        forall|j: int| i <= j < e ==> in_class(c, #[trigger] s[j]),
    ensures
        run_end(s, i, c) >= e,
        e < s.len() && !in_class(c, s[e]) ==> run_end(s, i, c) == e,
    decreases e - i,
{
    if i < e {
        assert(in_class(c, s[i]));
        lemma_run_covers(s, i + 1, e, c);
    } else {
        lemma_run_end_bounds(s, i, c);
    }
}

/// Within an identifier that reaches to `e`, the scan from `k` reaches `e`.
proof fn lemma_ident_tail_covers(s: Seq<u8>, i: int, e: int, k: int)
    requires
        0 <= i < k <= e <= s.len(),
        is_ident_text(s.subrange(i, e)),
    ensures
        ident_tail(s, k) >= e,
    decreases e - k,
{
    let w = s.subrange(i, e);
    if k < e {
        assert(w[k - i] == s[k]);
        if is_alnum(s[k]) {
            lemma_ident_tail_covers(s, i, e, k + 1);
        } else {
            assert(w[k - i] == 0x5f);
            assert(w[k - i + 1] == s[k + 1]);
            lemma_ident_tail_covers(s, i, e, k + 2);
        }
    } else {
        lemma_ident_tail_at_least(s, k);
    }
}

proof fn lemma_ident_tail_at_least(s: Seq<u8>, k: int)
    requires
        0 <= k <= s.len(),
    ensures
        k <= ident_tail(s, k) <= s.len(),
    decreases s.len() - k,
{
    if k < s.len() && is_alnum(s[k]) {
        lemma_ident_tail_at_least(s, k + 1);
    } else if k + 1 < s.len() && s[k] == 0x5f && is_alpha(s[k + 1]) {
        lemma_ident_tail_at_least(s, k + 2);
    }
}

/// What the scan of an identifier has passed is an identifier so far, and
/// so is what it passes on the way to its end.
proof fn lemma_ident_tail_text(s: Seq<u8>, i: int, k: int)
    requires
        0 <= i < k <= s.len(),
        is_alpha(s[i]) || s[i] == 0x5f,
        is_alnum(s[k - 1]),
        forall|j: int| i <= j < k ==> is_alnum(#[trigger] s[j]) || s[j] == 0x5f,
        forall|j: int| i <= j < k && #[trigger] s[j] == 0x5f ==> j + 1 < k && is_alpha(s[j + 1]),
    ensures
        is_ident_text(s.subrange(i, ident_tail(s, k))),
        k <= ident_tail(s, k) <= s.len(),
    decreases s.len() - k,
{
    lemma_ident_tail_at_least(s, k);
    if k < s.len() && is_alnum(s[k]) {
        lemma_ident_tail_text(s, i, k + 1);
    } else if k + 1 < s.len() && s[k] == 0x5f && is_alpha(s[k + 1]) {
        lemma_ident_tail_text(s, i, k + 2);
    } else {
        let w = s.subrange(i, k);
        assert forall|j: int| 0 <= j < w.len() && #[trigger] w[j] == 0x5f implies j + 1 < w.len()
            && is_alpha(w[j + 1]) by {
            assert(s[i + j] == 0x5f);
        }
    }
}

/// Reading a string in a text and reading it in the part of the text up to
/// where it closes come to the same end.
proof fn lemma_string_local(s: Seq<u8>, i: int, e: int, k: int, quote: u8)
    requires
        0 <= i < k <= e <= s.len(),
    ensures
        string_end(s, k, quote) == Some(e) <==> string_end(s.subrange(i, e), k - i, quote) == Some(
            e - i,
        ),
    decreases e - k,
{
    let w = s.subrange(i, e);
    lemma_string_end_bounds(s, k, quote);
    lemma_string_end_bounds(w, k - i, quote);
    if k < e {
        assert(w[k - i] == s[k]);
        if s[k] == quote {
        } else if s[k] == 0x5c {
            if k + 1 < e {
                assert(w[k - i + 1] == s[k + 1]);
                if is_escape(s[k + 1]) {
                    lemma_string_local(s, i, e, k + 2, quote);
                }
            } else {
                if k + 1 < s.len() && is_escape(s[k + 1]) {
                    lemma_string_end_bounds(s, k + 2, quote);
                }
            }
        } else {
            lemma_string_local(s, i, e, k + 1, quote);
        }
    }
}

/// The text of a token is a text that the rule for its kind accepts,
/// unless the token is an error.
pub proof fn lemma_token_accepted(s: Seq<u8>, i: int)
    requires
        0 <= i < s.len(),
    ensures
        next_token(s, i).0 != TokenKind::Error ==> accepts(
            next_token(s, i).0,
            s.subrange(i, next_token(s, i).1),
        ),
{
    lemma_next_token_advances(s, i);
    let (kind, e) = next_token(s, i);
    let w = s.subrange(i, e);
    let b = s[i];
    assert(w[0] == b);
    if is_space(b) {
        lemma_run_end_bounds(s, i, ByteClass::Space);
        assert forall|j: int| 0 <= j < w.len() implies in_class(ByteClass::Space, #[trigger] w[j]) by {
            assert(in_class(ByteClass::Space, s[i + j]));
        }
    } else if is_digit(b) {
        lemma_run_end_bounds(s, i, ByteClass::Digit);
        let d = run_end(s, i, ByteClass::Digit);
        if kind == TokenKind::Fraction {
            lemma_run_end_bounds(s, d + 1, ByteClass::Digit);
            let k = d - i;
            let head = w.subrange(0, k);
            let tail = w.subrange(k + 1, w.len() as int);
            assert(w[k] == s[d]);
            assert forall|j: int| 0 <= j < head.len() implies in_class(
                ByteClass::Digit,
                #[trigger] head[j],
            ) by {
                assert(in_class(ByteClass::Digit, s[i + j]));
            }
            assert forall|j: int| 0 <= j < tail.len() implies in_class(
                ByteClass::Digit,
                #[trigger] tail[j],
            ) by {
                assert(in_class(ByteClass::Digit, s[d + 1 + j]));
            }
        } else {
            assert forall|j: int| 0 <= j < w.len() implies in_class(
                ByteClass::Digit,
                #[trigger] w[j],
            ) by {
                assert(in_class(ByteClass::Digit, s[i + j]));
            }
        }
    } else if ident_end(s, i) > i {
        let j = if b == 0x5f {
            i + 1
        } else {
            i
        };
        lemma_ident_tail_text(s, i, j + 1);
    } else if b == 0x22 || b == 0x27 {
        if string_end(s, i + 1, b) is Some {
            lemma_string_end_bounds(s, i + 1, b);
            lemma_string_local(s, i, e, i + 1, b);
        }
    } else if b == 0x2d && i + 1 < s.len() && s[i + 1] == 0x2d {
        lemma_run_end_bounds(s, i + 2, ByteClass::CommentBody);
        assert(w[1] == s[i + 1]);
        assert forall|j: int| 2 <= j < w.len() implies #[trigger] w[j] != 0x0a by {
            assert(in_class(ByteClass::CommentBody, s[i + j]));
        }
    } else if b == 0x3a && i + 1 < s.len() && s[i + 1] == 0x3a {
        assert(w =~= seq![0x3au8, 0x3au8]);
    } else {
    }
}

/// No rule accepts a text from the start of a token that is longer than the
/// token; of the rules that accept the text of the token, the token has the
/// kind of one, the keyword where a keyword and the identifier both do; and
/// where any rule accepts any text from there, the token is no error.
pub proof fn lemma_longest_match(s: Seq<u8>, i: int, kind: TokenKind, e: int)
    requires
        0 <= i < e <= s.len(),
        accepts(kind, s.subrange(i, e)),
    ensures
        next_token(s, i).0 != TokenKind::Error,
        e <= next_token(s, i).1,
        e == next_token(s, i).1 ==> kind == next_token(s, i).0 || (kind == TokenKind::Ident
            && is_keyword(next_token(s, i).0)),
{
    lemma_next_token_advances(s, i);
    let w = s.subrange(i, e);
    let b = s[i];
    assert(w[0] == b);
    assert forall|j: int| 0 <= j < w.len() implies #[trigger] w[j] == s[i + j] by {}
    let (found, end) = next_token(s, i);
    match kind {
        TokenKind::Whitespace => {
            assert forall|j: int| i <= j < e implies in_class(ByteClass::Space, #[trigger] s[j]) by {
                assert(in_class(ByteClass::Space, w[j - i]));
            }
            lemma_run_covers(s, i, e, ByteClass::Space);
        },
        TokenKind::Integer => {
            assert forall|j: int| i <= j < e implies in_class(ByteClass::Digit, #[trigger] s[j]) by {
                assert(in_class(ByteClass::Digit, w[j - i]));
            }
            lemma_run_covers(s, i, e, ByteClass::Digit);
            let d = run_end(s, i, ByteClass::Digit);
            lemma_run_end_bounds(s, i, ByteClass::Digit);
            if d < s.len() {
                lemma_run_end_bounds(s, d + 1, ByteClass::Digit);
            }
        },
        TokenKind::Fraction => {
            let k = choose|k: int|
                1 <= k < w.len() - 1 && #[trigger] w[k] == 0x2e && all_in(
                    w.subrange(0, k),
                    ByteClass::Digit,
                ) && all_in(w.subrange(k + 1, w.len() as int), ByteClass::Digit);
            let head = w.subrange(0, k);
            let tail = w.subrange(k + 1, w.len() as int);
            assert forall|j: int| i <= j < i + k implies in_class(
                ByteClass::Digit,
                #[trigger] s[j],
            ) by {
                assert(in_class(ByteClass::Digit, head[j - i]));
            }
            assert forall|j: int| i + k + 1 <= j < e implies in_class(
                ByteClass::Digit,
                #[trigger] s[j],
            ) by {
                assert(in_class(ByteClass::Digit, tail[j - i - k - 1]));
            }
            assert(s[i + k] == w[k]);
            lemma_run_covers(s, i, i + k, ByteClass::Digit);
            lemma_run_covers(s, i + k + 1, e, ByteClass::Digit);
            assert(in_class(ByteClass::Digit, head[0]));
        },
        TokenKind::Ident => {
            lemma_ident_covers(s, i, e);
        },
        TokenKind::LetKw | TokenKind::IfKw | TokenKind::ThenKw | TokenKind::ElseKw => {
            lemma_keyword_is_ident(w);
            lemma_ident_covers(s, i, e);
        },
        TokenKind::String => {
            lemma_string_local(s, i, e, i + 1, b);
            lemma_ident_end_bounds(s, i);
        },
        TokenKind::Comment => {
            assert(w[1] == s[i + 1]);
            assert forall|j: int| i + 2 <= j < e implies in_class(
                ByteClass::CommentBody,
                #[trigger] s[j],
            ) by {
                assert(w[j - i] != 0x0a);
            }
            lemma_run_covers(s, i + 2, e, ByteClass::CommentBody);
            lemma_ident_end_bounds(s, i);
        },
        TokenKind::DoubleColon => {
            let c = seq![0x3au8, 0x3au8];
            assert(c.len() == 2 && c[0] == 0x3au8 && c[1] == 0x3au8);
            assert(w[1] == s[i + 1]);
            lemma_ident_end_bounds(s, i);
        },
        TokenKind::Error => {},
        _ => {
            lemma_ident_end_bounds(s, i);
            if i + 1 < s.len() {
                lemma_run_end_bounds(s, i + 2, ByteClass::CommentBody);
            }
        },
    }
}

/// An error token is one character: it ends where the next character
/// starts, and no character starts inside it.
pub proof fn lemma_error_is_one_character(s: Seq<u8>, i: int)
    requires
        vstd::utf8::valid_utf8(s),
        0 <= i < s.len(),
    ensures
        next_token(s, i).0 == TokenKind::Error ==> at_boundary(s, next_token(s, i).1)
            && forall|j: int|
            i < j < next_token(s, i).1 ==> vstd::utf8::is_continuation_byte(#[trigger] s[j]),
{
    lemma_next_token_boundary(s, i);
    lemma_run_end_bounds(s, i + 1, ByteClass::Continuation);
}

/// A keyword is spelled like an identifier.
proof fn lemma_keyword_is_ident(w: Seq<u8>)
    requires
        keyword_of(w) is Some,
    ensures
        is_ident_text(w),
{
    let l = seq![0x6cu8, 0x65u8, 0x74u8];
    let f = seq![0x69u8, 0x66u8];
    let t = seq![0x74u8, 0x68u8, 0x65u8, 0x6eu8];
    let e = seq![0x65u8, 0x6cu8, 0x73u8, 0x65u8];
    assert(l[0] == 0x6cu8 && l[1] == 0x65u8 && l[2] == 0x74u8);
    assert(f[0] == 0x69u8 && f[1] == 0x66u8);
    assert(t[0] == 0x74u8 && t[1] == 0x68u8 && t[2] == 0x65u8 && t[3] == 0x6eu8);
    assert(e[0] == 0x65u8 && e[1] == 0x6cu8 && e[2] == 0x73u8 && e[3] == 0x65u8);
}

/// An identifier from `i` to `e` is found by the lexer at `i`, whole.
proof fn lemma_ident_covers(s: Seq<u8>, i: int, e: int)
    requires
        0 <= i < e <= s.len(),
        is_ident_text(s.subrange(i, e)),
    ensures
        ident_end(s, i) >= e,
        !is_space(s[i]),
        !is_digit(s[i]),
{
    let w = s.subrange(i, e);
    assert(w[0] == s[i]);
    if s[i] == 0x5f {
        assert(w[1] == s[i + 1]);
        lemma_ident_tail_covers(s, i, e, i + 2);
    } else {
        lemma_ident_tail_covers(s, i, e, i + 1);
    }
}

} // verus!
