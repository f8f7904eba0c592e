//! Nothing of the input is lost: the text of the tokens, and so the text of
//! the leaves of the tree, is the input.

use vstd::prelude::*;
use vstd::string::*;
use vstd::utf8::*;
use crate::lexer::{lexed, token_of, TokenView};
use crate::lexical::{
    at_boundary, lemma_at_boundary, lemma_next_token_advances, lemma_next_token_boundary, lex,
    lex_from, lexeme_at,
};
use crate::sink::{text_bytes, token_leaves};
use crate::tree::{leaf_text, leaves, TreeStep};

verus! {

/// The texts of `leaves`, one after the other.
pub open spec fn joined(leaves: Seq<(u16, Seq<char>)>) -> Seq<char>
    decreases leaves.len(),
{
    if leaves.len() == 0 {
        Seq::empty()
    } else {
        joined(leaves.drop_last()) + leaves.last().1
    }
}

/// The text of the first `n` tokens, one after the other.
pub open spec fn text_of(tokens: Seq<TokenView>, n: int) -> Seq<char>
    decreases n,
{
    if n <= 0 {
        Seq::empty()
    } else {
        text_of(tokens, n - 1) + tokens[n - 1].text
    }
}

/// The texts of the first `n` tokens as leaves, joined, are the text of
/// those tokens.
pub proof fn lemma_leaves_text(tokens: Seq<TokenView>, n: int)
    ensures
        joined(token_leaves(tokens, n)) == text_of(tokens, n),
    decreases n,
{
    if n > 0 {
        lemma_leaves_text(tokens, n - 1);
        assert(token_leaves(tokens, n).drop_last() =~= token_leaves(tokens, n - 1));
    }
}

/// The lexemes from `i` on lie end to end from `i` to the end of the text,
/// none of them empty, each ending where a character starts.
pub proof fn lemma_lexemes_contiguous(s: Seq<u8>, i: int)
    requires
        valid_utf8(s),
        0 <= i <= s.len(),
        at_boundary(s, i),
    ensures
        ({
            let l = lex_from(s, i);
            &&& (l.len() == 0 <==> i == s.len())
            &&& l.len() > 0 ==> l[0].start == i && l.last().end == s.len()
            &&& forall|j: int|
                0 <= j < l.len() ==> i <= (#[trigger] l[j]).start < l[j].end <= s.len()
                    && at_boundary(s, l[j].end)
            &&& forall|j: int| 0 <= j < l.len() - 1 ==> (#[trigger] l[j + 1]).start == l[j].end
        }),
    decreases s.len() - i,
{
    if i < s.len() {
        lemma_next_token_advances(s, i);
        lemma_next_token_boundary(s, i);
        let first = lexeme_at(s, i);
        let end = first.end;
        let rest = lex_from(s, end);
        let l = lex_from(s, i);
        lemma_lexemes_contiguous(s, end);
        assert(l =~= seq![first] + rest);
        assert forall|j: int| 0 <= j < l.len() implies i <= (#[trigger] l[j]).start < l[j].end
            <= s.len() && at_boundary(s, l[j].end) by {
            if j > 0 {
                assert(l[j] == rest[j - 1]);
            }
        }
        assert forall|j: int| 0 <= j < l.len() - 1 implies (#[trigger] l[j + 1]).start
            == l[j].end by {
            assert(l[j + 1] == rest[j]);
            if j > 0 {
                assert(l[j] == rest[j - 1]);
                assert(rest[(j - 1) + 1].start == rest[j - 1].end);
            } else {
                assert(l[0] == first);
                assert(rest[0].start == end);
            }
        }
        if rest.len() > 0 {
            assert(l.last() == rest.last());
        }
    }
}

/// The first `n` tokens of a text hold the bytes of the text up to the end
/// of the last of them, and their texts joined are those bytes decoded.
pub proof fn lemma_tokens_prefix(s: Seq<u8>, n: int)
    requires
        valid_utf8(s),
        s.len() <= u32::MAX,
        0 <= n <= lexed(s).len(),
    ensures
        text_bytes(lexed(s), n) == (if n == 0 {
            0
        } else {
            lex(s)[n - 1].end
        }),
        text_of(lexed(s), n) == decode_utf8(
            s.subrange(
                0,
                if n == 0 {
                    0
                } else {
                    lex(s)[n - 1].end
                },
            ),
        ),
    decreases n,
{
    if s.len() > 0 {
        is_char_boundary_start_end_of_seq(s);
        is_char_boundary_iff_not_is_continuation_byte(s, 0);
    }
    lemma_lexemes_contiguous(s, 0);
    let l = lex(s);
    let tokens = lexed(s);
    if n == 0 {
        assert(s.subrange(0, 0) =~= Seq::<u8>::empty());
        assert(decode_utf8(Seq::<u8>::empty()) =~= Seq::<char>::empty());
    } else {
        lemma_tokens_prefix(s, n - 1);
        let lx = l[n - 1];
        let token = tokens[n - 1];
        assert(token == token_of(s, lx));
        let start = lx.start;
        let end = lx.end;
        if n - 1 > 0 {
            assert(l[(n - 2) + 1].start == l[n - 2].end);
        }
        // The bytes up to the end of the token split at its start.
        let upto = s.subrange(0, end);
        lemma_at_boundary(s, end);
        valid_utf8_split(s, end);
        // The text of the token is its bytes decoded, and they are its text encoded.
        assert(valid_utf8(s.subrange(start, end))) by {
            assert(at_boundary(upto, start)) by {
                if start > 0 {
                    assert(at_boundary(s, l[n - 2].end));
                } else if s.len() > 0 {
                    assert(!is_continuation_byte(s[0]));
                }
                assert(upto[start] == s[start]);
            }
            lemma_at_boundary(upto, start);
            valid_utf8_split(upto, start);
            assert(upto.subrange(start, upto.len() as int) =~= s.subrange(start, end));
        }
        decode_utf8_encode_utf8(s.subrange(start, end));
        assert(encode_utf8(token.text).len() == end - start);
        assert(at_boundary(upto, start)) by {
            if start > 0 {
                assert(at_boundary(s, l[n - 2].end));
            } else if s.len() > 0 {
                assert(!is_continuation_byte(s[0]));
            }
            assert(upto[start] == s[start]);
        }
        lemma_at_boundary(upto, start);
        decode_utf8_split(upto, start);
        assert(upto.subrange(0, start) =~= s.subrange(0, start));
        assert(upto.subrange(start, upto.len() as int) =~= s.subrange(start, end));
    }
}

/// The text of the leaves of `steps` is the texts of its leaves joined.
pub proof fn lemma_leaf_text(steps: Seq<TreeStep>)
    ensures
        leaf_text(steps) == joined(leaves(steps)),
    decreases steps.len(),
{
    if steps.len() > 0 {
        lemma_leaf_text(steps.drop_last());
        match steps.last() {
            TreeStep::Leaf(kind, text) => {
                assert(leaves(steps).drop_last() =~= leaves(steps.drop_last()));
            },
            _ => {
                assert(leaf_text(steps) =~= leaf_text(steps.drop_last()));
            },
        }
    }
}

/// The tokens of a text, joined, are the text: lexing loses nothing and
/// adds nothing.
pub proof fn lemma_tokens_cover(input: &str)
    requires
        input.spec_bytes().len() <= u32::MAX,
    ensures
        text_bytes(lexed(input.spec_bytes()), lexed(input.spec_bytes()).len() as int)
            == input.spec_bytes().len(),
        text_of(lexed(input.spec_bytes()), lexed(input.spec_bytes()).len() as int) == input@,
{
    let s = input.spec_bytes();
    let tokens = lexed(s);
    encode_utf8_valid_utf8(input@);
    encode_utf8_decode_utf8(input@);
    if s.len() > 0 {
        is_char_boundary_start_end_of_seq(s);
        is_char_boundary_iff_not_is_continuation_byte(s, 0);
    }
    lemma_lexemes_contiguous(s, 0);
    lemma_tokens_prefix(s, tokens.len() as int);
    if tokens.len() > 0 {
        assert(lex(s).last().end == s.len());
        assert(s.subrange(0, s.len() as int) =~= s);
    } else {
        assert(s.subrange(0, 0) =~= s);
    }
}

/// A tree whose leaves are the tokens of a text has the text as the text
/// of its leaves, byte for byte.
pub proof fn lemma_tree_text(steps: Seq<TreeStep>, input: &str)
    requires
        input.spec_bytes().len() <= u32::MAX,
        leaves(steps) == token_leaves(
            lexed(input.spec_bytes()),
            lexed(input.spec_bytes()).len() as int,
        ),
    ensures
        leaf_text(steps) == input@,
{
    lemma_leaf_text(steps);
    lemma_tokens_cover(input);
    lemma_leaves_text(lexed(input.spec_bytes()), lexed(input.spec_bytes()).len() as int);
}

} // verus!
