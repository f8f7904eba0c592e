//! A set of token kinds held as a bitmask.

use vstd::prelude::*;
use crate::token_kind::TokenKind;

verus! {

/// The bit that stands for a kind: bit `n` for the kind of ordinal `n`.
pub closed spec fn spec_mask(kind: TokenKind) -> u64 {
    1u64 << (kind.spec_ordinal() as u64)
}

#[verifier::when_used_as_spec(spec_mask)]
fn mask(kind: TokenKind) -> (r: u64)
    ensures
        r == spec_mask(kind),
{
    let n: u8 = kind.ordinal();
    1u64 << (n as u64)
}

/// A set of token kinds. Each bit of the mask says whether the kind of
/// that ordinal is in the set, so there can be no more kinds than bits.
#[derive(Debug, Clone, Copy)]
pub struct TokenSet(u64);

impl View for TokenSet {
    type V = Set<TokenKind>;

    closed spec fn view(&self) -> Set<TokenKind> {
        Set::new(|k: TokenKind| self.0 & spec_mask(k) != 0)
    }
}

impl Default for TokenSet {
    fn default() -> (r: Self)
        ensures
            r@ == Set::<TokenKind>::empty(),
    {
        TokenSet::empty()
    }
}

impl TokenSet {
    /// The set that holds no kind.
    pub fn empty() -> (r: Self)
        ensures
            r@ == Set::<TokenKind>::empty(),
    {
        let r = TokenSet(0);
        proof {
            assert forall|k: TokenKind| !r@.contains(k) by {
                let m = spec_mask(k);
                assert(0u64 & m == 0) by (bit_vector);
            }
            assert(r@ =~= Set::<TokenKind>::empty());
        }
        r
    }

    /// The set of the kinds listed.
    pub fn new<const LEN: usize>(kinds: [TokenKind; LEN]) -> (r: Self)
        ensures
            r@ == kinds@.to_set(),
    {
        let mut value: u64 = 0;
        let mut idx: usize = 0;
        proof {
            assert forall|k: TokenKind| !TokenSet(value)@.contains(k) by {
                let m = spec_mask(k);
                assert(0u64 & m == 0) by (bit_vector);
            }
        }
        while idx < kinds.len()
            invariant
                idx <= kinds@.len(),
                kinds@.len() == LEN,
                forall|k: TokenKind|
                    TokenSet(value)@.contains(k) <==> kinds@.subrange(0, idx as int).contains(k),
            decreases kinds@.len() - idx,
        {
            let kind = kinds[idx];
            let ghost before = value;
            value = value | mask(kind);
            proof {
                assert forall|k: TokenKind|
                    TokenSet(value)@.contains(k) <==> kinds@.subrange(0, idx + 1).contains(
                        k,
                    ) by {
                    lemma_mask_or(before, kind, k);
                    let prev = kinds@.subrange(0, idx as int);
                    let next = kinds@.subrange(0, idx + 1);
                    assert(TokenSet(before)@.contains(k) <==> prev.contains(k));
                    assert(TokenSet(value)@.contains(k) <==> (TokenSet(before)@.contains(k) || k
                        == kind));
                    if prev.contains(k) {
                        let j = choose|j: int| 0 <= j < prev.len() && prev[j] == k;
                        assert(next[j] == k);
                    }
                    if k == kind {
                        assert(next[idx as int] == k);
                    }
                    if next.contains(k) {
                        let j = choose|j: int| 0 <= j < next.len() && next[j] == k;
                        if j < idx {
                            assert(prev[j] == k);
                        }
                    }
                }
            }
            idx += 1;
        }
        let r = TokenSet(value);
        proof {
            assert(kinds@.subrange(0, idx as int) =~= kinds@);
            assert(r@ =~= kinds@.to_set());
        }
        r
    }

    pub fn contains(self, kind: TokenKind) -> (r: bool)
        ensures
            r == self@.contains(kind),
    {
        self.0 & mask(kind) != 0
    }

    pub fn union(self, other: Self) -> (r: Self)
        ensures
            r@ == self@.union(other@),
    {
        let r = TokenSet(self.0 | other.0);
        proof {
            assert forall|k: TokenKind| r@.contains(k) <==> (self@.contains(k) || other@.contains(
                k,
            )) by {
                let a = self.0;
                let b = other.0;
                let m = spec_mask(k);
                assert(((a | b) & m != 0) <==> (a & m != 0 || b & m != 0)) by (bit_vector);
            }
            assert(r@ =~= self@.union(other@));
        }
        r
    }

    pub fn plus(self, kind: TokenKind) -> (r: Self)
        ensures
            r@ == self@.insert(kind),
    {
        let r = TokenSet(self.0 | mask(kind));
        proof {
            assert forall|k: TokenKind| r@.contains(k) <==> (self@.contains(k) || k == kind) by {
                lemma_mask_or(self.0, kind, k);
            }
            assert(r@ =~= self@.insert(kind));
        }
        r
    }

    pub fn minus(self, kind: TokenKind) -> (r: Self)
        ensures
            r@ == self@.remove(kind),
    {
        let r = TokenSet(self.0 & !mask(kind));
        proof {
            assert forall|k: TokenKind| r@.contains(k) <==> (self@.contains(k) && k != kind) by {
                lemma_mask_and_not(self.0, kind, k);
            }
            assert(r@ =~= self@.remove(kind));
        }
        r
    }
}

/// Two kinds have the same bit only if they are the same kind, and no bit is zero.
proof fn lemma_mask_distinct(a: TokenKind, b: TokenKind)
    ensures
        spec_mask(a) != 0,
        a != b ==> spec_mask(a) & spec_mask(b) == 0,
        spec_mask(a) & spec_mask(a) == spec_mask(a),
{
    let i = a.spec_ordinal() as u64;
    let j = b.spec_ordinal() as u64;
    assert(i < 64 && j < 64);
    assert((1u64 << i) != 0) by (bit_vector)
        requires
            i < 64,
    ;
    assert(i != j ==> (1u64 << i) & (1u64 << j) == 0) by (bit_vector)
        requires
            i < 64,
            j < 64,
    ;
    assert((1u64 << i) & (1u64 << i) == (1u64 << i)) by (bit_vector);
}

proof fn lemma_mask_or(bits: u64, added: TokenKind, k: TokenKind)
    ensures
        ((bits | spec_mask(added)) & spec_mask(k) != 0) <==> (bits & spec_mask(k) != 0 || k
            == added),
{
    lemma_mask_distinct(added, k);
    let a = spec_mask(added);
    let m = spec_mask(k);
    assert((bits | a) & m == (bits & m) | (a & m)) by (bit_vector);
    assert(((bits & m) | (a & m)) != 0 <==> ((bits & m) != 0 || (a & m) != 0)) by (bit_vector);
}

proof fn lemma_mask_and_not(bits: u64, removed: TokenKind, k: TokenKind)
    ensures
        ((bits & !spec_mask(removed)) & spec_mask(k) != 0) <==> (bits & spec_mask(k) != 0 && k
            != removed),
{
    lemma_mask_distinct(removed, k);
    let a = spec_mask(removed);
    let m = spec_mask(k);
    if k == removed {
        assert((bits & !m) & m == 0) by (bit_vector);
    } else {
        assert(a & m == 0 ==> (bits & !a) & m == bits & m) by (bit_vector);
    }
}

} // verus!
