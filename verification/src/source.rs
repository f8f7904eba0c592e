//! A cursor over the tokens that sees no trivia.

use vstd::prelude::*;
use crate::lexer::{views, Token, TokenView};
use crate::text::TextRange;
use crate::token_kind::TokenKind;

verus! {

/// The first index at or after `i` of a token that is not trivia, or the
/// number of tokens where only trivia are left.
pub open spec fn skip_trivia(tokens: Seq<TokenView>, i: int) -> int
    decreases tokens.len() - i,
{
    if 0 <= i < tokens.len() && tokens[i].kind.is_trivia() {
        skip_trivia(tokens, i + 1)
    } else {
        i
    }
}

/// The index of the token that is not trivia and has `n` such tokens between
/// `i` and itself, or the number of tokens where there is none.
pub open spec fn nth_significant(tokens: Seq<TokenView>, i: int, n: nat) -> int
    decreases n,
{
    let j = skip_trivia(tokens, i);
    if n == 0 || j >= tokens.len() {
        j
    } else {
        nth_significant(tokens, j + 1, (n - 1) as nat)
    }
}

pub proof fn lemma_skip_trivia(tokens: Seq<TokenView>, i: int)
    requires
        0 <= i <= tokens.len(),
    ensures
        i <= skip_trivia(tokens, i) <= tokens.len(),
        skip_trivia(tokens, i) < tokens.len() ==> !tokens[skip_trivia(tokens, i)].kind.is_trivia(),
        forall|j: int| i <= j < skip_trivia(tokens, i) ==> (#[trigger] tokens[j]).kind.is_trivia(),
        skip_trivia(tokens, skip_trivia(tokens, i)) == skip_trivia(tokens, i),
    decreases tokens.len() - i,
{
    if i < tokens.len() && tokens[i].kind.is_trivia() {
        lemma_skip_trivia(tokens, i + 1);
    }
}

/// A cursor over a token stream. It stands before a token that is not
/// trivia, or at the end; trivia before that token are of no account.
pub struct Source<'t, 'input> {
    tokens: &'t [Token<'input>],
    cursor: usize,
}

impl<'t, 'input> Source<'t, 'input> {
    #[verifier::type_invariant]
    spec fn in_bounds(self) -> bool {
        self.cursor <= self.tokens@.len()
    }

    /// The whole token stream.
    pub closed spec fn tokens(self) -> Seq<TokenView> {
        views(self.tokens@)
    }

    /// The index of the token that the cursor stands before, or the number
    /// of tokens where it stands at the end.
    pub closed spec fn position(self) -> int {
        skip_trivia(views(self.tokens@), self.cursor as int)
    }

    /// The kind of the token that the cursor stands before.
    pub open spec fn current_kind(self) -> Option<TokenKind> {
        if self.position() < self.tokens().len() {
            Some(self.tokens()[self.position()].kind)
        } else {
            None
        }
    }

    pub fn new(tokens: &'t [Token<'input>]) -> (r: Self)
        ensures
            r.tokens() == views(tokens@),
            r.position() == skip_trivia(views(tokens@), 0),
    {
        Self { tokens, cursor: 0 }
    }

    /// The index of the token that is not trivia and has `skip` such tokens
    /// between the cursor and itself, or the number of tokens.
    pub open spec fn peek_index(self, skip: nat) -> int {
        nth_significant(self.tokens(), self.position(), skip)
    }

    /// Steps over the token that the cursor stands before, and hands it out.
    pub fn next_token(&mut self) -> (r: Option<&'t Token<'input>>)
        ensures
            final(self).tokens() == old(self).tokens(),
            0 <= old(self).position() <= old(self).tokens().len(),
            r is Some <==> old(self).position() < old(self).tokens().len(),
            r matches Some(t) ==> t@ == old(self).tokens()[old(self).position()],
            final(self).position() == (if r is Some {
                skip_trivia(old(self).tokens(), old(self).position() + 1)
            } else {
                old(self).position()
            }),
    {
        self.eat_trivia();
        proof {
            use_type_invariant(&*self);
            lemma_skip_trivia(views(self.tokens@), self.cursor as int);
        }
        if self.cursor >= self.tokens.len() {
            return None;
        }
        let tokens: &'t [Token<'input>] = self.tokens;
        let token = &tokens[self.cursor];
        self.cursor += 1;
        Some(token)
    }

    /// The kind of the token that is not trivia and has `skip` such tokens
    /// before it, counted from the cursor. The cursor stays where it is.
    pub fn peek_nth_kind(&mut self, skip: usize) -> (r: Option<TokenKind>)
        ensures
            final(self).tokens() == old(self).tokens(),
            final(self).position() == old(self).position(),
            0 <= old(self).position() <= old(self).tokens().len() <= usize::MAX,
            r is Some <==> old(self).peek_index(skip as nat) < old(self).tokens().len(),
            r matches Some(k) ==> k == old(self).tokens()[old(self).peek_index(skip as nat)].kind,
            skip == 0 ==> r == old(self).current_kind(),
    {
        self.peek_kind_raw(skip)
    }

    /// The token that is not trivia and has `skip` such tokens before it,
    /// counted from the cursor. The cursor stays where it is.
    pub fn peek_nth_token(&mut self, skip: usize) -> (r: Option<&'t Token<'input>>)
        ensures
            final(self).tokens() == old(self).tokens(),
            final(self).position() == old(self).position(),
            0 <= old(self).position() <= old(self).tokens().len(),
            r is Some <==> old(self).peek_index(skip as nat) < old(self).tokens().len(),
            r matches Some(t) ==> t@ == old(self).tokens()[old(self).peek_index(skip as nat)],
            skip == 0 ==> old(self).peek_index(skip as nat) == old(self).position(),
    {
        self.peek_token_raw(skip)
    }

    /// The range of the last token of the stream, trivia or not.
    pub fn last_token_range(&self) -> (r: Option<TextRange>)
        ensures
            r == (if self.tokens().len() == 0 {
                None
            } else {
                Some(self.tokens().last().range)
            }),
    {
        match self.tokens.last() {
            Some(token) => Some(token.range),
            None => None,
        }
    }

    fn peek_kind_raw(&mut self, skip: usize) -> (r: Option<TokenKind>)
        ensures
            final(self).tokens() == old(self).tokens(),
            final(self).position() == old(self).position(),
            0 <= old(self).position() <= old(self).tokens().len() <= usize::MAX,
            r is Some <==> old(self).peek_index(skip as nat) < old(self).tokens().len(),
            r matches Some(k) ==> k == old(self).tokens()[old(self).peek_index(skip as nat)].kind,
            skip == 0 ==> r == old(self).current_kind(),
    {
        match self.peek_token_raw(skip) {
            Some(token) => Some(token.kind),
            None => None,
        }
    }

    fn peek_token_raw(&mut self, skip: usize) -> (r: Option<&'t Token<'input>>)
        ensures
            final(self).tokens() == old(self).tokens(),
            final(self).position() == old(self).position(),
            0 <= old(self).position() <= old(self).tokens().len() <= usize::MAX,
            r is Some <==> old(self).peek_index(skip as nat) < old(self).tokens().len(),
            r matches Some(t) ==> t@ == old(self).tokens()[old(self).peek_index(skip as nat)],
            skip == 0 ==> old(self).peek_index(skip as nat) == old(self).position(),
    {
        self.eat_trivia();
        proof {
            use_type_invariant(&*self);
            lemma_skip_trivia(views(self.tokens@), self.cursor as int);
        }
        let tokens: &'t [Token<'input>] = self.tokens;
        let ghost start = self.cursor as int;
        let _ = tokens.len();
        let mut cursor: usize = self.cursor;
        let mut non_trivia_tokens_found: usize = 0;
        while cursor < tokens.len()
            invariant
                tokens@ == self.tokens@,
                self.tokens@ == old(self).tokens@,
                start == self.cursor,
                start == old(self).position(),
                skip_trivia(views(tokens@), start) == start,
                start <= cursor <= tokens@.len(),
                non_trivia_tokens_found <= skip,
                nth_significant(views(tokens@), cursor as int, (skip - non_trivia_tokens_found) as nat)
                    == nth_significant(views(tokens@), start, skip as nat),
            decreases tokens@.len() - cursor,
        {
            let token = &tokens[cursor];
            cursor += 1;
            if token.kind.is_trivia() {
                continue ;
            }
            if non_trivia_tokens_found == skip {
                return Some(token);
            }
            non_trivia_tokens_found += 1;
        }
        None
    }

    fn eat_trivia(&mut self)
        ensures
            final(self).tokens() == old(self).tokens(),
            final(self).position() == old(self).position(),
            final(self).tokens@ == old(self).tokens@,
            final(self).cursor == old(self).position(),
    {
        proof {
            use_type_invariant(&*self);
            lemma_skip_trivia(views(self.tokens@), self.cursor as int);
        }
        loop
            invariant
                self.tokens@ == old(self).tokens@,
                self.cursor <= self.tokens@.len(),
                skip_trivia(views(self.tokens@), self.cursor as int) == old(self).position(),
            ensures
                self.tokens@ == old(self).tokens@,
                self.cursor == old(self).position(),
                skip_trivia(views(self.tokens@), self.cursor as int) == old(self).position(),
            decreases self.tokens@.len() - self.cursor,
        {
            if !self.at_trivia() {
                break ;
            }
            self.cursor += 1;
        }
    }

    fn at_trivia(&self) -> (r: bool)
        ensures
            r == (self.cursor < self.tokens@.len() && views(
                self.tokens@,
            )[self.cursor as int].kind.is_trivia()),
            r ==> self.cursor < usize::MAX,
    {
        proof {
            use_type_invariant(self);
        }
        if self.cursor < self.tokens.len() {
            self.tokens[self.cursor].kind.is_trivia()
        } else {
            false
        }
    }
}

} // verus!
