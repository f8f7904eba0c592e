//! Identifiers.

use vstd::prelude::*;
use crate::parse_error::ParseErrorContext;
use crate::parser::{default_recovery, Parser};
use crate::token_kind::TokenKind;
use crate::token_set::TokenSet;

verus! {

/// Takes an identifier, or reports that none stands here.
pub fn parse_ident(p: &mut Parser, context: ParseErrorContext, recovery_set: TokenSet)
    ensures
        final(p)@ == old(p)@.expected_with_recovery(TokenKind::Ident, context, recovery_set@),
        old(p)@.inside() ==> old(p)@.extends_to(final(p)@) && final(p)@.potential() <= old(p)@.potential() + 1,
        old(p)@.inside() && (old(p)@.at(TokenKind::Ident) || !old(p)@.recovery_stays(
            recovery_set@.union(default_recovery()),
        )) ==> final(p)@.position > old(p)@.position && final(p)@.potential() <= old(p)@.potential() - 12,
{
    p.expect_with_recovery(TokenKind::Ident, context, recovery_set);
}

} // verus!
