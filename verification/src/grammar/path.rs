//! Paths: identifiers with `::` between them.

use vstd::prelude::*;
use crate::grammar::ident::parse_ident;
use crate::marker::CompletedMarker;
use crate::parse_error::ParseErrorContext;
use crate::parser::{Parser, ParserView};
use crate::syntax::SyntaxKind;
use crate::token_kind::TokenKind;
use crate::token_set::TokenSet;

verus! {

/// The kinds after which a path goes on.
pub open spec fn path_separators() -> Set<TokenKind> {
    set![TokenKind::DoubleColon, TokenKind::Colon]
}

fn path_separator_set() -> (r: TokenSet)
    ensures
        r@ == path_separators(),
{
    let r = TokenSet::empty().plus(TokenKind::DoubleColon).plus(TokenKind::Colon);
    assert(r@ =~= path_separators());
    r
}

/// The state after the rest of a path: as long as `::` or `:` stands here,
/// a `::` is expected and after it an identifier.
pub open spec fn path_rest(
    v: ParserView,
    context: ParseErrorContext,
    recovery: Set<TokenKind>,
) -> ParserView
    decreases v.remaining(),
{
    if !v.at_set(path_separators()) {
        v
    } else {
        let next = v.expected_with_recovery(
            TokenKind::DoubleColon,
            context,
            recovery,
        ).expected_with_recovery(TokenKind::Ident, context, recovery);
        if next.ahead_of(v) {
            path_rest(next, context, recovery)
        } else {
            next
        }
    }
}

/// The state after a path was parsed: a node of kind `kind` around a node
/// of kind `Path` around an identifier and the rest of the path.
pub open spec fn path(
    v: ParserView,
    context: ParseErrorContext,
    recovery: Set<TokenKind>,
    kind: SyntaxKind,
) -> ParserView {
    path_rest(
        v.started().started().expected_with_recovery(TokenKind::Ident, context, recovery),
        context,
        recovery,
    ).completed(v.log.len() as int + 1, SyntaxKind::Path).completed(v.log.len() as int, kind)
}

/// Whether a path ends here: before anything but `::` and `:`.
fn should_stop(p: &mut Parser) -> (r: bool)
    ensures
        final(p)@ == old(p)@,
        r == !old(p)@.at_set(path_separators()),
{
    !p.at_set(path_separator_set()) || p.at_top_level_token()
}

/// Parses a path, in a node of kind `Path` inside a node of kind `kind`: an
/// identifier, and after each `::` another. No recovery may stop at a `:`.
pub fn parse_path(
    p: &mut Parser,
    context: ParseErrorContext,
    recovery_set: TokenSet,
    kind: SyntaxKind,
) -> (done: CompletedMarker)
    requires
        old(p)@.inside(),
        !recovery_set@.contains(TokenKind::Colon),
        !recovery_set@.contains(TokenKind::DoubleColon),
    ensures
        final(p)@ == path(old(p)@, context, recovery_set@, kind),
        old(p)@.extends_to(final(p)@),
        done.index() == old(p)@.log.len(),
        final(p)@.closed_at(done.index()),
        final(p)@.log[done.index()] == (crate::event::EventView::StartNode {
            kind,
            forward_parent: None,
        }),
        old(p)@.at(TokenKind::Ident) ==> final(p)@.position > old(p)@.position && final(p)@.potential() <= old(p)@.potential() - 2,
        final(p)@.potential() <= old(p)@.potential() + 5,
{
    let parent_m = p.start();
    let path_m = p.start();
    parse_ident(p, context, recovery_set);
    let ghost entry = p@;

    loop
        invariant
            p@.inside(),
            path_rest(p@, context, recovery_set@) == path_rest(entry, context, recovery_set@),
            old(p)@.grows_to(p@),
            p@.open_at(parent_m.index()),
            p@.open_at(path_m.index()),
            parent_m.index() == old(p)@.log.len(),
            path_m.index() == old(p)@.log.len() + 1,
            crate::event::placeholders(p@.log) == crate::event::placeholders(old(p)@.log) + 2,
            old(p)@.at(TokenKind::Ident) ==> p@.position > old(p)@.position && p@.potential()
                <= old(p)@.potential() - 4,
            p@.potential() <= old(p)@.potential() + 3,
            !recovery_set@.contains(TokenKind::Colon),
            !recovery_set@.contains(TokenKind::DoubleColon),
        ensures
            p@ == path_rest(entry, context, recovery_set@),
        decreases p@.remaining(),
    {
        if should_stop(p) {
            break ;
        }
        p.expect_with_recovery(TokenKind::DoubleColon, context, recovery_set);
        parse_ident(p, context, recovery_set);
    }

    let _ = path_m.complete(p, SyntaxKind::Path);
    parent_m.complete(p, kind)
}

} // verus!
