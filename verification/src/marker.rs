//! Markers: handles on the nodes that a parse has opened.

use vstd::prelude::*;
use crate::event::{add_tokens, finished, placeholders, Event};
use crate::parser::{lemma_completed, lemma_preceded, Parser};
use crate::syntax::SyntaxKind;

verus! {

/// A handle on a node that is open and whose kind is not yet decided.
pub struct Marker {
    pos: usize,
}

/// A handle on a node that is complete.
pub struct CompletedMarker {
    pos: usize,
}

impl Marker {
    /// The index in the event log at which the node opens.
    pub closed spec fn index(self) -> int {
        self.pos as int
    }

    pub(crate) fn new(pos: usize) -> (m: Self)
        ensures
            m.index() == pos,
    {
        Self { pos }
    }

    /// Closes the node and decides its kind.
    pub fn complete(self, p: &mut Parser, kind: SyntaxKind) -> (done: CompletedMarker)
        requires
            old(p)@.open_at(self.index()),
        ensures
            final(p)@ == old(p)@.completed(self.index(), kind),
            done.index() == self.index(),
            old(p)@.rewrites_to(final(p)@, self.index()),
            final(p)@.closed_at(done.index()),
            old(p)@.wf() ==> placeholders(final(p)@.log) == placeholders(old(p)@.log) - 1,
            old(p)@.wf() && placeholders(old(p)@.log) >= 2 ==> final(p)@.inside(),
            old(p)@.wf() && placeholders(old(p)@.log) == 1 ==> finished(final(p)@.log)
                && add_tokens(final(p)@.log) == add_tokens(old(p)@.log),
    {
        proof {
            if old(p)@.wf() {
                lemma_completed(old(p)@, self.index(), kind);
            }
        }
        p.set_event(self.pos, Event::StartNode { kind, forward_parent: None });
        p.push_event(Event::FinishNode);
        CompletedMarker { pos: self.pos }
    }
}

impl CompletedMarker {
    /// The index in the event log at which the node opens.
    pub closed spec fn index(self) -> int {
        self.pos as int
    }

    /// Starts a node that will be the parent of this one, though this one
    /// opened first.
    pub fn precede(self, p: &mut Parser) -> (m: Marker)
        requires
            old(p)@.closed_at(self.index()),
        ensures
            final(p)@ == old(p)@.preceded(self.index()),
            m.index() == old(p)@.log.len(),
            old(p)@.rewrites_to(final(p)@, self.index()),
            final(p)@.open_at(m.index()),
            final(p)@.closed_at(self.index()),
            old(p)@.wf() ==> final(p)@.inside() && placeholders(final(p)@.log) == placeholders(
                old(p)@.log,
            ) + 1,
    {
        proof {
            if old(p)@.wf() {
                lemma_preceded(old(p)@, self.index());
            }
        }
        let kind = p.start_kind(self.pos);
        let distance = p.log_len() - self.pos;
        p.set_event(self.pos, Event::StartNode { kind, forward_parent: Some(distance) });
        let new_m = p.start();
        new_m
    }
}

} // verus!
