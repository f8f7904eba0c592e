//! The event log: the flat record of a parse, from which the tree is built.

use vstd::prelude::*;
use crate::parse_error::{ParseError, ParseErrorView};
use crate::syntax::SyntaxKind;

verus! {

/// One entry of the event log.
#[derive(Debug, Clone, PartialEq)]
pub enum Event {
    /// A node of this kind opens. Where `forward_parent` is set, the node
    /// that opens that many events further on is its parent, and opens first.
    StartNode { kind: SyntaxKind, forward_parent: Option<usize> },
    /// The next token that is not trivia joins the innermost open node.
    AddToken,
    /// The innermost open node closes.
    FinishNode,
    /// An error is reported.
    Error(ParseError),
    /// A node that has been opened and whose kind is not yet decided.
    Placeholder,
}

/// An event without its heap.
pub enum EventView {
    StartNode { kind: SyntaxKind, forward_parent: Option<usize> },
    AddToken,
    FinishNode,
    Error(ParseErrorView),
    Placeholder,
}

impl View for Event {
    type V = EventView;

    open spec fn view(&self) -> EventView {
        match self {
            Event::StartNode { kind, forward_parent } => EventView::StartNode {
                kind: *kind,
                forward_parent: *forward_parent,
            },
            Event::AddToken => EventView::AddToken,
            Event::FinishNode => EventView::FinishNode,
            Event::Error(error) => EventView::Error(error@),
            Event::Placeholder => EventView::Placeholder,
        }
    }
}

/// The log that a list of events is.
pub open spec fn log_of(events: Seq<Event>) -> Seq<EventView> {
    events.map_values(|e: Event| e@)
}

/// What an event adds to the number of open nodes. A placeholder counts as
/// a node that opens, which it becomes.
pub open spec fn weight(e: EventView) -> int {
    match e {
        EventView::StartNode { .. } => 1,
        EventView::Placeholder => 1,
        EventView::FinishNode => -1,
        _ => 0,
    }
}

/// The number of nodes that are open at the end of `log`.
pub open spec fn depth(log: Seq<EventView>) -> int
    decreases log.len(),
{
    if log.len() == 0 {
        0
    } else {
        depth(log.drop_last()) + weight(log.last())
    }
}

/// The number of placeholders in `log`.
pub open spec fn placeholders(log: Seq<EventView>) -> nat
    decreases log.len(),
{
    if log.len() == 0 {
        0
    } else {
        placeholders(log.drop_last()) + if log.last() is Placeholder {
            1nat
        } else {
            0nat
        }
    }
}

/// The number of tokens that `log` adds to the tree.
pub open spec fn add_tokens(log: Seq<EventView>) -> nat
    decreases log.len(),
{
    if log.len() == 0 {
        0
    } else {
        add_tokens(log.drop_last()) + if log.last() is AddToken {
            1nat
        } else {
            0nat
        }
    }
}

/// The errors that `log` reports, in order.
pub open spec fn errors_of(log: Seq<EventView>) -> Seq<ParseErrorView>
    decreases log.len(),
{
    if log.len() == 0 {
        Seq::empty()
    } else {
        match log.last() {
            EventView::Error(error) => errors_of(log.drop_last()).push(error),
            _ => errors_of(log.drop_last()),
        }
    }
}

/// Every event of `log` stands inside a node: after each of them, at least
/// one node is open.
pub open spec fn nested(log: Seq<EventView>) -> bool {
    forall|n: int| 1 <= n <= log.len() ==> depth(#[trigger] log.subrange(0, n)) >= 1
}

/// `log` is the record of one whole tree: a node opens first and closes
/// last, every other event stands inside it, and no kind is left undecided.
pub open spec fn finished(log: Seq<EventView>) -> bool {
    &&& log.len() >= 2
    &&& placeholders(log) == 0
    &&& depth(log) == 0
    &&& nested(log.drop_last())
}

pub proof fn lemma_push(log: Seq<EventView>, e: EventView)
    ensures
        depth(log.push(e)) == depth(log) + weight(e),
        placeholders(log.push(e)) == placeholders(log) + if e is Placeholder {
            1nat
        } else {
            0nat
        },
        add_tokens(log.push(e)) == add_tokens(log) + if e is AddToken {
            1nat
        } else {
            0nat
        },
        errors_of(log.push(e)) == (match e {
            EventView::Error(error) => errors_of(log).push(error),
            _ => errors_of(log),
        }),
        nested(log) && depth(log) + weight(e) >= 1 ==> nested(log.push(e)),
{
    let next = log.push(e);
    assert(next.drop_last() =~= log);
    if nested(log) && depth(log) + weight(e) >= 1 {
        assert forall|n: int| 1 <= n <= next.len() implies depth(#[trigger] next.subrange(0, n))
            >= 1 by {
            if n == next.len() {
                assert(next.subrange(0, n) =~= next);
            } else {
                assert(next.subrange(0, n) =~= log.subrange(0, n));
            }
        }
    }
}

/// Putting another event in the place of one changes the counts by the
/// difference between the two.
pub proof fn lemma_update(log: Seq<EventView>, i: int, e: EventView)
    requires
        0 <= i < log.len(),
    ensures
        depth(log.update(i, e)) == depth(log) - weight(log[i]) + weight(e),
        placeholders(log.update(i, e)) == placeholders(log) - (if log[i] is Placeholder {
            1int
        } else {
            0int
        }) + (if e is Placeholder {
            1int
        } else {
            0int
        }),
        add_tokens(log.update(i, e)) == add_tokens(log) - (if log[i] is AddToken {
            1int
        } else {
            0int
        }) + (if e is AddToken {
            1int
        } else {
            0int
        }),
        !(log[i] is Error) && !(e is Error) ==> errors_of(log.update(i, e)) == errors_of(log),
    decreases log.len(),
{
    let next = log.update(i, e);
    if i == log.len() - 1 {
        assert(next.drop_last() =~= log.drop_last());
    } else {
        assert(next.drop_last() =~= log.drop_last().update(i, e));
        lemma_update(log.drop_last(), i, e);
    }
}

/// Putting an event of the same weight in the place of one leaves every
/// event where it was: inside a node.
pub proof fn lemma_update_nested(log: Seq<EventView>, i: int, e: EventView)
    requires
        0 <= i < log.len(),
        weight(e) == weight(log[i]),
        nested(log),
    ensures
        nested(log.update(i, e)),
{
    let next = log.update(i, e);
    assert forall|n: int| 1 <= n <= next.len() implies depth(#[trigger] next.subrange(0, n))
        >= 1 by {
        assert(depth(log.subrange(0, n)) >= 1);
        if i < n {
            assert(next.subrange(0, n) =~= log.subrange(0, n).update(i, e));
            lemma_update(log.subrange(0, n), i, e);
        } else {
            assert(next.subrange(0, n) =~= log.subrange(0, n));
        }
    }
}

/// A log with a placeholder has at least one, and one with two has two.
pub proof fn lemma_placeholders_at(log: Seq<EventView>, i: int, j: int)
    requires
        0 <= i < log.len(),
        log[i] is Placeholder,
    ensures
        placeholders(log) >= 1,
        0 <= j < log.len() && j != i && log[j] is Placeholder ==> placeholders(log) >= 2,
    decreases log.len(),
{
    let n = log.len() - 1;
    if i < n {
        if 0 <= j < n {
            lemma_placeholders_at(log.drop_last(), i, j);
        } else {
            lemma_placeholders_at(log.drop_last(), i, i);
        }
    } else {
        if 0 <= j < n && log[j] is Placeholder {
            lemma_placeholders_at(log.drop_last(), j, j);
        }
    }
}

/// The shape of a finished log: a node opens first and closes last, and a
/// node is open after every event but the last.
pub proof fn lemma_finished(log: Seq<EventView>)
    requires
        finished(log),
    ensures
        log[0] is StartNode,
        log.last() is FinishNode,
        forall|n: int| 1 <= n < log.len() ==> depth(#[trigger] log.subrange(0, n)) >= 1,
        depth(log.subrange(0, log.len() as int)) == 0,
{
    let init = log.drop_last();
    assert(log.subrange(0, log.len() as int) =~= log);
    assert forall|n: int| 1 <= n < log.len() implies depth(#[trigger] log.subrange(0, n)) >= 1 by {
        assert(init.subrange(0, n) =~= log.subrange(0, n));
    }
    assert(init.subrange(0, init.len() as int) =~= init);
    assert(depth(init) >= 1);
    assert(log.subrange(0, 1).drop_last() =~= Seq::<EventView>::empty());
    assert(log.subrange(0, 1).last() == log[0]);
    assert(depth(log.subrange(0, 1).drop_last()) == 0);
    assert(depth(log.subrange(0, 1)) == weight(log[0]));
    lemma_no_placeholders(log, 0);
}

/// A log without placeholders holds none.
pub proof fn lemma_no_placeholders(log: Seq<EventView>, i: int)
    requires
        placeholders(log) == 0,
        0 <= i < log.len(),
    ensures
        !(log[i] is Placeholder),
{
    if log[i] is Placeholder {
        lemma_placeholders_at(log, i, i);
    }
}

} // verus!
