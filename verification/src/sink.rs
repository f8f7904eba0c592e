//! The sink: replays an event log against the token stream and builds the
//! tree, putting the trivia back between the tokens that the parser saw.

use vstd::prelude::*;
use vstd::string::*;
use vstd::utf8::encode_utf8;
use crate::event::{
    add_tokens, errors_of, finished, lemma_finished, lemma_no_placeholders, log_of, Event,
    EventView,
};
use crate::lexer::{views, Token, TokenView};
use crate::parse_error::{ParseError, ParseErrorView};
use crate::parser::significant_before;
use crate::source::{lemma_skip_trivia, skip_trivia};
use crate::syntax::SyntaxKind;
use crate::token_kind::TokenKind;
use crate::tree::{
    builder_finish, builder_finish_node, builder_new, builder_start_node, builder_steps,
    builder_token, inner, leaves, lemma_step, single_tree, text_len, TreeStep,
};
use crate::Parse;

verus! {

/// The leaf that a token becomes.
pub open spec fn leaf_of(token: TokenView) -> TreeStep {
    TreeStep::Leaf(SyntaxKind::of_token(token.kind).spec_to_raw(), token.text)
}

/// The number of bytes of text in the first `n` tokens.
pub open spec fn text_bytes(tokens: Seq<TokenView>, n: int) -> nat
    decreases n,
{
    if n <= 0 {
        0
    } else {
        text_bytes(tokens, n - 1) + encode_utf8(tokens[n - 1].text).len()
    }
}

/// The first `n` tokens as leaves: of each its raw kind and its text.
pub open spec fn token_leaves(tokens: Seq<TokenView>, n: int) -> Seq<(u16, Seq<char>)>
    decreases n,
{
    if n <= 0 {
        Seq::empty()
    } else {
        token_leaves(tokens, n - 1).push(
            (SyntaxKind::of_token(tokens[n - 1].kind).spec_to_raw(), tokens[n - 1].text),
        )
    }
}

/// How far a replay has come: the steps taken on the tree, the next token,
/// which nodes have been opened ahead of their event, and the errors.
pub struct Replay {
    pub steps: Seq<TreeStep>,
    pub cursor: int,
    pub opened: Seq<bool>,
    pub errors: Seq<ParseErrorView>,
}

/// The node that opens around the node at `at` though its event comes
/// later: the forward parent, where it lies in the log, opens a node, and
/// has not been opened yet.
pub open spec fn forward_parent(log: Seq<EventView>, at: int, opened: Seq<bool>) -> Option<int> {
    match log[at] {
        EventView::StartNode { forward_parent: Some(distance), .. } => {
            if 0 < distance && at + distance < log.len() && log[at + distance] is StartNode
                && !opened[at + distance] {
                Some(at + distance)
            } else {
                None
            }
        },
        _ => None,
    }
}

/// The kinds of the forward parents of the node at `at`, the nearest first.
pub open spec fn parent_kinds(log: Seq<EventView>, at: int, opened: Seq<bool>) -> Seq<SyntaxKind>
    decreases log.len() - at,
{
    match forward_parent(log, at, opened) {
        Some(t) => {
            if at < t < log.len() {
                seq![log[t]->StartNode_kind] + parent_kinds(log, t, opened.update(t, true))
            } else {
                Seq::empty()
            }
        },
        None => Seq::empty(),
    }
}

/// `opened` after the forward parents of the node at `at` were opened.
pub open spec fn parents_opened(log: Seq<EventView>, at: int, opened: Seq<bool>) -> Seq<bool>
    decreases log.len() - at,
{
    match forward_parent(log, at, opened) {
        Some(t) => {
            if at < t < log.len() {
                parents_opened(log, t, opened.update(t, true))
            } else {
                opened
            }
        },
        None => opened,
    }
}

/// Nodes of `kinds` opening, the last kind first.
pub open spec fn opens(kinds: Seq<SyntaxKind>) -> Seq<TreeStep>
    decreases kinds.len(),
{
    if kinds.len() == 0 {
        Seq::empty()
    } else {
        seq![TreeStep::Open(kinds.last().spec_to_raw())] + opens(kinds.drop_last())
    }
}

/// The trivia at `cursor` and after, as leaves.
pub open spec fn trivia_leaves(tokens: Seq<TokenView>, cursor: int) -> Seq<TreeStep>
    decreases tokens.len() - cursor,
{
    if 0 <= cursor < tokens.len() && tokens[cursor].kind.is_trivia() {
        seq![leaf_of(tokens[cursor])] + trivia_leaves(tokens, cursor + 1)
    } else {
        Seq::empty()
    }
}

impl Replay {
    /// After the event at `idx`: a node opens after its forward parents,
    /// the outermost first, unless it was opened before; a token becomes a
    /// leaf; a node closes; an error joins the errors.
    pub open spec fn after_event(self, tokens: Seq<TokenView>, log: Seq<EventView>, idx: int) -> Replay {
        match log[idx] {
            EventView::StartNode { kind, .. } => {
                if self.opened[idx] {
                    self
                } else {
                    Replay {
                        steps: self.steps + opens(seq![kind] + parent_kinds(log, idx, self.opened)),
                        opened: parents_opened(log, idx, self.opened),
                        ..self
                    }
                }
            },
            EventView::AddToken => Replay {
                steps: self.steps.push(leaf_of(tokens[self.cursor])),
                cursor: self.cursor + 1,
                ..self
            },
            EventView::FinishNode => Replay { steps: self.steps.push(TreeStep::Close), ..self },
            EventView::Error(error) => Replay { errors: self.errors.push(error), ..self },
            EventView::Placeholder => self,
        }
    }

    /// After the trivia that stand at the cursor became leaves.
    pub open spec fn after_trivia(self, tokens: Seq<TokenView>) -> Replay {
        Replay {
            steps: self.steps + trivia_leaves(tokens, self.cursor),
            cursor: skip_trivia(tokens, self.cursor),
            ..self
        }
    }

    /// After the events from `idx` on, each followed by the trivia that
    /// stand at the cursor.
    pub open spec fn run(self, tokens: Seq<TokenView>, log: Seq<EventView>, idx: int) -> Replay
        decreases log.len() - idx,
    {
        if 0 <= idx < log.len() {
            self.after_event(tokens, log, idx).after_trivia(tokens).run(tokens, log, idx + 1)
        } else {
            self
        }
    }
}

/// The replay of the whole of `log` against `tokens`.
pub open spec fn replay(tokens: Seq<TokenView>, log: Seq<EventView>) -> Replay {
    replay_start(log).run(tokens, log, 0)
}

/// The number of nodes at `from` and after that were opened ahead.
pub open spec fn opened_ahead(opened: Seq<bool>, from: int) -> nat
    decreases opened.len() - from,
{
    if 0 <= from < opened.len() {
        opened_ahead(opened, from + 1) + if opened[from] {
            1nat
        } else {
            0nat
        }
    } else {
        0
    }
}

proof fn lemma_opened_update(opened: Seq<bool>, from: int, t: int)
    requires
        0 <= from <= t < opened.len(),
        !opened[t],
    ensures
        opened_ahead(opened.update(t, true), from) == opened_ahead(opened, from) + 1,
        opened_ahead(opened.update(t, true), t + 1) == opened_ahead(opened, t + 1),
    decreases t - from,
{
    lemma_opened_same(opened, opened.update(t, true), t + 1);
    if from < t {
        lemma_opened_update(opened, from + 1, t);
    }
}

proof fn lemma_opened_same(a: Seq<bool>, b: Seq<bool>, from: int)
    requires
        a.len() == b.len(),
        0 <= from,
        forall|j: int| from <= j < a.len() ==> a[j] == b[j],
    ensures
        opened_ahead(a, from) == opened_ahead(b, from),
    decreases a.len() - from,
{
    if from < a.len() {
        lemma_opened_same(a, b, from + 1);
    }
}

proof fn lemma_none_opened(n: nat, from: int)
    requires
        0 <= from,
    ensures
        opened_ahead(Seq::new(n, |i: int| false), from) == 0,
    decreases n - from,
{
    if from < n {
        lemma_none_opened(n, from + 1);
    }
}

/// What the event at `n` adds to the counts of the events before it; the
/// events before `n` add no more tokens than the whole log.
proof fn lemma_prefix(log: Seq<EventView>, n: int)
    requires
        0 <= n <= log.len(),
    ensures
        add_tokens(log.subrange(0, n)) <= add_tokens(log),
        n < log.len() && log[n] is AddToken ==> add_tokens(log.subrange(0, n)) < add_tokens(log),
        n < log.len() ==> add_tokens(log.subrange(0, n + 1)) == add_tokens(log.subrange(0, n))
            + if log[n] is AddToken {
            1nat
        } else {
            0nat
        },
        n < log.len() ==> crate::event::depth(log.subrange(0, n + 1)) == crate::event::depth(
            log.subrange(0, n),
        ) + crate::event::weight(log[n]),
        n < log.len() ==> errors_of(log.subrange(0, n + 1)) == (match log[n] {
            EventView::Error(error) => errors_of(log.subrange(0, n)).push(error),
            _ => errors_of(log.subrange(0, n)),
        }),
    decreases log.len() - n,
{
    if n < log.len() {
        assert(log.subrange(0, n + 1).drop_last() =~= log.subrange(0, n));
        lemma_prefix(log, n + 1);
    } else {
        assert(log.subrange(0, n) =~= log);
    }
}

/// The text of the tokens before an index is no longer than that of the
/// tokens before a later one.
proof fn lemma_text_bytes_monotone(tokens: Seq<TokenView>, a: int, b: int)
    requires
        0 <= a <= b,
    ensures
        text_bytes(tokens, a) <= text_bytes(tokens, b),
    decreases b - a,
{
    if a < b {
        lemma_text_bytes_monotone(tokens, a, b - 1);
    }
}

/// What the trivia at the cursor add as leaves.
proof fn lemma_trivia_leaves(tokens: Seq<TokenView>, steps: Seq<TreeStep>, cursor: int)
    requires
        0 <= cursor <= tokens.len(),
        crate::tree::depth(steps) >= 1 || skip_trivia(tokens, cursor) == cursor,
        inner(steps),
        text_len(steps) == text_bytes(tokens, cursor),
        leaves(steps) == token_leaves(tokens, cursor),
    ensures
        ({
            let next = steps + trivia_leaves(tokens, cursor);
            let to = skip_trivia(tokens, cursor);
            &&& crate::tree::depth(next) == crate::tree::depth(steps)
            &&& inner(next)
            &&& text_len(next) == text_bytes(tokens, to)
            &&& leaves(next) == token_leaves(tokens, to)
            &&& significant_before(tokens, to) == significant_before(tokens, cursor)
            &&& cursor <= to <= tokens.len()
            &&& skip_trivia(tokens, to) == to
        }),
    decreases tokens.len() - cursor,
{
    lemma_skip_trivia(tokens, cursor);
    crate::parser::lemma_significant_skip(tokens, cursor);
    if cursor < tokens.len() && tokens[cursor].kind.is_trivia() {
        let leaf = leaf_of(tokens[cursor]);
        lemma_step(steps, leaf);
        lemma_trivia_leaves(tokens, steps.push(leaf), cursor + 1);
        assert(steps + trivia_leaves(tokens, cursor) =~= steps.push(leaf) + trivia_leaves(
            tokens,
            cursor + 1,
        ));
    } else {
        assert(steps + trivia_leaves(tokens, cursor) =~= steps);
    }
}

/// What opening nodes adds: depth, and nothing else.
proof fn lemma_opens(steps: Seq<TreeStep>, kinds: Seq<SyntaxKind>)
    requires
        inner(steps),
    ensures
        ({
            let next = steps + opens(kinds);
            &&& crate::tree::depth(next) == crate::tree::depth(steps) + kinds.len()
            &&& inner(next)
            &&& text_len(next) == text_len(steps)
            &&& leaves(next) == leaves(steps)
        }),
    decreases kinds.len(),
{
    if kinds.len() == 0 {
        assert(steps + opens(kinds) =~= steps);
    } else {
        let first = TreeStep::Open(kinds.last().spec_to_raw());
        lemma_step(steps, first);
        if steps.len() == 0 {
            assert(crate::tree::depth(steps) == 0);
        } else {
            assert(steps.subrange(0, steps.len() as int) =~= steps);
        }
        lemma_opens(steps.push(first), kinds.drop_last());
        assert(steps + opens(kinds) =~= steps.push(first) + opens(kinds.drop_last()));
    }
}


/// Counting the tokens that are not trivia never goes down, and goes up
/// over one that is not trivia.
proof fn lemma_significant_monotone(tokens: Seq<TokenView>, a: int, b: int)
    requires
        0 <= a <= b <= tokens.len(),
    ensures
        significant_before(tokens, a) <= significant_before(tokens, b),
        a < b && !tokens[a].kind.is_trivia() ==> significant_before(tokens, a)
            < significant_before(tokens, b),
    decreases b - a,
{
    if a < b {
        lemma_significant_monotone(tokens, a, b - 1);
        if a == b - 1 {
        }
    }
}

/// The sink: a tree under construction, the tokens, and the event log.
pub struct Sink<'t, 'input> {
    builder: rowan::GreenNodeBuilder<'static>,
    tokens: &'t [Token<'input>],
    cursor: usize,
    events: Vec<Event>,
    opened: Vec<bool>,
    errors: Vec<ParseError>,
}

/// The errors of a list, each without its heap.
pub open spec fn error_views(errors: Seq<ParseError>) -> Seq<ParseErrorView> {
    errors.map_values(|e: ParseError| e@)
}

/// The replay of no event yet.
pub open spec fn replay_start(log: Seq<EventView>) -> Replay {
    Replay {
        steps: Seq::empty(),
        cursor: 0,
        opened: Seq::new(log.len(), |i: int| false),
        errors: Seq::empty(),
    }
}

impl<'t, 'input> View for Sink<'t, 'input> {
    type V = Replay;

    closed spec fn view(&self) -> Replay {
        Replay {
            steps: builder_steps(self.builder),
            cursor: self.cursor as int,
            opened: self.opened@,
            errors: error_views(self.errors@),
        }
    }
}

impl<'t, 'input> Sink<'t, 'input> {
    /// The tokens that the sink replays against.
    pub closed spec fn tokens(self) -> Seq<TokenView> {
        views(self.tokens@)
    }

    /// The event log that the sink replays.
    pub closed spec fn log(self) -> Seq<EventView> {
        log_of(self.events@)
    }

    /// What holds of a replay that has come to the event at `idx`: the
    /// tree is as deep as the events and the nodes opened ahead make it,
    /// every step stands inside a node until the last, and the leaves are
    /// the tokens before the cursor, which has passed as many tokens as the
    /// events have added.
    pub closed spec fn sound(self, idx: int) -> bool {
        let st = self@;
        let log = self.log();
        let tokens = views(self.tokens@);
        &&& 0 <= idx <= log.len()
        &&& self.events@.len() == log.len()
        &&& st.opened.len() == log.len()
        &&& forall|j: int| 0 <= j < log.len() && #[trigger] st.opened[j] ==> log[j] is StartNode
        &&& crate::tree::depth(st.steps) == crate::event::depth(log.subrange(0, idx))
            + opened_ahead(st.opened, idx)
        &&& idx < log.len() ==> inner(st.steps)
        &&& idx == log.len() ==> single_tree(st.steps) && st.cursor == tokens.len()
        &&& 0 <= st.cursor <= tokens.len()
        &&& add_tokens(log.subrange(0, idx)) == significant_before(tokens, st.cursor)
        &&& text_len(st.steps) == text_bytes(tokens, st.cursor)
        &&& leaves(st.steps) == token_leaves(tokens, st.cursor)
        &&& st.errors == errors_of(log.subrange(0, idx))
        &&& finished(log)
        &&& add_tokens(log) == significant_before(tokens, tokens.len() as int)
        &&& text_bytes(tokens, tokens.len() as int) <= u32::MAX
    }

    /// No trivia stand at the cursor.
    pub closed spec fn rested(self) -> bool {
        skip_trivia(views(self.tokens@), self.cursor as int) == self.cursor
    }

    /// A sink for `events`, the finished log of a parse of `tokens`, whose
    /// text fits in 32 bits.
    pub fn new(tokens: &'t [Token<'input>], events: Vec<Event>) -> (r: Self)
        requires
            finished(log_of(events@)),
            add_tokens(log_of(events@)) == significant_before(
                views(tokens@),
                tokens@.len() as int,
            ),
            text_bytes(views(tokens@), tokens@.len() as int) <= u32::MAX,
        ensures
            r.tokens() == views(tokens@),
            r.log() == log_of(events@),
            r@ == replay_start(r.log()),
            r.sound(0),
    {
        let mut opened: Vec<bool> = Vec::new();
        let mut i: usize = 0;
        while i < events.len()
            invariant
                i <= events@.len(),
                opened@ =~= Seq::new(i as nat, |j: int| false),
            decreases events@.len() - i,
        {
            opened.push(false);
            i += 1;
        }
        let r = Self {
            builder: builder_new(),
            tokens,
            cursor: 0,
            events,
            opened,
            errors: Vec::new(),
        };
        proof {
            let log = r.log();
            assert(r@.errors =~= Seq::<ParseErrorView>::empty());
            assert(log.subrange(0, 0) =~= Seq::<EventView>::empty());
            lemma_none_opened(log.len(), 0);
        }
        r
    }

    /// Replays the log and hands out the tree and the errors: the tree is
    /// one tree, its leaves are all the tokens in order, trivia among them,
    /// and the errors are those of the log, in order.
    pub fn finish(self) -> (parse: Parse)
        requires
            self.sound(0),
            self@ == replay_start(self.log()),
        ensures
            parse.tree() == replay(self.tokens(), self.log()).steps,
            error_views(parse.error_list()) == errors_of(self.log()),
            single_tree(parse.tree()),
            leaves(parse.tree()) == token_leaves(self.tokens(), self.tokens().len() as int),
    {
        let mut sink = self;
        let ghost tokens = self.tokens();
        let ghost log = self.log();
        let mut idx: usize = 0;
        let n = sink.events.len();
        while idx < n
            invariant
                n == log.len(),
                sink.tokens() == tokens,
                sink.log() == log,
                sink.sound(idx as int),
                idx >= 1 ==> sink.rested(),
                idx <= n,
                sink@.run(tokens, log, idx as int) == replay(tokens, log),
            decreases n - idx,
        {
            sink.event(idx);
            sink.eat_trivia(idx + 1);
            idx += 1;
        }
        proof {
            assert(log.subrange(0, n as int) =~= log);
        }
        Parse::new(builder_finish(sink.builder), sink.errors)
    }

    /// Replays the event at `idx`.
    fn event(&mut self, idx: usize)
        requires
            old(self).sound(idx as int),
            idx >= 1 ==> old(self).rested(),
            idx < old(self).log().len(),
        ensures
            final(self).tokens() == old(self).tokens(),
            final(self).log() == old(self).log(),
            final(self)@ == old(self)@.after_event(old(self).tokens(), old(self).log(), idx as int),
            final(self).sound(idx + 1),
    {
        let ghost log = self.log();
        let ghost tokens = self.tokens();
        proof {
            lemma_prefix(log, idx as int);
            lemma_finished(log);
            lemma_no_placeholders(log, idx as int);
            if idx + 1 < log.len() {
                assert(crate::event::depth(log.subrange(0, idx + 1)) >= 1);
            }
            lemma_skip_trivia(tokens, self.cursor as int);
        }
        match &self.events[idx] {
            Event::StartNode { kind, forward_parent } => {
                let kind = *kind;
                let forward_parent = *forward_parent;
                if !self.opened[idx] {
                    self.start_nodes(idx, kind, forward_parent);
                }
            },
            Event::AddToken => {
                proof {
                    if self.cursor as int == tokens.len() {
                    } else {
                        lemma_text_bytes_monotone(tokens, self.cursor + 1, tokens.len() as int);
                    }
                    lemma_step(self@.steps, leaf_of(tokens[self.cursor as int]));
                }
                self.token();
            },
            Event::FinishNode => {
                proof {
                    lemma_step(self@.steps, TreeStep::Close);
                    if idx + 1 == log.len() {
                        lemma_significant_monotone(
                            tokens,
                            self.cursor as int,
                            tokens.len() as int,
                        );
                        assert(self@.steps.len() >= 1) by {
                            if self@.steps.len() == 0 {
                                assert(crate::tree::depth(self@.steps) == 0);
                            }
                        }
                    }
                }
                builder_finish_node(&mut self.builder);
            },
            Event::Error(error) => {
                let copy = copy_error(error);
                self.errors.push(copy);
                proof {
                    assert(error_views(self.errors@) =~= error_views(old(self).errors@).push(
                        copy@,
                    ));
                }
            },
            Event::Placeholder => {},
        }
    }

    /// The forward parent of the node at `at`, if one is to be opened:
    /// where it stands, its kind, and its own forward parent.
    fn parent_of(&self, at: usize, parent: Option<usize>) -> (r: Option<
        (usize, SyntaxKind, Option<usize>),
    >)
        requires
            at < self.log().len(),
            self.events@.len() == self.log().len(),
            self.opened@.len() == self.log().len(),
            self.log()[at as int] is StartNode,
            self.log()[at as int]->StartNode_forward_parent == parent,
        ensures
            r is Some <==> forward_parent(self.log(), at as int, self.opened@) is Some,
            r matches Some((t, kind, next)) ==> {
                &&& forward_parent(self.log(), at as int, self.opened@) == Some(t as int)
                &&& at < t < self.log().len()
                &&& !self.opened@[t as int]
                &&& self.log()[t as int] == (EventView::StartNode { kind, forward_parent: next })
            },
    {
        let n = self.events.len();
        match parent {
            None => None,
            Some(distance) => {
                if distance == 0 || distance >= n - at {
                    return None;
                }
                let target = at + distance;
                if self.opened[target] {
                    return None;
                }
                match &self.events[target] {
                    Event::StartNode { kind, forward_parent } => Some(
                        (target, *kind, *forward_parent),
                    ),
                    _ => None,
                }
            },
        }
    }

    /// Opens the node of the event at `idx` after its forward parents.
    fn start_nodes(&mut self, idx: usize, kind: SyntaxKind, forward_parent: Option<usize>)
        requires
            old(self).sound(idx as int),
            idx + 1 < old(self).log().len(),
            old(self).log()[idx as int] == (EventView::StartNode { kind, forward_parent }),
            !old(self)@.opened[idx as int],
        ensures
            final(self).tokens() == old(self).tokens(),
            final(self).log() == old(self).log(),
            final(self)@ == old(self)@.after_event(old(self).tokens(), old(self).log(), idx as int),
            final(self).sound(idx + 1),
    {
        let ghost log = self.log();
        let ghost before = self@;
        let mut kinds: Vec<SyntaxKind> = Vec::new();
        kinds.push(kind);
        let mut at: usize = idx;
        let mut parent: Option<usize> = forward_parent;
        proof {
            assert(kinds@ =~= seq![kind]);
            lemma_prefix(log, idx as int);
        }
        loop
            invariant
                self.tokens() == old(self).tokens(),
                self.log() == log,
                self.events@.len() == log.len(),
                self.opened@.len() == log.len(),
                self@.steps == before.steps,
                self@.cursor == before.cursor,
                self@.errors == before.errors,
                idx <= at < log.len(),
                log[at as int] is StartNode,
                log[at as int]->StartNode_forward_parent == parent,
                kinds@.len() >= 1,
                kinds@ + parent_kinds(log, at as int, self.opened@) == seq![kind] + parent_kinds(
                    log,
                    idx as int,
                    before.opened,
                ),
                parents_opened(log, at as int, self.opened@) == parents_opened(
                    log,
                    idx as int,
                    before.opened,
                ),
                opened_ahead(self.opened@, idx + 1) == opened_ahead(before.opened, idx + 1)
                    + kinds@.len() - 1,
                forall|j: int|
                    0 <= j < log.len() && #[trigger] self.opened@[j] ==> log[j] is StartNode,
            ensures
                self.tokens() == old(self).tokens(),
                self.log() == log,
                self.events@.len() == log.len(),
                self@.steps == before.steps,
                self@.cursor == before.cursor,
                self@.errors == before.errors,
                kinds@.len() >= 1,
                kinds@ == seq![kind] + parent_kinds(log, idx as int, before.opened),
                self@.opened == parents_opened(log, idx as int, before.opened),
                opened_ahead(self.opened@, idx + 1) == opened_ahead(before.opened, idx + 1)
                    + kinds@.len() - 1,
                forall|j: int|
                    0 <= j < log.len() && #[trigger] self.opened@[j] ==> log[j] is StartNode,
            decreases log.len() - at,
        {
            match self.parent_of(at, parent) {
                None => {
                    proof {
                        assert(kinds@ + Seq::<SyntaxKind>::empty() =~= kinds@);
                    }
                    break ;
                },
                Some((target, parent_kind, next)) => {
                    proof {
                        lemma_opened_update(self.opened@, idx + 1, target as int);
                        assert(kinds@.push(parent_kind) + parent_kinds(
                            log,
                            target as int,
                            self.opened@.update(target as int, true),
                        ) =~= kinds@ + parent_kinds(log, at as int, self.opened@));
                    }
                    kinds.push(parent_kind);
                    self.opened[target] = true;
                    at = target;
                    parent = next;
                },
            }
        }
        let ghost all = kinds@;
        let mut k: usize = kinds.len();
        proof {
            assert(all.subrange(0, k as int) =~= all);
            assert(before.steps + Seq::<TreeStep>::empty() =~= before.steps);
        }
        while k > 0
            invariant
                self.tokens() == old(self).tokens(),
                self.log() == log,
                self.events@.len() == log.len(),
                self@.opened == parents_opened(log, idx as int, before.opened),
                self@.cursor == before.cursor,
                self@.errors == before.errors,
                kinds@ == all,
                k <= all.len(),
                self@.steps + opens(all.subrange(0, k as int)) == before.steps + opens(all),
            decreases k,
        {
            k -= 1;
            let ghost now = self@.steps;
            builder_start_node(&mut self.builder, kinds[k].to_raw());
            proof {
                let head = all.subrange(0, k + 1);
                assert(head.drop_last() =~= all.subrange(0, k as int));
                assert(head.last() == all[k as int]);
                assert(now.push(TreeStep::Open(all[k as int].spec_to_raw())) + opens(
                    all.subrange(0, k as int),
                ) =~= now + opens(head));
            }
        }
        proof {
            assert(all.subrange(0, 0) =~= Seq::<SyntaxKind>::empty());
            assert(self@.steps + Seq::<TreeStep>::empty() =~= self@.steps);
            lemma_opens(before.steps, all);
            lemma_finished(log);
            assert(crate::event::depth(log.subrange(0, idx + 1)) >= 1);
        }
    }

    /// Makes leaves of the trivia at the cursor.
    fn eat_trivia(&mut self, idx: usize)
        requires
            old(self).sound(idx as int),
            idx >= 1,
        ensures
            final(self).tokens() == old(self).tokens(),
            final(self).log() == old(self).log(),
            final(self)@ == old(self)@.after_trivia(old(self).tokens()),
            final(self).sound(idx as int),
            final(self).rested(),
    {
        let ghost log = self.log();
        let ghost tokens = self.tokens();
        let ghost before = self@;
        proof {
            lemma_finished(log);
            lemma_skip_trivia(tokens, self.cursor as int);
            if idx < log.len() {
                assert(crate::event::depth(log.subrange(0, idx as int)) >= 1);
            }
            if idx < log.len() {
                lemma_trivia_leaves(tokens, before.steps, before.cursor);
            }
            assert(before.steps + Seq::<TreeStep>::empty() =~= before.steps);
        }
        loop
            invariant
                self.tokens() == tokens,
                self.log() == log,
                self.events@.len() == log.len(),
                self@.opened == before.opened,
                self@.errors == before.errors,
                before.cursor <= self.cursor <= tokens.len(),
                skip_trivia(tokens, self.cursor as int) == skip_trivia(tokens, before.cursor),
                self@.steps + trivia_leaves(tokens, self.cursor as int) == before.steps
                    + trivia_leaves(tokens, before.cursor),
                text_len(self@.steps) == text_bytes(tokens, self.cursor as int),
                text_bytes(tokens, tokens.len() as int) <= u32::MAX,
            ensures
                self.tokens() == tokens,
                self.log() == log,
                self.events@.len() == log.len(),
                self@.opened == before.opened,
                self@.errors == before.errors,
                self.cursor == skip_trivia(tokens, before.cursor),
                self@.steps == before.steps + trivia_leaves(tokens, before.cursor),
            decreases tokens.len() - self.cursor,
        {
            let tokens_now: &'t [Token<'input>] = self.tokens;
            if self.cursor >= tokens_now.len() || !tokens_now[self.cursor].kind.is_trivia() {
                proof {
                    assert(self@.steps + Seq::<TreeStep>::empty() =~= self@.steps);
                }
                break ;
            }
            proof {
                let leaf = leaf_of(tokens[self.cursor as int]);
                lemma_step(self@.steps, leaf);
                lemma_text_bytes_monotone(tokens, self.cursor + 1, tokens.len() as int);
                assert(self@.steps.push(leaf) + trivia_leaves(tokens, self.cursor + 1)
                    =~= self@.steps + trivia_leaves(tokens, self.cursor as int));
            }
            self.token();
        }
    }

    /// Makes a leaf of the token at the cursor.
    fn token(&mut self)
        requires
            old(self)@.cursor < old(self).tokens().len(),
            text_len(old(self)@.steps) + encode_utf8(old(self).tokens()[old(self)@.cursor].text).len()
                <= u32::MAX,
        ensures
            final(self).tokens() == old(self).tokens(),
            final(self).log() == old(self).log(),
            final(self).events == old(self).events,
            final(self)@ == (Replay {
                steps: old(self)@.steps.push(leaf_of(old(self).tokens()[old(self)@.cursor])),
                cursor: old(self)@.cursor + 1,
                ..old(self)@
            }),
    {
        let tokens: &'t [Token<'input>] = self.tokens;
        let token = &tokens[self.cursor];
        let kind: SyntaxKind = token.kind.into();
        builder_token(&mut self.builder, kind.to_raw(), token.text);
        self.cursor += 1;
    }
}

/// A copy of an error.
fn copy_error(error: &ParseError) -> (r: ParseError)
    ensures
        r@ == error@,
{
    let mut expected: Vec<TokenKind> = Vec::new();
    let mut i: usize = 0;
    while i < error.expected.len()
        invariant
            i <= error.expected@.len(),
            expected@ == error.expected@.subrange(0, i as int),
        decreases error.expected@.len() - i,
    {
        expected.push(error.expected[i]);
        assert(expected@ =~= error.expected@.subrange(0, i + 1));
        i += 1;
    }
    assert(expected@ =~= error.expected@);
    ParseError { expected, kind: error.kind, context: error.context }
}

} // verus!
