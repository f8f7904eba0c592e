//! The parser core: the cursor, the event log, the kinds expected since the
//! last token was taken, and the rule by which a parse recovers from an error.

use vstd::prelude::*;
use crate::event::{
    add_tokens, depth, lemma_push, nested, placeholders, Event, EventView,
};
use crate::lexer::TokenView;
use crate::marker::{CompletedMarker, Marker};
use crate::parse_error::{ParseError, ParseErrorContext, ParseErrorKind, ParseErrorView};
use crate::source::{lemma_skip_trivia, skip_trivia, Source};
use crate::syntax::SyntaxKind;
use crate::text::TextSize;
use crate::token_kind::TokenKind;
use crate::token_set::TokenSet;

verus! {

/// The kinds at which every recovery stops: those that start a statement.
pub open spec fn default_recovery() -> Set<TokenKind> {
    set![TokenKind::LetKw]
}

/// The keywords.
pub open spec fn keywords() -> Set<TokenKind> {
    set![TokenKind::LetKw, TokenKind::IfKw, TokenKind::ThenKw, TokenKind::ElseKw]
}

pub fn default_recovery_set() -> (r: TokenSet)
    ensures
        r@ == default_recovery(),
{
    let r = TokenSet::empty().plus(TokenKind::LetKw);
    assert(r@ =~= default_recovery());
    r
}

pub fn keyword_set() -> (r: TokenSet)
    ensures
        r@ == keywords(),
{
    let r = TokenSet::empty().plus(TokenKind::LetKw).plus(TokenKind::IfKw).plus(
        TokenKind::ThenKw,
    ).plus(TokenKind::ElseKw);
    assert(r@ =~= keywords());
    r
}

/// The number of tokens before index `n` that are not trivia.
pub open spec fn significant_before(tokens: Seq<TokenView>, n: int) -> nat
    decreases n,
{
    if n <= 0 {
        0
    } else {
        significant_before(tokens, n - 1) + if tokens[n - 1].kind.is_trivia() {
            0nat
        } else {
            1nat
        }
    }
}

/// Trivia do not count.
pub proof fn lemma_significant_skip(tokens: Seq<TokenView>, i: int)
    requires
        0 <= i <= tokens.len(),
    ensures
        significant_before(tokens, skip_trivia(tokens, i)) == significant_before(tokens, i),
    decreases tokens.len() - i,
{
    if i < tokens.len() && tokens[i].kind.is_trivia() {
        lemma_significant_skip(tokens, i + 1);
    }
}

/// What a parser is at one moment: the tokens, the index of the token it
/// stands before (never trivia; the number of tokens at the end), the event
/// log, and the kinds it has looked for since it last took a token.
pub struct ParserView {
    pub tokens: Seq<TokenView>,
    pub position: int,
    pub log: Seq<EventView>,
    pub expected: Seq<TokenKind>,
}

impl ParserView {
    pub open spec fn at_eof(self) -> bool {
        self.position >= self.tokens.len()
    }

    /// The kind of the token that the parser stands before.
    pub open spec fn current_kind(self) -> Option<TokenKind> {
        if self.at_eof() {
            None
        } else {
            Some(self.tokens[self.position].kind)
        }
    }

    pub open spec fn at(self, kind: TokenKind) -> bool {
        self.current_kind() == Some(kind)
    }

    pub open spec fn at_set(self, set: Set<TokenKind>) -> bool {
        !self.at_eof() && set.contains(self.tokens[self.position].kind)
    }

    /// The tokens that are left, trivia among them.
    pub open spec fn remaining(self) -> int {
        self.tokens.len() - self.position
    }

    /// The state is one that a parse can reach: the cursor stands before a
    /// token that is not trivia or at the end, the log adds as many tokens as
    /// the cursor has passed, and every event stands inside a node, each
    /// node closed but those whose kind is undecided.
    pub open spec fn wf(self) -> bool {
        &&& 0 <= self.position <= self.tokens.len()
        &&& skip_trivia(self.tokens, self.position) == self.position
        &&& add_tokens(self.log) == significant_before(self.tokens, self.position)
        &&& depth(self.log) == placeholders(self.log)
        &&& nested(self.log)
    }

    /// The state is well formed and a node is open.
    pub open spec fn inside(self) -> bool {
        self.wf() && placeholders(self.log) >= 1
    }

    /// A marker stands at `index`, not completed.
    pub open spec fn open_at(self, index: int) -> bool {
        0 <= index < self.log.len() && self.log[index] is Placeholder
    }

    /// A completed node starts at `index`.
    pub open spec fn closed_at(self, index: int) -> bool {
        0 <= index < self.log.len() && self.log[index] is StartNode
    }

    /// `next` is a state over the same tokens, no further back, whose log
    /// starts with the log of this one.
    pub open spec fn grows_to(self, next: Self) -> bool {
        &&& next.tokens == self.tokens
        &&& self.position <= next.position
        &&& self.log.len() <= next.log.len()
        &&& forall|i: int| 0 <= i < self.log.len() ==> (#[trigger] next.log[i]) == self.log[i]
    }

    /// `next` is a state that a rule of the grammar reaches from this one:
    /// what the log held is untouched, no kind is left undecided, and the
    /// state stays well formed.
    pub open spec fn extends_to(self, next: Self) -> bool {
        &&& self.grows_to(next)
        &&& placeholders(next.log) == placeholders(self.log)
        &&& (self.inside() ==> next.inside())
    }

    /// The events of the log, less sixteen for each token that the cursor
    /// has passed. No rule of the grammar raises it by more than a few, and
    /// none that takes a token raises it at all: so a parse logs no more than
    /// sixteen events for each token, and two.
    pub open spec fn potential(self) -> int {
        self.log.len() - 16 * self.position
    }

    /// This state stands further on than `before`, over the same tokens.
    pub open spec fn ahead_of(self, before: Self) -> bool {
        &&& self.tokens == before.tokens
        &&& 0 <= before.position < self.position <= self.tokens.len()
    }

    /// `next` differs from this state in the log only, and there only at
    /// `index` and in what has been added.
    pub open spec fn rewrites_to(self, next: Self, index: int) -> bool {
        &&& next.tokens == self.tokens
        &&& next.position == self.position
        &&& next.expected == self.expected
        &&& self.log.len() < next.log.len()
        &&& forall|i: int|
            0 <= i < self.log.len() && i != index ==> (#[trigger] next.log[i]) == self.log[i]
    }

    /// After `kind` was looked for.
    pub open spec fn expecting(self, kind: TokenKind) -> Self {
        ParserView { expected: self.expected.push(kind), ..self }
    }

    /// After a marker was started.
    pub open spec fn started(self) -> Self {
        ParserView { log: self.log.push(EventView::Placeholder), ..self }
    }

    /// After the marker at `index` was completed as a node of kind `kind`.
    pub open spec fn completed(self, index: int, kind: SyntaxKind) -> Self {
        ParserView {
            log: self.log.update(index, EventView::StartNode { kind, forward_parent: None }).push(
                EventView::FinishNode,
            ),
            ..self
        }
    }

    /// After a marker was started that will be the parent of the node that
    /// starts at `index`.
    pub open spec fn preceded(self, index: int) -> Self {
        ParserView {
            log: self.log.update(
                index,
                EventView::StartNode {
                    kind: self.log[index]->StartNode_kind,
                    forward_parent: Some((self.log.len() - index) as usize),
                },
            ).push(EventView::Placeholder),
            ..self
        }
    }

    /// After the current token was taken.
    pub open spec fn bumped(self) -> Self {
        ParserView {
            position: skip_trivia(self.tokens, self.position + 1),
            log: self.log.push(EventView::AddToken),
            expected: Seq::empty(),
            ..self
        }
    }

    /// What is wrong where the parser stands, given the kinds at which a
    /// recovery stops: at the end of input something is missing after the
    /// last token; before a token at which recovery stops something is
    /// missing before it; any other token is unexpected.
    pub open spec fn error_kind(self, recovery: Set<TokenKind>) -> ParseErrorKind {
        if self.at_eof() {
            ParseErrorKind::Missing {
                offset: if self.tokens.len() == 0 {
                    TextSize { raw: 0 }
                } else {
                    self.tokens.last().range.end()
                },
            }
        } else if recovery.contains(self.tokens[self.position].kind) {
            ParseErrorKind::Missing { offset: self.tokens[self.position].range.start() }
        } else {
            ParseErrorKind::Unexpected {
                found: self.tokens[self.position].kind,
                range: self.tokens[self.position].range,
            }
        }
    }

    /// The error that is reported in context `context`.
    pub open spec fn error(
        self,
        context: ParseErrorContext,
        recovery: Set<TokenKind>,
    ) -> ParseErrorView {
        ParseErrorView { expected: self.expected, kind: self.error_kind(recovery), context }
    }

    /// Whether a recovery takes no token: at the end of input and before a
    /// token at which recovery stops.
    pub open spec fn recovery_stays(self, recovery: Set<TokenKind>) -> bool {
        self.at_eof() || self.at_set(recovery)
    }

    /// After an error was reported and recovered from, given the kinds at
    /// which the recovery stops: the error is logged and the expected kinds
    /// are forgotten; unless the recovery stays, the current token is taken
    /// into a node of kind `Error`.
    pub open spec fn recovered(
        self,
        context: ParseErrorContext,
        recovery: Set<TokenKind>,
    ) -> Self {
        let logged = self.log.push(EventView::Error(self.error(context, recovery)));
        if self.recovery_stays(recovery) {
            ParserView { log: logged, expected: Seq::empty(), ..self }
        } else {
            ParserView {
                position: skip_trivia(self.tokens, self.position + 1),
                log: logged.push(
                    EventView::StartNode { kind: SyntaxKind::Error, forward_parent: None },
                ).push(EventView::AddToken).push(EventView::FinishNode),
                expected: Seq::empty(),
                ..self
            }
        }
    }

    /// After `kind` was expected: taken where it stands, an error otherwise.
    pub open spec fn expected_with_recovery(
        self,
        kind: TokenKind,
        context: ParseErrorContext,
        recovery: Set<TokenKind>,
    ) -> Self {
        if self.at(kind) {
            self.bumped()
        } else {
            self.expecting(kind).recovered(context, recovery.union(default_recovery()))
        }
    }
}

/// Taking a token keeps the state well formed and moves the cursor on.
pub proof fn lemma_bumped(v: ParserView)
    requires
        v.inside(),
        !v.at_eof(),
    ensures
        v.bumped().inside(),
        v.bumped().position > v.position,
        v.extends_to(v.bumped()),
        v.bumped().potential() <= v.potential() - 15,
{
    lemma_skip_trivia(v.tokens, v.position + 1);
    lemma_significant_skip(v.tokens, v.position + 1);
    lemma_skip_trivia(v.tokens, v.position);
    lemma_push(v.log, EventView::AddToken);
}

/// Starting a marker keeps the state well formed and opens a node.
pub proof fn lemma_started(v: ParserView)
    requires
        v.wf(),
    ensures
        v.started().inside(),
        v.started().open_at(v.log.len() as int),
        placeholders(v.started().log) == placeholders(v.log) + 1,
{
    lemma_push(v.log, EventView::Placeholder);
}

/// Completing a marker while another is open keeps the state well formed.
pub proof fn lemma_completed(v: ParserView, index: int, kind: SyntaxKind)
    requires
        v.wf(),
        v.open_at(index),
    ensures
        placeholders(v.completed(index, kind).log) == placeholders(v.log) - 1,
        depth(v.completed(index, kind).log) == depth(v.log) - 1,
        add_tokens(v.completed(index, kind).log) == add_tokens(v.log),
        nested(v.completed(index, kind).log.drop_last()),
        placeholders(v.log) >= 2 ==> v.completed(index, kind).inside(),
        placeholders(v.log) == 1 ==> crate::event::finished(v.completed(index, kind).log),
        v.completed(index, kind).closed_at(index),
{
    let e = EventView::StartNode { kind, forward_parent: None };
    let updated = v.log.update(index, e);
    crate::event::lemma_update(v.log, index, e);
    crate::event::lemma_update_nested(v.log, index, e);
    lemma_push(updated, EventView::FinishNode);
    assert(updated.push(EventView::FinishNode).drop_last() =~= updated);
}

/// Starting a parent for a completed node keeps the state well formed.
pub proof fn lemma_preceded(v: ParserView, index: int)
    requires
        v.wf(),
        v.closed_at(index),
    ensures
        v.preceded(index).inside(),
        v.preceded(index).open_at(v.log.len() as int),
        v.preceded(index).closed_at(index),
        placeholders(v.preceded(index).log) == placeholders(v.log) + 1,
{
    let e = EventView::StartNode {
        kind: v.log[index]->StartNode_kind,
        forward_parent: Some((v.log.len() - index) as usize),
    };
    let updated = v.log.update(index, e);
    crate::event::lemma_update(v.log, index, e);
    crate::event::lemma_update_nested(v.log, index, e);
    lemma_push(updated, EventView::Placeholder);
}

/// A recovery keeps the state well formed, leaves no kind undecided, and
/// takes a token unless it stays.
pub proof fn lemma_recovered(v: ParserView, context: ParseErrorContext, recovery: Set<TokenKind>)
    requires
        v.inside(),
    ensures
        v.extends_to(v.recovered(context, recovery)),
        v.recovered(context, recovery).inside(),
        !v.recovery_stays(recovery) ==> v.recovered(context, recovery).position > v.position,
        v.recovery_stays(recovery) ==> v.recovered(context, recovery).position == v.position,
        v.recovered(context, recovery).potential() <= v.potential() + 1,
        !v.recovery_stays(recovery) ==> v.recovered(context, recovery).potential()
            <= v.potential() - 12,
{
    let err = EventView::Error(v.error(context, recovery));
    let l1 = v.log.push(err);
    lemma_push(v.log, err);
    if !v.recovery_stays(recovery) {
        let s = EventView::StartNode { kind: SyntaxKind::Error, forward_parent: None };
        let l2 = l1.push(s);
        lemma_push(l1, s);
        let l3 = l2.push(EventView::AddToken);
        lemma_push(l2, EventView::AddToken);
        lemma_push(l3, EventView::FinishNode);
        lemma_skip_trivia(v.tokens, v.position + 1);
        lemma_significant_skip(v.tokens, v.position + 1);
        lemma_skip_trivia(v.tokens, v.position);
    }
}

/// Expecting a kind keeps the state well formed.
pub proof fn lemma_expected_with_recovery(
    v: ParserView,
    kind: TokenKind,
    context: ParseErrorContext,
    recovery: Set<TokenKind>,
)
    requires
        v.inside(),
    ensures
        v.extends_to(v.expected_with_recovery(kind, context, recovery)),
        v.expected_with_recovery(kind, context, recovery).inside(),
        v.at(kind) || !v.recovery_stays(recovery.union(default_recovery()))
            ==> v.expected_with_recovery(kind, context, recovery).position > v.position,
        v.expected_with_recovery(kind, context, recovery).potential() <= v.potential() + 1,
        v.at(kind) || !v.recovery_stays(recovery.union(default_recovery()))
            ==> v.expected_with_recovery(kind, context, recovery).potential() <= v.potential()
            - 12,
{
    if v.at(kind) {
        lemma_bumped(v);
    } else {
        lemma_recovered(v.expecting(kind), context, recovery.union(default_recovery()));
    }
}

/// The parser: a cursor over the tokens, the event log, and the kinds that
/// the grammar has looked for since the last token was taken.
pub struct Parser<'t, 'input> {
    source: Source<'t, 'input>,
    events: Vec<Event>,
    expected_kinds: Vec<TokenKind>,
}

impl<'t, 'input> View for Parser<'t, 'input> {
    type V = ParserView;

    closed spec fn view(&self) -> ParserView {
        ParserView {
            tokens: self.source.tokens(),
            position: self.source.position(),
            log: crate::event::log_of(self.events@),
            expected: self.expected_kinds@,
        }
    }
}

impl<'t, 'input> Parser<'t, 'input> {
    /// A parser at the start of the tokens of `source`, with an empty log.
    #[must_use]
    pub fn new(source: Source<'t, 'input>) -> (r: Self)
        ensures
            r@ == (ParserView {
                tokens: source.tokens(),
                position: source.position(),
                log: Seq::empty(),
                expected: Seq::empty(),
            }),
    {
        let r = Self { source, events: Vec::new(), expected_kinds: Vec::new() };
        assert(r@.log =~= Seq::<EventView>::empty());
        assert(r@.expected =~= Seq::<TokenKind>::empty());
        r
    }

    /// Parses the whole input as a sequence of statements, and hands out the
    /// event log.
    #[must_use]
    pub fn parse_repl_line(self) -> (events: Vec<Event>)
        requires
            self@.wf(),
            self@.log.len() == 0,
        ensures
            crate::event::log_of(events@) == crate::grammar::program(self@).log,
            crate::event::finished(crate::event::log_of(events@)),
            add_tokens(crate::event::log_of(events@)) == significant_before(
                self@.tokens,
                self@.tokens.len() as int,
            ),
            events@.len() <= 16 * (self@.tokens.len() - self@.position) + 2,
    {
        let mut parser = self;
        let _ = crate::grammar::repl_line(&mut parser);
        parser.events
    }

    /// The event log so far.
    #[must_use]
    pub fn events(&self) -> (r: &[Event])
        ensures
            crate::event::log_of(r@) == self@.log,
    {
        self.events.as_slice()
    }

    pub(crate) fn push_event(&mut self, event: Event)
        ensures
            final(self)@ == (ParserView { log: old(self)@.log.push(event@), ..old(self)@ }),
    {
        self.events.push(event);
        assert(crate::event::log_of(self.events@) =~= crate::event::log_of(old(self).events@).push(
            event@,
        ));
    }

    pub(crate) fn set_event(&mut self, index: usize, event: Event)
        requires
            index < old(self)@.log.len(),
        ensures
            final(self)@ == (ParserView {
                log: old(self)@.log.update(index as int, event@),
                ..old(self)@
            }),
    {
        self.events[index] = event;
        assert(crate::event::log_of(self.events@) =~= crate::event::log_of(
            old(self).events@,
        ).update(index as int, event@));
    }

    /// The kind of the node that starts at `index`.
    pub(crate) fn start_kind(&self, index: usize) -> (r: SyntaxKind)
        requires
            self@.closed_at(index as int),
        ensures
            r == self@.log[index as int]->StartNode_kind,
    {
        match &self.events[index] {
            Event::StartNode { kind, .. } => *kind,
            _ => SyntaxKind::Error,
        }
    }

    /// The number of events in the log.
    pub(crate) fn log_len(&self) -> (r: usize)
        ensures
            r == self@.log.len(),
    {
        self.events.len()
    }

    /// Starts a node whose kind is decided when the marker is completed.
    pub fn start(&mut self) -> (m: Marker)
        ensures
            final(self)@ == old(self)@.started(),
            m.index() == old(self)@.log.len(),
            old(self)@.grows_to(final(self)@),
            final(self)@.open_at(m.index()),
            placeholders(final(self)@.log) == placeholders(old(self)@.log) + 1,
            old(self)@.wf() ==> final(self)@.inside(),
    {
        proof {
            lemma_push(old(self)@.log, EventView::Placeholder);
        }
        let pos = self.events.len();
        self.push_event(Event::Placeholder);
        Marker::new(pos)
    }

    /// Whether the current token is of kind `kind`, which from now on counts
    /// as expected.
    pub fn at(&mut self, kind: TokenKind) -> (r: bool)
        ensures
            final(self)@ == old(self)@.expecting(kind),
            r == old(self)@.at(kind),
    {
        self.expected_kinds.push(kind);
        self.peek() == Some(kind)
    }

    /// Whether the current token is of kind `kind`; nothing is recorded.
    pub fn maybe_at(&mut self, kind: TokenKind) -> (r: bool)
        ensures
            final(self)@ == old(self)@,
            r == old(self)@.at(kind),
            old(self)@.tokens.len() <= usize::MAX,
    {
        self.peek() == Some(kind)
    }

    /// Whether the current token is of one of the kinds in `set`.
    pub fn at_set(&mut self, set: TokenSet) -> (r: bool)
        ensures
            final(self)@ == old(self)@,
            r == old(self)@.at_set(set@),
    {
        match self.peek() {
            Some(kind) => set.contains(kind),
            None => false,
        }
    }

    /// Whether the parser stands where a statement may start or at the end.
    pub fn at_top_level_token(&mut self) -> (r: bool)
        ensures
            final(self)@ == old(self)@,
            r == (old(self)@.at_set(default_recovery()) || old(self)@.at_eof()),
    {
        self.at_set(default_recovery_set()) || self.at_eof()
    }

    pub fn at_keyword(&mut self) -> (r: bool)
        ensures
            final(self)@ == old(self)@,
            r == old(self)@.at_set(keywords()),
    {
        self.at_set(keyword_set())
    }

    pub fn at_eof(&mut self) -> (r: bool)
        ensures
            final(self)@ == old(self)@,
            r == old(self)@.at_eof(),
    {
        self.peek().is_none()
    }

    fn peek(&mut self) -> (r: Option<TokenKind>)
        ensures
            final(self)@ == old(self)@,
            r == old(self)@.current_kind(),
            0 <= old(self)@.position <= old(self)@.tokens.len() <= usize::MAX,
    {
        self.source.peek_nth_kind(0)
    }

    /// Takes the current token, of which there has to be one, into the
    /// innermost open node.
    pub fn bump_any(&mut self)
        requires
            !old(self)@.at_eof(),
        ensures
            final(self)@ == old(self)@.bumped(),
            old(self)@.inside() ==> old(self)@.extends_to(final(self)@) && final(self)@.position
                > old(self)@.position && final(self)@.potential() <= old(self)@.potential() - 15,
    {
        proof {
            if old(self)@.inside() {
                lemma_bumped(old(self)@);
            }
        }
        self.expected_kinds.clear();
        let _ = self.source.next_token();
        self.push_event(Event::AddToken);
        assert(final(self)@.expected =~= Seq::<TokenKind>::empty());
    }

    /// Takes the current token, which has to be of kind `kind`.
    pub fn bump(&mut self, kind: TokenKind)
        requires
            old(self)@.at(kind),
        ensures
            final(self)@ == old(self)@.bumped(),
            old(self)@.inside() ==> old(self)@.extends_to(final(self)@) && final(self)@.position
                > old(self)@.position && final(self)@.potential() <= old(self)@.potential() - 15,
    {
        let _ = self.at(kind);
        self.bump_any();
    }

    /// Takes the current token where it is of kind `kind`; else reports an
    /// error and recovers, stopping only where a statement may start.
    pub fn expect(&mut self, kind: TokenKind, context: ParseErrorContext)
        ensures
            final(self)@ == old(self)@.expected_with_recovery(
                kind,
                context,
                Set::<TokenKind>::empty(),
            ),
            old(self)@.inside() ==> old(self)@.extends_to(final(self)@) && final(self)@.potential() <= old(self)@.potential() + 1,
            old(self)@.inside() && old(self)@.at(kind) ==> final(self)@.position > old(self)@.position,
    {
        proof {
            if old(self)@.inside() {
                lemma_expected_with_recovery(
                    old(self)@,
                    kind,
                    context,
                    Set::<TokenKind>::empty(),
                );
            }
        }
        if self.at(kind) {
            self.bump_any();
        } else {
            let _ = self.error(context);
        }
    }

    /// Takes the current token where it is of kind `kind`; else reports an
    /// error and recovers, stopping at the kinds of `recovery_set` too.
    pub fn expect_with_recovery(
        &mut self,
        kind: TokenKind,
        context: ParseErrorContext,
        recovery_set: TokenSet,
    )
        ensures
            final(self)@ == old(self)@.expected_with_recovery(kind, context, recovery_set@),
            old(self)@.inside() ==> old(self)@.extends_to(final(self)@) && final(self)@.potential() <= old(self)@.potential() + 1,
            old(self)@.inside() && (old(self)@.at(kind) || !old(self)@.recovery_stays(
                recovery_set@.union(default_recovery()),
            )) ==> final(self)@.position > old(self)@.position && final(self)@.potential()
                <= old(self)@.potential() - 12,
    {
        proof {
            if old(self)@.inside() {
                lemma_expected_with_recovery(old(self)@, kind, context, recovery_set@);
            }
        }
        if self.at(kind) {
            self.bump_any();
        } else {
            let _ = self.error_with_recovery(context, recovery_set);
        }
    }

    fn error(&mut self, context: ParseErrorContext) -> (r: Option<CompletedMarker>)
        ensures
            final(self)@ == old(self)@.recovered(
                context,
                Set::<TokenKind>::empty().union(default_recovery()),
            ),
            r is None <==> old(self)@.recovery_stays(
                Set::<TokenKind>::empty().union(default_recovery()),
            ),
            r matches Some(m) ==> m.index() == old(self)@.log.len() + 1,
    {
        self.error_with_recovery(context, TokenSet::empty())
    }

    /// Reports an error and recovers, stopping at the kinds of
    /// `recovery_set` and where a statement may start. Hands out the node of
    /// kind `Error` that holds the token it took, if it took one.
    pub fn error_with_recovery(
        &mut self,
        context: ParseErrorContext,
        recovery_set: TokenSet,
    ) -> (r: Option<CompletedMarker>)
        ensures
            final(self)@ == old(self)@.recovered(context, recovery_set@.union(default_recovery())),
            r is None <==> old(self)@.recovery_stays(recovery_set@.union(default_recovery())),
            r matches Some(m) ==> m.index() == old(self)@.log.len() + 1 && final(self)@.closed_at(
                m.index(),
            ),
            old(self)@.inside() ==> old(self)@.extends_to(final(self)@) && final(self)@.potential() <= old(self)@.potential() + 1,
            old(self)@.inside() && r is Some ==> final(self)@.position > old(self)@.position
                && final(self)@.potential() <= old(self)@.potential() - 12,
    {
        proof {
            if old(self)@.inside() {
                lemma_recovered(old(self)@, context, recovery_set@.union(default_recovery()));
            }
        }
        self.error_with_recovery_no_default(
            context,
            recovery_set.union(default_recovery_set()),
        )
    }

    fn error_with_recovery_no_default(
        &mut self,
        context: ParseErrorContext,
        recovery_set: TokenSet,
    ) -> (r: Option<CompletedMarker>)
        ensures
            final(self)@ == old(self)@.recovered(context, recovery_set@),
            r is None <==> old(self)@.recovery_stays(recovery_set@),
            r matches Some(m) ==> m.index() == old(self)@.log.len() + 1,
    {
        let last_token_end = match self.source.last_token_range() {
            Some(range) => range.end(),
            None => TextSize::new(0),
        };
        let kind = match self.source.peek_nth_token(0) {
            // At the end of the input the error stands after the very last token.
            None => ParseErrorKind::Missing { offset: last_token_end },
            Some(token) => {
                if recovery_set.contains(token.kind) {
                    ParseErrorKind::Missing { offset: token.range.start() }
                } else {
                    ParseErrorKind::Unexpected { found: token.kind, range: token.range }
                }
            },
        };
        assert(kind == old(self)@.error_kind(recovery_set@));
        let mut expected: Vec<TokenKind> = Vec::new();
        std::mem::swap(&mut self.expected_kinds, &mut expected);
        self.push_event(Event::Error(ParseError { expected, kind, context }));
        if self.at_set(recovery_set) || self.at_eof() {
            return None;
        }
        let m = self.start();
        self.bump_any();
        let ghost before = self@;
        let done = m.complete(self, SyntaxKind::Error);
        assert(self@.log =~= old(self)@.recovered(context, recovery_set@).log);
        Some(done)
    }
}

} // verus!
