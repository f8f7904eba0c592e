//! The grammar: a program is statements up to the end of the input; a
//! statement is a let-binding or an expression.

//!
//! Each rule has two forms. The function on states says what the rule makes
//! of a state of the parser; the function on the parser does it, and is
//! shown to do that. A rule that goes on after another rule goes on only
//! from a state that stands further on than the state it started from:
//! that is what makes the rules end, and no parse stops for want of it, for
//! a rule always takes a token where the next expects it to.

use vstd::prelude::*;
use crate::event::{add_tokens, finished, log_of, placeholders, Event, EventView};
use crate::lexer::{views, Token, TokenView};
use crate::marker::CompletedMarker;
use crate::parser::{lemma_significant_skip, significant_before, Parser, ParserView};
use crate::source::{lemma_skip_trivia, skip_trivia, Source};
use crate::syntax::SyntaxKind;

pub mod expr;
pub mod ident;
pub mod path;
pub mod stmt;
pub mod variable_def;

verus! {

/// The state after statements were parsed up to the end of the input.
pub open spec fn statements(v: ParserView) -> ParserView
    decreases v.remaining(),
{
    if v.at_eof() {
        v
    } else {
        let next = stmt::statement(v).0;
        if next.ahead_of(v) {
            statements(next)
        } else {
            next
        }
    }
}

/// The state after the whole input was parsed: a node of kind
/// `SourceFile` around its statements.
pub open spec fn program(v: ParserView) -> ParserView {
    statements(v.started()).completed(v.log.len() as int, SyntaxKind::SourceFile)
}

/// The state in which the parse of `tokens` starts: before the first token
/// that is not trivia, with nothing logged and nothing expected.
pub open spec fn start_of(tokens: Seq<TokenView>) -> ParserView {
    ParserView {
        tokens,
        position: skip_trivia(tokens, 0),
        log: Seq::empty(),
        expected: Seq::empty(),
    }
}

/// The state in which the parse of `tokens` ends.
pub open spec fn parsed(tokens: Seq<TokenView>) -> ParserView {
    program(start_of(tokens))
}

/// The first state of a parse is well formed.
pub proof fn lemma_start_of(tokens: Seq<TokenView>)
    ensures
        start_of(tokens).wf(),
{
    lemma_skip_trivia(tokens, 0);
    lemma_significant_skip(tokens, 0);
}

/// Parses `tokens` as a sequence of statements and hands out the event
/// log: the finished log of one tree that adds every token but the trivia,
/// with no more than sixteen events for each token, and two.
pub fn parse(tokens: &[Token]) -> (events: Vec<Event>)
    ensures
        log_of(events@) == parsed(views(tokens@)).log,
        finished(log_of(events@)),
        add_tokens(log_of(events@)) == significant_before(views(tokens@), tokens@.len() as int),
        events@.len() <= 16 * tokens@.len() + 2,
{
    let parser = Parser::new(Source::new(tokens));
    proof {
        lemma_start_of(views(tokens@));
    }
    parser.parse_repl_line()
}

/// Parses the whole input: statements up to the end, in one node of kind
/// `SourceFile`.
pub fn repl_line(p: &mut Parser) -> (done: CompletedMarker)
    requires
        old(p)@.wf(),
        old(p)@.log.len() == 0,
    ensures
        final(p)@ == program(old(p)@),
        finished(final(p)@.log),
        final(p)@.tokens == old(p)@.tokens,
        final(p)@.at_eof(),
        final(p)@.log[0] == (EventView::StartNode {
            kind: SyntaxKind::SourceFile,
            forward_parent: None,
        }),
        done.index() == 0,
        add_tokens(final(p)@.log) == significant_before(
            final(p)@.tokens,
            final(p)@.tokens.len() as int,
        ),
        final(p)@.log.len() <= 16 * (old(p)@.tokens.len() - old(p)@.position) + 2,
{
    let m = p.start();
    let ghost first = p@;
    while !p.at_eof()
        invariant
            statements(p@) == statements(first),
            p@.inside(),
            p@.potential() <= old(p)@.potential() + 1,
            p@.tokens == old(p)@.tokens,
            p@.open_at(m.index()),
            m.index() == 0,
            placeholders(p@.log) == 1,
        decreases p@.remaining(),
    {
        let _ = stmt::stmt(p);
    }
    assert(p@.position == p@.tokens.len());
    m.complete(p, SyntaxKind::SourceFile)
}

} // verus!
