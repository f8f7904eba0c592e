//! Statements.

use vstd::prelude::*;
use crate::grammar::expr::{expression, hands_out, parse_expr};
use crate::grammar::variable_def::{parse_variable_def, variable_def};
use crate::marker::CompletedMarker;
use crate::parse_error::ParseErrorContext;
use crate::parser::{Parser, ParserView};
use crate::token_kind::TokenKind;

verus! {

/// The state after a statement was parsed, and the index at which its node
/// starts, if there is one: a let-binding where `let` stands, an expression
/// otherwise.
pub open spec fn statement(v: ParserView) -> (ParserView, Option<int>) {
    let looked = v.expecting(TokenKind::LetKw);
    if v.at(TokenKind::LetKw) {
        (variable_def(looked), Some(v.log.len() as int))
    } else {
        expression(looked, 0, ParseErrorContext::TopLevelExpr, Set::<TokenKind>::empty())
    }
}

/// Parses one statement: a let-binding where `let` stands, an expression
/// otherwise. Where anything is left of the input, some of it is taken.
pub fn stmt(p: &mut Parser) -> (r: Option<CompletedMarker>)
    requires
        old(p)@.inside(),
    ensures
        final(p)@ == statement(old(p)@).0,
        hands_out(r, statement(old(p)@).1),
        old(p)@.extends_to(final(p)@),
        !old(p)@.at_eof() ==> final(p)@.position > old(p)@.position && final(p)@.potential()
            <= old(p)@.potential(),
        r matches Some(m) ==> final(p)@.closed_at(m.index()) && m.index() >= old(p)@.log.len(),
{
    if p.at(TokenKind::LetKw) {
        Some(parse_variable_def(p))
    } else {
        parse_expr(p, ParseErrorContext::TopLevelExpr)
    }
}

} // verus!
