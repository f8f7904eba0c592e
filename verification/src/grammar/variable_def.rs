//! Let-bindings.

use vstd::prelude::*;
use crate::grammar::expr::{expr_first_set, expr_firsts, expression, parse_expr};
use crate::grammar::ident::parse_ident;
use crate::marker::CompletedMarker;
use crate::parse_error::ParseErrorContext;
use crate::parser::{Parser, ParserView};
use crate::syntax::SyntaxKind;
use crate::token_kind::TokenKind;
use crate::token_set::TokenSet;

verus! {

/// The state after a let-binding was parsed: a node of kind `VariableDef`
/// around `let`, the name, `=` and the expression.
pub open spec fn variable_def(v: ParserView) -> ParserView {
    expression(
        v.started().bumped().expected_with_recovery(
            TokenKind::Ident,
            ParseErrorContext::VariableDefIdent,
            Set::<TokenKind>::empty().insert(TokenKind::Equals),
        ).expected_with_recovery(
            TokenKind::Equals,
            ParseErrorContext::VariableDefEquals,
            expr_firsts(),
        ),
        0,
        ParseErrorContext::VariableDefExpr,
        Set::<TokenKind>::empty(),
    ).0.completed(v.log.len() as int, SyntaxKind::VariableDef)
}

/// Parses `let` name `=` expression, in a node of kind `VariableDef`. Where
/// the `=` is missing, the expression is still looked for.
pub fn parse_variable_def(p: &mut Parser) -> (done: CompletedMarker)
    requires
        old(p)@.inside(),
        old(p)@.at(TokenKind::LetKw),
    ensures
        final(p)@ == variable_def(old(p)@),
        old(p)@.extends_to(final(p)@),
        final(p)@.position > old(p)@.position,
        final(p)@.potential() <= old(p)@.potential(),
        done.index() == old(p)@.log.len(),
        final(p)@.closed_at(done.index()),
{
    let m = p.start();
    p.bump(TokenKind::LetKw);

    parse_ident(
        p,
        ParseErrorContext::VariableDefIdent,
        TokenSet::empty().plus(TokenKind::Equals),
    );
    p.expect_with_recovery(
        TokenKind::Equals,
        ParseErrorContext::VariableDefEquals,
        expr_first_set(),
    );

    let _ = parse_expr(p, ParseErrorContext::VariableDefExpr);

    m.complete(p, SyntaxKind::VariableDef)
}

} // verus!
