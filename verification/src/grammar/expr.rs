//! Expressions: literals, variables, groups, prefix and infix operators and
//! if-then-else, by binding power.

use vstd::prelude::*;
use crate::event::placeholders;
use crate::grammar::path::{parse_path, path};
use crate::marker::CompletedMarker;
use crate::parse_error::ParseErrorContext;
use crate::parser::{default_recovery, Parser, ParserView};
use crate::syntax::SyntaxKind;
use crate::token_kind::TokenKind;
use crate::token_set::TokenSet;

verus! {

/// The kinds with which an expression may start.
pub open spec fn expr_firsts() -> Set<TokenKind> {
    set![
        TokenKind::Integer,
        TokenKind::Fraction,
        TokenKind::String,
        TokenKind::Ident,
        TokenKind::Minus,
        TokenKind::LParen,
        TokenKind::IfKw,
    ]
}

pub fn expr_first_set() -> (r: TokenSet)
    ensures
        r@ == expr_firsts(),
{
    let r = TokenSet::empty().plus(TokenKind::Integer).plus(TokenKind::Fraction).plus(
        TokenKind::String,
    ).plus(TokenKind::Ident).plus(TokenKind::Minus).plus(TokenKind::LParen).plus(TokenKind::IfKw);
    assert(r@ =~= expr_firsts());
    r
}

/// The kinds of the infix operators.
pub open spec fn operators() -> Set<TokenKind> {
    set![TokenKind::Plus, TokenKind::Minus, TokenKind::Star, TokenKind::Slash, TokenKind::Pipe]
}

fn operator_set() -> (r: TokenSet)
    ensures
        r@ == operators(),
{
    let r = TokenSet::empty().plus(TokenKind::Plus).plus(TokenKind::Minus).plus(
        TokenKind::Star,
    ).plus(TokenKind::Slash).plus(TokenKind::Pipe);
    assert(r@ =~= operators());
    r
}

/// An infix operator.
#[derive(Debug, Clone, Copy, PartialEq, Eq, Structural)]
pub enum BinaryOp {
    Pipe,
    Add,
    Sub,
    Mul,
    Div,
}

impl BinaryOp {
    /// How tightly the operator binds on its left and on its right. The
    /// right power is one above the left, so that the operator associates to
    /// the left; the pipe binds loosest, then sum and difference, then
    /// product and quotient.
    pub open spec fn spec_binding_power(&self) -> (u8, u8) {
        match self {
            BinaryOp::Pipe => (1, 2),
            BinaryOp::Add | BinaryOp::Sub => (3, 4),
            BinaryOp::Mul | BinaryOp::Div => (5, 6),
        }
    }

    #[verifier::when_used_as_spec(spec_binding_power)]
    pub fn binding_power(&self) -> (r: (u8, u8))
        ensures
            r == self.spec_binding_power(),
            r.1 == r.0 + 1,
    {
        match self {
            BinaryOp::Pipe => (1, 2),
            BinaryOp::Add | BinaryOp::Sub => (3, 4),
            BinaryOp::Mul | BinaryOp::Div => (5, 6),
        }
    }
}

/// The operators form three tiers, the pipe below sum and difference,
/// these below product and quotient; within a tier the powers are the same,
/// and the right power of each operator is above its left power, so that a
/// chain of operators of one tier groups to the left.
pub proof fn lemma_operator_tiers(op: BinaryOp)
    ensures
        op.spec_binding_power().0 < op.spec_binding_power().1,
        BinaryOp::Pipe.spec_binding_power().1 < BinaryOp::Add.spec_binding_power().0,
        BinaryOp::Add.spec_binding_power() == BinaryOp::Sub.spec_binding_power(),
        BinaryOp::Add.spec_binding_power().1 < BinaryOp::Mul.spec_binding_power().0,
        BinaryOp::Mul.spec_binding_power() == BinaryOp::Div.spec_binding_power(),
        BinaryOp::Add.spec_binding_power().0 < UnaryOp::Neg.spec_binding_power().1
            <= BinaryOp::Mul.spec_binding_power().0,
{
}

/// A prefix operator.
#[derive(Debug, Clone, Copy, PartialEq, Eq, Structural)]
pub enum UnaryOp {
    Neg,
}

impl UnaryOp {
    /// How tightly the operator binds on its right: tighter than sum and
    /// difference, and no tighter than product and quotient, which join its
    /// operand.
    pub open spec fn spec_binding_power(&self) -> ((), u8) {
        ((), 5)
    }

    #[verifier::when_used_as_spec(spec_binding_power)]
    pub fn binding_power(&self) -> (r: ((), u8))
        ensures
            r == self.spec_binding_power(),
    {
        match self {
            UnaryOp::Neg => ((), 5),
        }
    }
}

/// The state after no expression was found: every kind that starts one was
/// looked for, and the error was recovered from.
pub open spec fn no_expression(
    v: ParserView,
    context: ParseErrorContext,
    recovery: Set<TokenKind>,
) -> ParserView {
    v.expecting(TokenKind::Integer).expecting(TokenKind::Fraction).expecting(
        TokenKind::String,
    ).expecting(TokenKind::Ident).expecting(TokenKind::Minus).expecting(
        TokenKind::LParen,
    ).expecting(TokenKind::IfKw).recovered(context, recovery.union(default_recovery()))
}

/// What every rule for an expression promises: the state stays well formed,
/// an expression is found exactly where a token stands that starts one, and
/// then its node is handed out and tokens were taken; else the error is
/// reported, and a token is taken unless the recovery stays. One event is
/// logged at most where no token is taken, and where some are, fourteen
/// fewer than sixteen for each.
pub open spec fn expression_parsed(
    before: ParserView,
    after: ParserView,
    r: Option<CompletedMarker>,
    context: ParseErrorContext,
    recovery: Set<TokenKind>,
) -> bool {
    &&& before.extends_to(after)
    &&& r is Some <==> before.at_set(expr_firsts())
    &&& r matches Some(m) ==> after.closed_at(m.index()) && m.index() >= before.log.len()
        && after.position > before.position
    &&& r is None ==> after == no_expression(before, context, recovery)
    &&& !before.recovery_stays(recovery.union(default_recovery())) ==> after.position
        > before.position
    &&& after.potential() <= before.potential() + 1
    &&& after.position > before.position ==> after.potential() <= before.potential() - 2
}

/// Whether the node that a rule hands out is the one that starts at `node`.
pub open spec fn hands_out(r: Option<CompletedMarker>, node: Option<int>) -> bool {
    match r {
        Some(m) => node == Some(m.index()),
        None => node is None,
    }
}

/// The state after the operator that stands here was looked up, each kind
/// of operator looked for in turn up to the one found, and the operator.
pub open spec fn operator_sought(v: ParserView) -> (ParserView, BinaryOp) {
    let plus = v.expecting(TokenKind::Plus);
    let minus = plus.expecting(TokenKind::Minus);
    let star = minus.expecting(TokenKind::Star);
    let slash = star.expecting(TokenKind::Slash);
    if v.at(TokenKind::Plus) {
        (plus, BinaryOp::Add)
    } else if v.at(TokenKind::Minus) {
        (minus, BinaryOp::Sub)
    } else if v.at(TokenKind::Star) {
        (star, BinaryOp::Mul)
    } else if v.at(TokenKind::Slash) {
        (slash, BinaryOp::Div)
    } else {
        (slash.expecting(TokenKind::Pipe), BinaryOp::Pipe)
    }
}

/// The state after an expression was parsed whose infix operators all bind
/// at least as tightly on their left as `minimum`, and the index at which
/// its node starts, if there is one: an operand, then the operators that
/// follow it with their right operands.
pub open spec fn expression(
    v: ParserView,
    minimum: u8,
    context: ParseErrorContext,
    recovery: Set<TokenKind>,
) -> (ParserView, Option<int>)
    decreases v.remaining(), 3int,
{
    let (first, lhs) = operand(v, context, recovery);
    if lhs is Some && first.ahead_of(v) {
        let (last, node) = infix_rest(first, lhs->0, minimum, context, recovery);
        (last, Some(node))
    } else {
        (first, lhs)
    }
}

/// The state after the operators that follow the node at `lhs` were parsed
/// with their right operands, and the index at which the node of the whole
/// starts. An operator that binds less tightly on its left than `minimum`
/// ends the expression, and so does a right operand that is missing. Else
/// the operator is taken, a parent is started for the node at `lhs`, the
/// right operand is parsed at the right binding power of the operator, and
/// the parent is completed as a node of kind `InfixExpr`, which is the left
/// operand of what follows.
pub open spec fn infix_rest(
    v: ParserView,
    lhs: int,
    minimum: u8,
    context: ParseErrorContext,
    recovery: Set<TokenKind>,
) -> (ParserView, int)
    decreases v.remaining(), 4int,
{
    if !v.at_set(operators()) {
        (v, lhs)
    } else {
        let (sought, op) = operator_sought(v);
        if op.spec_binding_power().0 < minimum {
            (sought, lhs)
        } else {
            let taken = sought.bumped();
            let parent = taken.log.len() as int;
            let start = taken.preceded(lhs);
            if !start.ahead_of(v) {
                (start, lhs)
            } else {
                let (right, rhs) = expression(start, op.spec_binding_power().1, context, recovery);
                let done = right.completed(parent, SyntaxKind::InfixExpr);
                if rhs is Some && done.ahead_of(v) {
                    infix_rest(done, parent, minimum, context, recovery)
                } else {
                    (done, parent)
                }
            }
        }
    }
}

/// The state after an operand was parsed, and the index at which its node
/// starts, if there is one. The kinds that start an operand are looked for
/// in turn; the first that stands here decides the rule. Where none does,
/// the error is reported and recovered from.
pub open spec fn operand(
    v: ParserView,
    context: ParseErrorContext,
    recovery: Set<TokenKind>,
) -> (ParserView, Option<int>)
    decreases v.remaining(), 2int,
{
    let node = Some(v.log.len() as int);
    let integer = v.expecting(TokenKind::Integer);
    let fraction = integer.expecting(TokenKind::Fraction);
    let string = fraction.expecting(TokenKind::String);
    let ident = string.expecting(TokenKind::Ident);
    let minus = ident.expecting(TokenKind::Minus);
    let paren = minus.expecting(TokenKind::LParen);
    let if_kw = paren.expecting(TokenKind::IfKw);
    if v.at(TokenKind::Integer) {
        (literal(integer, SyntaxKind::IntLiteral), node)
    } else if v.at(TokenKind::Fraction) {
        (literal(fraction, SyntaxKind::FractionLiteral), node)
    } else if v.at(TokenKind::String) {
        (literal(string, SyntaxKind::StringLiteral), node)
    } else if v.at(TokenKind::Ident) {
        (variable_ref(ident), node)
    } else if v.at(TokenKind::Minus) {
        (prefix_expr(minus), node)
    } else if v.at(TokenKind::LParen) {
        (group(paren), node)
    } else if v.at(TokenKind::IfKw) {
        (if_then_else(if_kw), node)
    } else {
        (if_kw.recovered(context, recovery.union(default_recovery())), None)
    }
}

/// The state after a variable was parsed: a path in a node of kind
/// `VariableRef`.
pub open spec fn variable_ref(v: ParserView) -> ParserView {
    path(v, ParseErrorContext::VariableRef, Set::<TokenKind>::empty(), SyntaxKind::VariableRef)
}

/// The state after a prefix expression was parsed: a node of kind
/// `UnaryExpr` around the operator and its operand, in which only the
/// operators bind that bind on their left as tightly as the prefix
/// operator does on its right.
pub open spec fn prefix_expr(v: ParserView) -> ParserView
    decreases v.remaining(), 1int,
{
    let start = v.started().bumped();
    let done = if start.ahead_of(v) {
        expression(
            start,
            UnaryOp::Neg.spec_binding_power().1,
            ParseErrorContext::PrefixExprExpr,
            Set::<TokenKind>::empty(),
        ).0
    } else {
        start
    };
    done.completed(v.log.len() as int, SyntaxKind::UnaryExpr)
}

/// Whether a group ends here: before `)`, at the end of the input, and
/// where a statement may start.
pub open spec fn group_stops(v: ParserView) -> bool {
    v.at(TokenKind::RParen) || v.recovery_stays(default_recovery())
}

/// The state after the expressions of a group were parsed, of which
/// `count` were parsed before, and their number: until the group ends, an
/// expression, and unless the group ends then, a comma.
pub open spec fn group_items(v: ParserView, count: int) -> (ParserView, int)
    decreases v.remaining(), 4int,
{
    if group_stops(v) {
        (v, count)
    } else {
        let item = expression(
            v,
            0,
            ParseErrorContext::ParenExprExpr,
            Set::<TokenKind>::empty(),
        ).0;
        if group_stops(item) {
            (item, count + 1)
        } else {
            let next = item.expected_with_recovery(
                TokenKind::Comma,
                ParseErrorContext::ParenExprComma,
                expr_firsts(),
            );
            if next.ahead_of(v) {
                group_items(next, count + 1)
            } else {
                (next, count + 1)
            }
        }
    }
}

/// The state after a group was parsed: `(`, its expressions, and `)`, in a
/// node whose kind goes by the number of the expressions.
pub open spec fn group(v: ParserView) -> ParserView
    decreases v.remaining(), 1int,
{
    let start = v.started().bumped();
    let (items, count) = if start.ahead_of(v) {
        group_items(start, 0)
    } else {
        (start, 0)
    };
    items.expected_with_recovery(
        TokenKind::RParen,
        ParseErrorContext::ParenExprRightParen,
        Set::<TokenKind>::empty(),
    ).completed(v.log.len() as int, group_kind(count))
}

/// The state after one of the three expressions of an if-then-else was
/// parsed, in a node of kind `kind`.
pub open spec fn branch(
    v: ParserView,
    before: ParserView,
    recovery: Set<TokenKind>,
    context: ParseErrorContext,
    kind: SyntaxKind,
) -> ParserView
    decreases before.remaining(), 0int,
{
    let start = v.started();
    let done = if start.ahead_of(before) {
        expression(start, 0, context, recovery).0
    } else {
        start
    };
    done.completed(v.log.len() as int, kind)
}

/// The state after an if-then-else was parsed: a node of kind
/// `IfThenElseExpr` around `if`, the condition in a node of kind `IfExpr`,
/// `then`, an expression in a node of kind `ThenExpr`, `else`, and an
/// expression in a node of kind `ElseExpr`.
pub open spec fn if_then_else(v: ParserView) -> ParserView
    decreases v.remaining(), 1int,
{
    let condition = branch(
        v.started().bumped(),
        v,
        Set::<TokenKind>::empty().insert(TokenKind::ThenKw),
        ParseErrorContext::IfThenElseIfExpr,
        SyntaxKind::IfExpr,
    );
    let then_branch = branch(
        condition.expected_with_recovery(
            TokenKind::ThenKw,
            ParseErrorContext::IfThenElseThenKw,
            expr_firsts(),
        ),
        v,
        Set::<TokenKind>::empty().insert(TokenKind::ElseKw),
        ParseErrorContext::IfThenElseThenExpr,
        SyntaxKind::ThenExpr,
    );
    let else_branch = branch(
        then_branch.expected_with_recovery(
            TokenKind::ElseKw,
            ParseErrorContext::IfThenElseElseKw,
            expr_firsts(),
        ),
        v,
        Set::<TokenKind>::empty(),
        ParseErrorContext::IfThenElseElseExpr,
        SyntaxKind::ElseExpr,
    );
    else_branch.completed(v.log.len() as int, SyntaxKind::IfThenElseExpr)
}

/// Parses an expression, recovering only where a statement may start.
pub fn parse_expr(p: &mut Parser, context: ParseErrorContext) -> (r: Option<CompletedMarker>)
    requires
        old(p)@.inside(),
    ensures
        final(p)@ == expression(old(p)@, 0, context, Set::<TokenKind>::empty()).0,
        hands_out(r, expression(old(p)@, 0, context, Set::<TokenKind>::empty()).1),
        expression_parsed(old(p)@, final(p)@, r, context, Set::<TokenKind>::empty()),
    decreases old(p)@.remaining(), 5int,
{
    parse_expr_with_recovery(p, TokenSet::empty(), context)
}

/// Parses an expression, recovering at the kinds of `recovery_set` too.
pub fn parse_expr_with_recovery(
    p: &mut Parser,
    recovery_set: TokenSet,
    context: ParseErrorContext,
) -> (r: Option<CompletedMarker>)
    requires
        old(p)@.inside(),
    ensures
        final(p)@ == expression(old(p)@, 0, context, recovery_set@).0,
        hands_out(r, expression(old(p)@, 0, context, recovery_set@).1),
        expression_parsed(old(p)@, final(p)@, r, context, recovery_set@),
    decreases old(p)@.remaining(), 4int,
{
    parse_expr_with_binding_power(p, 0, recovery_set, context)
}

/// Parses an expression whose infix operators all bind at least as tightly
/// on their left as `minimum_binding_power`: an operand, then as long as
/// such an operator follows, the operator and a right operand that binds
/// tighter, the two operands and the operator in one node of kind
/// `InfixExpr`. After a right operand that is missing, it stops.
pub fn parse_expr_with_binding_power(
    p: &mut Parser,
    minimum_binding_power: u8,
    recovery_set: TokenSet,
    context: ParseErrorContext,
) -> (r: Option<CompletedMarker>)
    requires
        old(p)@.inside(),
    ensures
        final(p)@ == expression(old(p)@, minimum_binding_power, context, recovery_set@).0,
        hands_out(r, expression(old(p)@, minimum_binding_power, context, recovery_set@).1),
        expression_parsed(old(p)@, final(p)@, r, context, recovery_set@),
    decreases old(p)@.remaining(), 3int,
{
    let mut lhs = match parse_lhs(p, recovery_set, context) {
        Some(lhs) => lhs,
        None => {
            return None;
        },
    };

    let ghost first = p@;
    let ghost first_node = lhs.index();

    loop
        invariant_except_break
            infix_rest(p@, lhs.index(), minimum_binding_power, context, recovery_set@)
                == infix_rest(first, first_node, minimum_binding_power, context, recovery_set@),
        invariant
            p@.inside(),
            old(p)@.inside(),
            old(p)@.grows_to(p@),
            placeholders(p@.log) == placeholders(old(p)@.log),
            p@.closed_at(lhs.index()),
            lhs.index() >= old(p)@.log.len(),
            p@.position > old(p)@.position,
            p@.potential() <= old(p)@.potential() - 2,
            old(p)@.at_set(expr_firsts()),
        ensures
            (p@, lhs.index()) == infix_rest(
                first,
                first_node,
                minimum_binding_power,
                context,
                recovery_set@,
            ),
        decreases p@.remaining(),
    {
        if !p.at_set(operator_set()) {
            // Not at an operator: what follows is for the caller to decide.
            break ;
        }
        let op = if p.at(TokenKind::Plus) {
            BinaryOp::Add
        } else if p.at(TokenKind::Minus) {
            BinaryOp::Sub
        } else if p.at(TokenKind::Star) {
            BinaryOp::Mul
        } else if p.at(TokenKind::Slash) {
            BinaryOp::Div
        } else {
            let at_pipe = p.at(TokenKind::Pipe);
            assert(at_pipe);
            BinaryOp::Pipe
        };

        let (left_binding_power, right_binding_power) = op.binding_power();

        if left_binding_power < minimum_binding_power {
            break ;
        }
        // Eat the operator’s token.

        p.bump_any();

        let m = lhs.precede(p);
        let parsed_rhs = parse_expr_with_binding_power(
            p,
            right_binding_power,
            recovery_set,
            context,
        ).is_some();
        lhs = m.complete(p, SyntaxKind::InfixExpr);

        if !parsed_rhs {
            break ;
        }
    }

    Some(lhs)
}

/// Parses an operand: a literal, a variable, a prefix expression, a group
/// or an if-then-else, by the kind of the current token.
pub fn parse_lhs(p: &mut Parser, recovery_set: TokenSet, context: ParseErrorContext) -> (r:
    Option<CompletedMarker>)
    requires
        old(p)@.inside(),
    ensures
        final(p)@ == operand(old(p)@, context, recovery_set@).0,
        hands_out(r, operand(old(p)@, context, recovery_set@).1),
        expression_parsed(old(p)@, final(p)@, r, context, recovery_set@),
    decreases old(p)@.remaining(), 2int,
{
    let cm = if p.at(TokenKind::Integer) {
        parse_int_literal(p)
    } else if p.at(TokenKind::Fraction) {
        parse_fraction_literal(p)
    } else if p.at(TokenKind::String) {
        parse_string_literal(p)
    } else if p.at(TokenKind::Ident) {
        parse_variable_ref(p)
    } else if p.at(TokenKind::Minus) {
        parse_prefix_expr(p)
    } else if p.at(TokenKind::LParen) {
        parse_paren_expr(p)
    } else if p.at(TokenKind::IfKw) {
        parse_if_then_else_expr(p)
    } else {
        let _ = p.error_with_recovery(context, recovery_set);
        return None;
    };

    Some(cm)
}

/// What a rule promises that parses one node from the current token on:
/// the node starts where the log ended, tokens were taken, and fewer events
/// were logged than sixteen for each.
pub open spec fn node_parsed(
    before: ParserView,
    after: ParserView,
    done: CompletedMarker,
) -> bool {
    &&& before.extends_to(after)
    &&& done.index() == before.log.len()
    &&& after.closed_at(done.index())
    &&& after.position > before.position
    &&& after.potential() <= before.potential() - 2
}

/// The state after a literal was parsed: a node of kind `kind` around the
/// current token.
pub open spec fn literal(v: ParserView, kind: SyntaxKind) -> ParserView {
    v.started().bumped().completed(v.log.len() as int, kind)
}

pub fn parse_int_literal(p: &mut Parser) -> (done: CompletedMarker)
    requires
        old(p)@.inside(),
        old(p)@.at(TokenKind::Integer),
    ensures
        node_parsed(old(p)@, final(p)@, done),
        final(p)@ == literal(old(p)@, SyntaxKind::IntLiteral),
{
    let m = p.start();
    p.bump(TokenKind::Integer);
    m.complete(p, SyntaxKind::IntLiteral)
}

pub fn parse_fraction_literal(p: &mut Parser) -> (done: CompletedMarker)
    requires
        old(p)@.inside(),
        old(p)@.at(TokenKind::Fraction),
    ensures
        node_parsed(old(p)@, final(p)@, done),
        final(p)@ == literal(old(p)@, SyntaxKind::FractionLiteral),
{
    let m = p.start();
    p.bump(TokenKind::Fraction);
    m.complete(p, SyntaxKind::FractionLiteral)
}

pub fn parse_string_literal(p: &mut Parser) -> (done: CompletedMarker)
    requires
        old(p)@.inside(),
        old(p)@.at(TokenKind::String),
    ensures
        node_parsed(old(p)@, final(p)@, done),
        final(p)@ == literal(old(p)@, SyntaxKind::StringLiteral),
{
    let m = p.start();
    p.bump(TokenKind::String);
    m.complete(p, SyntaxKind::StringLiteral)
}

/// Parses a variable: a path in a node of kind `VariableRef`.
pub fn parse_variable_ref(p: &mut Parser) -> (done: CompletedMarker)
    requires
        old(p)@.inside(),
        old(p)@.at(TokenKind::Ident),
    ensures
        final(p)@ == variable_ref(old(p)@),
        node_parsed(old(p)@, final(p)@, done),
{
    parse_path(p, ParseErrorContext::VariableRef, TokenSet::empty(), SyntaxKind::VariableRef)
}

/// Parses `if` condition `then` expression `else` expression, in a node of
/// kind `IfThenElseExpr` that holds one node for each of the three
/// expressions. Where a keyword is missing, the expression after it is
/// still looked for.
pub fn parse_if_then_else_expr(p: &mut Parser) -> (done: CompletedMarker)
    requires
        old(p)@.inside(),
        old(p)@.at(TokenKind::IfKw),
    ensures
        final(p)@ == if_then_else(old(p)@),
        node_parsed(old(p)@, final(p)@, done),
    decreases old(p)@.remaining(), 1int,
{
    let if_then_else_m = p.start();
    p.bump(TokenKind::IfKw);

    let if_m = p.start();
    let _ = parse_expr_with_recovery(
        p,
        TokenSet::empty().plus(TokenKind::ThenKw),
        ParseErrorContext::IfThenElseIfExpr,
    );
    let _ = if_m.complete(p, SyntaxKind::IfExpr);

    p.expect_with_recovery(
        TokenKind::ThenKw,
        ParseErrorContext::IfThenElseThenKw,
        expr_first_set(),
    );
    let then_m = p.start();
    let _ = parse_expr_with_recovery(
        p,
        TokenSet::empty().plus(TokenKind::ElseKw),
        ParseErrorContext::IfThenElseThenExpr,
    );
    let _ = then_m.complete(p, SyntaxKind::ThenExpr);

    p.expect_with_recovery(
        TokenKind::ElseKw,
        ParseErrorContext::IfThenElseElseKw,
        expr_first_set(),
    );
    let else_m = p.start();
    let _ = parse_expr(p, ParseErrorContext::IfThenElseElseExpr);
    let _ = else_m.complete(p, SyntaxKind::ElseExpr);

    if_then_else_m.complete(p, SyntaxKind::IfThenElseExpr)
}

/// Parses `-` and its operand, in a node of kind `UnaryExpr`.
pub fn parse_prefix_expr(p: &mut Parser) -> (done: CompletedMarker)
    requires
        old(p)@.inside(),
        old(p)@.at(TokenKind::Minus),
    ensures
        final(p)@ == prefix_expr(old(p)@),
        node_parsed(old(p)@, final(p)@, done),
    decreases old(p)@.remaining(), 1int,
{
    let m = p.start();

    let op = UnaryOp::Neg;
    let ((), right_binding_power) = op.binding_power();

    // Eat the operator’s token.
    p.bump(TokenKind::Minus);

    let _ = parse_expr_with_binding_power(
        p,
        right_binding_power,
        TokenSet::default(),
        ParseErrorContext::PrefixExprExpr,
    );

    m.complete(p, SyntaxKind::UnaryExpr)
}

/// The kind of a group of `count` expressions between parentheses.
pub open spec fn group_kind(count: int) -> SyntaxKind {
    if count == 0 {
        SyntaxKind::Unit
    } else if count == 1 {
        SyntaxKind::ParenExpr
    } else {
        SyntaxKind::TupleExpr
    }
}

fn group_should_stop(p: &mut Parser) -> (r: bool)
    ensures
        final(p)@ == old(p)@,
        r == group_stops(old(p)@),
        old(p)@.tokens.len() <= usize::MAX,
{
    p.maybe_at(TokenKind::RParen) || p.at_top_level_token()
}

/// Parses `(`, expressions with commas between them, and `)`, in one node:
/// of kind `Unit` where there is no expression, `ParenExpr` where there is
/// one, `TupleExpr` where there are more.
pub fn parse_paren_expr(p: &mut Parser) -> (done: CompletedMarker)
    requires
        old(p)@.inside(),
        old(p)@.at(TokenKind::LParen),
    ensures
        final(p)@ == group(old(p)@),
        node_parsed(old(p)@, final(p)@, done),
    decreases old(p)@.remaining(), 1int,
{
    let paren_m = p.start();
    p.bump(TokenKind::LParen);

    let mut arg_len: usize = 0;
    let ghost start = p@;
    loop
        invariant_except_break
            group_items(p@, arg_len as int) == group_items(start, 0),
        invariant
            p@.inside(),
            old(p)@.inside(),
            old(p)@.grows_to(p@),
            p@.open_at(paren_m.index()),
            paren_m.index() == old(p)@.log.len(),
            placeholders(p@.log) == placeholders(old(p)@.log) + 1,
            p@.position > old(p)@.position,
            p@.potential() <= old(p)@.potential() - 14,
            arg_len <= p@.position - old(p)@.position,
            p@.position <= p@.tokens.len(),
        ensures
            (p@, arg_len as int) == group_items(start, 0),
        decreases p@.remaining(),
    {
        if group_should_stop(p) {
            break ;
        }
        let _ = parse_expr(p, ParseErrorContext::ParenExprExpr);
        assert(p@.tokens.len() <= usize::MAX);
        arg_len += 1;

        if group_should_stop(p) {
            break ;
        }
        p.expect_with_recovery(
            TokenKind::Comma,
            ParseErrorContext::ParenExprComma,
            expr_first_set(),
        );
    }

    p.expect(TokenKind::RParen, ParseErrorContext::ParenExprRightParen);

    let kind = match arg_len {
        0 => SyntaxKind::Unit,
        1 => SyntaxKind::ParenExpr,
        _ => SyntaxKind::TupleExpr,
    };
    assert(kind == group_kind(arg_len as int));
    paren_m.complete(p, kind)
}

} // verus!
