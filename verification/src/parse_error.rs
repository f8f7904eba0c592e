//! What the parser reports: what it expected, what it met, and what it was
//! parsing at that point.

use vstd::prelude::*;
use vstd::string::*;
use itertools::Itertools;
use crate::text::{TextRange, TextSize};
use crate::token_kind::TokenKind;

verus! {

/// One error of a parse.
#[derive(Debug, Clone, PartialEq)]
pub struct ParseError {
    /// The kinds that the grammar looked for, in the order in which it did.
    pub expected: Vec<TokenKind>,
    pub kind: ParseErrorKind,
    pub context: ParseErrorContext,
}

/// What was wrong at the place of an error.
#[derive(Debug, Clone, Copy, PartialEq, Eq, Structural)]
pub enum ParseErrorKind {
    /// Nothing that was expected stood at `offset`.
    Missing { offset: TextSize },
    /// A token of kind `found`, which nothing accepts here, stood at `range`.
    Unexpected { found: TokenKind, range: TextRange },
}

/// What the parser was parsing when it met an error.
#[derive(Debug, Clone, Copy, PartialEq, Eq, Structural)]
pub enum ParseErrorContext {
    FunctionCallArgExpr,
    PrefixExprExpr,
    ParenExprExpr,
    ParenExprComma,
    ParenExprRightParen,
    IfThenElseIfExpr,
    IfThenElseThenKw,
    IfThenElseThenExpr,
    IfThenElseElseKw,
    IfThenElseElseExpr,
    VariableDefIdent,
    VariableDefEquals,
    VariableDefExpr,
    VariableRef,
    TopLevelExpr,
}

impl ParseErrorContext {
    /// The phrase that names the context in a message.
    pub open spec fn phrase(self) -> Seq<char> {
        match self {
            ParseErrorContext::FunctionCallArgExpr => "a function call argument"@,
            ParseErrorContext::PrefixExprExpr => "an expression after a prefix operator"@,
            ParseErrorContext::ParenExprExpr => "an expression inside parentheses"@,
            ParseErrorContext::ParenExprComma => "a comma between expressions inside parentheses"@,
            ParseErrorContext::ParenExprRightParen => "a close parenthesis after an expression"@,
            ParseErrorContext::IfThenElseIfExpr => "the conditional expression in an if-then-else expression"@,
            ParseErrorContext::IfThenElseThenKw => "the `then` keyword in an if-then-else expression"@,
            ParseErrorContext::IfThenElseThenExpr => "the `then` expression in an if-then-else expression"@,
            ParseErrorContext::IfThenElseElseKw => "the `else` keyword in an if-then-else expression"@,
            ParseErrorContext::IfThenElseElseExpr => "the `else` expression in an if-then-else expression"@,
            ParseErrorContext::VariableDefIdent => "the name in a variable definition"@,
            ParseErrorContext::VariableDefEquals => "the ‘=’ in a variable definition"@,
            ParseErrorContext::VariableDefExpr => "the expression in a variable definition"@,
            ParseErrorContext::VariableRef => "a variable reference"@,
            ParseErrorContext::TopLevelExpr => "a top level expression"@,
        }
    }

    #[must_use]
    pub fn context_name(self) -> (r: &'static str)
        ensures
            r@ == self.phrase(),
    {
        match self {
            ParseErrorContext::FunctionCallArgExpr => "a function call argument",
            ParseErrorContext::PrefixExprExpr => "an expression after a prefix operator",
            ParseErrorContext::ParenExprExpr => "an expression inside parentheses",
            ParseErrorContext::ParenExprComma => "a comma between expressions inside parentheses",
            ParseErrorContext::ParenExprRightParen => "a close parenthesis after an expression",
            ParseErrorContext::IfThenElseIfExpr => {
                "the conditional expression in an if-then-else expression"
            },
            ParseErrorContext::IfThenElseThenKw => {
                "the `then` keyword in an if-then-else expression"
            },
            ParseErrorContext::IfThenElseThenExpr => {
                "the `then` expression in an if-then-else expression"
            },
            ParseErrorContext::IfThenElseElseKw => {
                "the `else` keyword in an if-then-else expression"
            },
            ParseErrorContext::IfThenElseElseExpr => {
                "the `else` expression in an if-then-else expression"
            },
            ParseErrorContext::VariableDefIdent => "the name in a variable definition",
            ParseErrorContext::VariableDefEquals => "the ‘=’ in a variable definition",
            ParseErrorContext::VariableDefExpr => "the expression in a variable definition",
            ParseErrorContext::VariableRef => "a variable reference",
            ParseErrorContext::TopLevelExpr => "a top level expression",
        }
    }
}

/// The character of a decimal digit.
pub open spec fn digit_char(d: nat) -> char {
    if d == 0 {
        '0'
    } else if d == 1 {
        '1'
    } else if d == 2 {
        '2'
    } else if d == 3 {
        '3'
    } else if d == 4 {
        '4'
    } else if d == 5 {
        '5'
    } else if d == 6 {
        '6'
    } else if d == 7 {
        '7'
    } else if d == 8 {
        '8'
    } else {
        '9'
    }
}

/// A number in decimal, without leading zeros.
pub open spec fn decimal(n: nat) -> Seq<char>
    decreases n,
{
    if n < 10 {
        seq![digit_char(n)]
    } else {
        decimal(n / 10).push(digit_char(n % 10))
    }
}

fn digit_str(d: u32) -> (r: &'static str)
    requires
        d < 10,
    ensures
        r@ == seq![digit_char(d as nat)],
{
    proof {
        reveal_strlit("0");
        reveal_strlit("1");
        reveal_strlit("2");
        reveal_strlit("3");
        reveal_strlit("4");
        reveal_strlit("5");
        reveal_strlit("6");
        reveal_strlit("7");
        reveal_strlit("8");
        reveal_strlit("9");
    }
    let r = if d == 0 {
        "0"
    } else if d == 1 {
        "1"
    } else if d == 2 {
        "2"
    } else if d == 3 {
        "3"
    } else if d == 4 {
        "4"
    } else if d == 5 {
        "5"
    } else if d == 6 {
        "6"
    } else if d == 7 {
        "7"
    } else if d == 8 {
        "8"
    } else {
        "9"
    };
    assert(r@ =~= seq![digit_char(d as nat)]);
    r
}

/// Writes `n` in decimal at the end of `out`.
fn push_decimal(out: &mut String, n: u32)
    ensures
        final(out)@ == old(out)@ + decimal(n as nat),
    decreases n,
{
    if n >= 10 {
        push_decimal(out, n / 10);
    }
    out.append(digit_str(n % 10));
    assert(final(out)@ =~= old(out)@ + decimal(n as nat));
}

/// `kinds` without the kinds that stood in it before: of each kind the first
/// occurrence stays, in its place.
pub open spec fn first_occurrences(kinds: Seq<TokenKind>) -> Seq<TokenKind>
    decreases kinds.len(),
{
    if kinds.len() == 0 {
        Seq::empty()
    } else {
        let before = first_occurrences(kinds.drop_last());
        if before.contains(kinds.last()) {
            before
        } else {
            before.push(kinds.last())
        }
    }
}

/// `itertools::Itertools::unique` on the kinds of a list: the kinds in the
/// order in which they first occur, each once.
#[verifier::external_body]
fn unique_kinds(kinds: &Vec<TokenKind>) -> (r: Vec<TokenKind>)
    ensures
        r@ == first_occurrences(kinds@),
{
    kinds.iter().copied().unique().collect()
}

/// What stands before the alternative of index `i` among `n`: nothing before
/// the first, ` or ` before the last, `, ` before the others.
pub open spec fn separator(i: int, n: int) -> Seq<char> {
    if i == 0 {
        Seq::empty()
    } else if i == n - 1 {
        " or "@
    } else {
        ", "@
    }
}

/// The first `n` of the alternatives `kinds`, each after its separator.
pub open spec fn alternatives(kinds: Seq<TokenKind>, n: int) -> Seq<char>
    decreases n,
{
    if n <= 0 {
        Seq::empty()
    } else {
        alternatives(kinds, n - 1) + separator(n - 1, kinds.len() as int) + kinds[n
            - 1].description()
    }
}

/// A parse error without its heap: what its message is made from.
pub struct ParseErrorView {
    pub expected: Seq<TokenKind>,
    pub kind: ParseErrorKind,
    pub context: ParseErrorContext,
}

impl ParseErrorView {
    /// The message up to the alternatives.
    pub open spec fn preamble(self) -> Seq<char> {
        match self.kind {
            ParseErrorKind::Missing { offset } => "error at position "@ + decimal(
                offset.raw as nat,
            ) + " while parsing "@ + self.context.phrase() + ". "@ + "Missing expected "@,
            ParseErrorKind::Unexpected { found, range } => "error in range "@ + decimal(
                range.start().raw as nat,
            ) + ".."@ + decimal(range.end().raw as nat) + " while parsing "@
                + self.context.phrase() + ". "@ + "Found "@ + found.description()
                + ", but expected "@,
        }
    }

    /// The message: where the error is, what was being parsed, what was met
    /// and what was expected, each expected kind named once.
    pub open spec fn message(self) -> Seq<char> {
        let kinds = first_occurrences(self.expected);
        self.preamble() + alternatives(kinds, kinds.len() as int)
    }
}

impl View for ParseError {
    type V = ParseErrorView;

    open spec fn view(&self) -> ParseErrorView {
        ParseErrorView { expected: self.expected@, kind: self.kind, context: self.context }
    }
}

impl ParseError {
    /// The error as one line of text.
    #[must_use]
    pub fn message(&self) -> (r: String)
        ensures
            r@ == self@.message(),
    {
        let context_name = self.context.context_name();
        let mut out = String::new();
        match self.kind {
            ParseErrorKind::Missing { offset } => {
                out.append("error at position ");
                push_decimal(&mut out, offset.raw);
                out.append(" while parsing ");
                out.append(context_name);
                out.append(". ");
                out.append("Missing expected ");
            },
            ParseErrorKind::Unexpected { found, range } => {
                out.append("error in range ");
                push_decimal(&mut out, range.start().raw);
                out.append("..");
                push_decimal(&mut out, range.end().raw);
                out.append(" while parsing ");
                out.append(context_name);
                out.append(". ");
                out.append("Found ");
                out.append(found.describe());
                out.append(", but expected ");
            },
        }
        assert(out@ =~= self@.preamble());
        let kinds = unique_kinds(&self.expected);
        let num_expected = kinds.len();
        let mut idx: usize = 0;
        while idx < num_expected
            invariant
                idx <= num_expected,
                num_expected == kinds@.len(),
                kinds@ == first_occurrences(self.expected@),
                out@ == self@.preamble() + alternatives(kinds@, idx as int),
            decreases num_expected - idx,
        {
            let ghost before = out@;
            if idx == 0 {
            } else if idx == num_expected - 1 {
                out.append(" or ");
            } else {
                out.append(", ");
            }
            out.append(kinds[idx].describe());
            assert(out@ =~= self@.preamble() + alternatives(kinds@, idx + 1)) by {
                assert(out@ == before + separator(idx as int, num_expected as int)
                    + kinds@[idx as int].description());
            }
            idx += 1;
        }
        out
    }
}

} // verus!
