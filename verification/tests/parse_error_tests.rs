use psh_parser::parse_error::{ParseError, ParseErrorContext, ParseErrorKind};
use psh_parser::text::{TextRange, TextSize};
use psh_parser::token_kind::TokenKind;

fn check(expected: Vec<TokenKind>, kind: ParseErrorKind, output: &str) {
    let error = ParseError { expected, kind, context: ParseErrorContext::ParenExprExpr };

    assert_eq!(error.message(), output);
}

#[test]
fn one_expected_did_find() {
    check(
        vec![TokenKind::Equals],
        ParseErrorKind::Missing { offset: TextSize::from(20) },
        "error at position 20 while parsing an expression inside parentheses. Missing expected ‘=’",
    );
}

#[test]
fn duplicate_expected_did_find() {
    check(
        vec![TokenKind::Equals, TokenKind::Equals],
        ParseErrorKind::Missing { offset: TextSize::from(20) },
        "error at position 20 while parsing an expression inside parentheses. Missing expected ‘=’",
    );
}

#[test]
fn one_expected_did_not_find() {
    check(
        vec![TokenKind::RParen],
        ParseErrorKind::Missing { offset: TextSize::from(6) },
        "error at position 6 while parsing an expression inside parentheses. Missing expected ‘)’",
    );
}

#[test]
fn multiple_expected_did_find() {
    check(
        vec![TokenKind::Integer, TokenKind::Ident, TokenKind::Minus, TokenKind::LParen],
        ParseErrorKind::Unexpected {
            found: TokenKind::LetKw,
            range: TextRange::new(100.into(), 105.into()),
        },
        "error in range 100..105 while parsing an expression inside parentheses. Found ‘let’, but expected integer, identifier, ‘-’ or ‘(’",
    );
}

#[test]
fn multiple_expected_did_not_find() {
    check(
        vec![TokenKind::Plus, TokenKind::Minus],
        ParseErrorKind::Missing { offset: TextSize::from(1) },
        "error at position 1 while parsing an expression inside parentheses. Missing expected ‘+’ or ‘-’",
    );
}

#[test]
fn duplicates_keep_their_first_place() {
    check(
        vec![
            TokenKind::Plus,
            TokenKind::Minus,
            TokenKind::Plus,
            TokenKind::Star,
            TokenKind::Minus,
        ],
        ParseErrorKind::Missing { offset: TextSize::from(0) },
        "error at position 0 while parsing an expression inside parentheses. Missing expected ‘+’, ‘-’ or ‘*’",
    );
}

#[test]
fn nothing_expected() {
    check(
        vec![],
        ParseErrorKind::Missing { offset: TextSize::from(4294967295) },
        "error at position 4294967295 while parsing an expression inside parentheses. Missing expected ",
    );
}

#[test]
fn every_context_has_its_phrase() {
    let phrases = [
        (ParseErrorContext::FunctionCallArgExpr, "a function call argument"),
        (ParseErrorContext::PrefixExprExpr, "an expression after a prefix operator"),
        (ParseErrorContext::ParenExprExpr, "an expression inside parentheses"),
        (ParseErrorContext::ParenExprRightParen, "a close parenthesis after an expression"),
        (
            ParseErrorContext::IfThenElseIfExpr,
            "the conditional expression in an if-then-else expression",
        ),
        (ParseErrorContext::IfThenElseThenKw, "the `then` keyword in an if-then-else expression"),
        (
            ParseErrorContext::IfThenElseThenExpr,
            "the `then` expression in an if-then-else expression",
        ),
        (ParseErrorContext::IfThenElseElseKw, "the `else` keyword in an if-then-else expression"),
        (
            ParseErrorContext::IfThenElseElseExpr,
            "the `else` expression in an if-then-else expression",
        ),
        (ParseErrorContext::VariableDefIdent, "the name in a variable definition"),
        (ParseErrorContext::VariableDefEquals, "the ‘=’ in a variable definition"),
        (ParseErrorContext::VariableDefExpr, "the expression in a variable definition"),
        (ParseErrorContext::TopLevelExpr, "a top level expression"),
    ];
    for (context, phrase) in phrases {
        assert_eq!(context.context_name(), phrase);
        let error = ParseError {
            expected: vec![TokenKind::Comment],
            kind: ParseErrorKind::Unexpected {
                found: TokenKind::Error,
                range: TextRange::new(7.into(), 19.into()),
            },
            context,
        };
        assert_eq!(
            error.message(),
            format!(
                "error in range 7..19 while parsing {phrase}. Found an unrecognized token, but expected comment"
            )
        );
    }
}

#[test]
fn every_kind_has_its_description() {
    let names = [
        (TokenKind::Whitespace, "whitespace"),
        (TokenKind::LetKw, "‘let’"),
        (TokenKind::IfKw, "‘if‘"),
        (TokenKind::ThenKw, "‘then‘"),
        (TokenKind::ElseKw, "‘else‘"),
        (TokenKind::Ident, "identifier"),
        (TokenKind::Integer, "integer"),
        (TokenKind::Fraction, "fraction"),
        (TokenKind::String, "string"),
        (TokenKind::Colon, "‘:’"),
        (TokenKind::DoubleColon, "‘::’"),
        (TokenKind::Comma, "‘,’"),
        (TokenKind::Plus, "‘+’"),
        (TokenKind::Minus, "‘-’"),
        (TokenKind::Star, "‘*’"),
        (TokenKind::Slash, "‘/’"),
        (TokenKind::Equals, "‘=’"),
        (TokenKind::LParen, "‘(’"),
        (TokenKind::RParen, "‘)’"),
        (TokenKind::LBrace, "‘{’"),
        (TokenKind::RBrace, "‘}’"),
        (TokenKind::LBracket, "‘[’"),
        (TokenKind::RBracket, "‘]’"),
        (TokenKind::LAngle, "‘<’"),
        (TokenKind::RAngle, "‘>’"),
        (TokenKind::Pipe, "‘|’"),
        (TokenKind::Comment, "comment"),
        (TokenKind::Error, "an unrecognized token"),
    ];
    for (kind, name) in names {
        assert_eq!(kind.describe(), name);
    }
    assert!(TokenKind::Whitespace.is_trivia());
    assert!(TokenKind::Comment.is_trivia());
    assert!(!TokenKind::Error.is_trivia());
    assert!(!TokenKind::Ident.is_trivia());
}
