use psh_parser::event::Event;
use psh_parser::lexer::tokenize;
use psh_parser::parse_repl_line;
use psh_parser::grammar::expr::{expr_first_set, BinaryOp, UnaryOp};
use psh_parser::grammar::parse;
use psh_parser::parse_error::{ParseError, ParseErrorContext, ParseErrorKind};
use psh_parser::text::{TextRange, TextSize};
use psh_parser::token_kind::TokenKind;
use psh_parser::token_set::TokenSet;
use psh_parser::parser::Parser;
use psh_parser::sink::Sink;
use psh_parser::source::Source;
use psh_parser::syntax::{PshLanguage, SyntaxKind};

#[derive(Debug, Clone, Copy, PartialEq, Eq, PartialOrd, Ord, Hash)]
enum Lang {}

impl rowan::Language for Lang {
    type Kind = SyntaxKind;

    fn kind_from_raw(raw: rowan::SyntaxKind) -> SyntaxKind {
        PshLanguage::kind_from_raw(raw.0)
    }

    fn kind_to_raw(kind: SyntaxKind) -> rowan::SyntaxKind {
        rowan::SyntaxKind(PshLanguage::kind_to_raw(kind))
    }
}

fn dump(input: &str) -> String {
    let parse = parse_repl_line(input);
    let node = rowan::SyntaxNode::<Lang>::new_root(parse.green_node().clone());
    assert_eq!(node.text().to_string(), input);
    assert_eq!(node.kind(), SyntaxKind::SourceFile);
    parse.debug_tree(&format!("{:#?}", node))
}

fn check(input: &str, expected: &str) {
    assert_eq!(dump(input), expected);
}

#[test]
fn empty_input_is_an_empty_source_file() {
    check("", "SourceFile@0..0");
    assert!(parse_repl_line("").errors().is_empty());
}

#[test]
fn only_trivia_is_a_source_file_of_trivia() {
    check(
        " -- c\n ",
        r#"SourceFile@0..7
  Whitespace@0..1 " "
  Comment@1..5 "-- c"
  Whitespace@5..7 "\n ""#,
    );
}

#[test]
fn trivia_goes_back_between_the_tokens() {
    check(
        " -- c\n x ",
        r#"SourceFile@0..9
  Whitespace@0..1 " "
  Comment@1..5 "-- c"
  Whitespace@5..7 "\n "
  VariableRef@7..9
    Path@7..9
      Ident@7..8 "x"
      Whitespace@8..9 " ""#,
    );
}

#[test]
fn multiplication_binds_tighter_than_addition() {
    check(
        "1 + 2 * 3",
        r#"SourceFile@0..9
  InfixExpr@0..9
    IntLiteral@0..2
      Integer@0..1 "1"
      Whitespace@1..2 " "
    Plus@2..3 "+"
    Whitespace@3..4 " "
    InfixExpr@4..9
      IntLiteral@4..6
        Integer@4..5 "2"
        Whitespace@5..6 " "
      Star@6..7 "*"
      Whitespace@7..8 " "
      IntLiteral@8..9
        Integer@8..9 "3""#,
    );
}

#[test]
fn subtraction_associates_to_the_left() {
    check(
        "1 - 2 - 3",
        r#"SourceFile@0..9
  InfixExpr@0..9
    InfixExpr@0..6
      IntLiteral@0..2
        Integer@0..1 "1"
        Whitespace@1..2 " "
      Minus@2..3 "-"
      Whitespace@3..4 " "
      IntLiteral@4..6
        Integer@4..5 "2"
        Whitespace@5..6 " "
    Minus@6..7 "-"
    Whitespace@7..8 " "
    IntLiteral@8..9
      Integer@8..9 "3""#,
    );
}

#[test]
fn pipe_binds_loosest() {
    check(
        "1 | 2 + 3",
        r#"SourceFile@0..9
  InfixExpr@0..9
    IntLiteral@0..2
      Integer@0..1 "1"
      Whitespace@1..2 " "
    Pipe@2..3 "|"
    Whitespace@3..4 " "
    InfixExpr@4..9
      IntLiteral@4..6
        Integer@4..5 "2"
        Whitespace@5..6 " "
      Plus@6..7 "+"
      Whitespace@7..8 " "
      IntLiteral@8..9
        Integer@8..9 "3""#,
    );
}

#[test]
fn product_then_sum_then_pipe() {
    check(
        "1*2+3|4",
        r#"SourceFile@0..7
  InfixExpr@0..7
    InfixExpr@0..5
      InfixExpr@0..3
        IntLiteral@0..1
          Integer@0..1 "1"
        Star@1..2 "*"
        IntLiteral@2..3
          Integer@2..3 "2"
      Plus@3..4 "+"
      IntLiteral@4..5
        Integer@4..5 "3"
    Pipe@5..6 "|"
    IntLiteral@6..7
      Integer@6..7 "4""#,
    );
}

#[test]
fn unary_minus_binds_tighter_than_sum_and_looser_than_product() {
    check(
        "-1 * 2",
        r#"SourceFile@0..6
  UnaryExpr@0..6
    Minus@0..1 "-"
    InfixExpr@1..6
      IntLiteral@1..3
        Integer@1..2 "1"
        Whitespace@2..3 " "
      Star@3..4 "*"
      Whitespace@4..5 " "
      IntLiteral@5..6
        Integer@5..6 "2""#,
    );
    check(
        "-1+2",
        r#"SourceFile@0..4
  InfixExpr@0..4
    UnaryExpr@0..2
      Minus@0..1 "-"
      IntLiteral@1..2
        Integer@1..2 "1"
    Plus@2..3 "+"
    IntLiteral@3..4
      Integer@3..4 "2""#,
    );
}

#[test]
fn no_expressions_in_parentheses_is_unit() {
    check(
        "()",
        r#"SourceFile@0..2
  Unit@0..2
    LParen@0..1 "("
    RParen@1..2 ")""#,
    );
}

#[test]
fn one_expression_in_parentheses_is_paren_expr() {
    check(
        "(1)",
        r#"SourceFile@0..3
  ParenExpr@0..3
    LParen@0..1 "("
    IntLiteral@1..2
      Integer@1..2 "1"
    RParen@2..3 ")""#,
    );
    check(
        "(1,)",
        r#"SourceFile@0..4
  ParenExpr@0..4
    LParen@0..1 "("
    IntLiteral@1..2
      Integer@1..2 "1"
    Comma@2..3 ","
    RParen@3..4 ")""#,
    );
}

#[test]
fn two_expressions_in_parentheses_is_tuple_expr() {
    check(
        "(1, 2)",
        r#"SourceFile@0..6
  TupleExpr@0..6
    LParen@0..1 "("
    IntLiteral@1..2
      Integer@1..2 "1"
    Comma@2..3 ","
    Whitespace@3..4 " "
    IntLiteral@4..5
      Integer@4..5 "2"
    RParen@5..6 ")""#,
    );
}

#[test]
fn missing_comma_is_reported_and_the_expression_still_read() {
    check(
        "(1 2)",
        r#"SourceFile@0..5
  TupleExpr@0..5
    LParen@0..1 "("
    IntLiteral@1..3
      Integer@1..2 "1"
      Whitespace@2..3 " "
    IntLiteral@3..4
      Integer@3..4 "2"
    RParen@4..5 ")"
error at position 3 while parsing a comma between expressions inside parentheses. Missing expected ‘,’"#,
    );
}

#[test]
fn lone_open_parenthesis_misses_its_close_at_the_end() {
    let input = "(";
    check(
        input,
        r#"SourceFile@0..1
  Unit@0..1
    LParen@0..1 "("
error at position 1 while parsing a close parenthesis after an expression. Missing expected ‘)’"#,
    );
    let parse = parse_repl_line(input);
    assert_eq!(parse.errors().len(), 1);
    let message = parse.errors()[0].message();
    assert!(message.starts_with(&format!("error at position {} ", input.len())));
    assert!(message.ends_with("Missing expected ‘)’"));
}

#[test]
fn stray_close_parenthesis_does_not_spoil_the_next_statement() {
    check(
        "let x = )  let y = 1",
        r#"SourceFile@0..20
  VariableDef@0..11
    LetKw@0..3 "let"
    Whitespace@3..4 " "
    Ident@4..5 "x"
    Whitespace@5..6 " "
    Equals@6..7 "="
    Whitespace@7..8 " "
    Error@8..11
      RParen@8..9 ")"
      Whitespace@9..11 "  "
  VariableDef@11..20
    LetKw@11..14 "let"
    Whitespace@14..15 " "
    Ident@15..16 "y"
    Whitespace@16..17 " "
    Equals@17..18 "="
    Whitespace@18..19 " "
    IntLiteral@19..20
      Integer@19..20 "1"
error in range 8..9 while parsing the expression in a variable definition. Found ‘)’, but expected integer, fraction, string, identifier, ‘-’, ‘(’ or ‘if‘"#,
    );
}

#[test]
fn let_inside_an_open_group_ends_the_group() {
    check(
        "(let",
        r#"SourceFile@0..4
  Unit@0..1
    LParen@0..1 "("
  VariableDef@1..4
    LetKw@1..4 "let"
error at position 1 while parsing a close parenthesis after an expression. Missing expected ‘)’
error at position 4 while parsing the name in a variable definition. Missing expected identifier
error at position 4 while parsing the ‘=’ in a variable definition. Missing expected ‘=’
error at position 4 while parsing the expression in a variable definition. Missing expected integer, fraction, string, identifier, ‘-’, ‘(’ or ‘if‘"#,
    );
}

#[test]
fn missing_right_operand_is_reported_at_the_end() {
    check(
        "1 +",
        r#"SourceFile@0..3
  InfixExpr@0..3
    IntLiteral@0..2
      Integer@0..1 "1"
      Whitespace@1..2 " "
    Plus@2..3 "+"
error at position 3 while parsing a top level expression. Missing expected integer, fraction, string, identifier, ‘-’, ‘(’ or ‘if‘"#,
    );
}

#[test]
fn if_then_else_has_a_node_for_each_part() {
    check(
        "if a then b else c",
        r#"SourceFile@0..18
  IfThenElseExpr@0..18
    IfKw@0..2 "if"
    Whitespace@2..3 " "
    IfExpr@3..5
      VariableRef@3..5
        Path@3..5
          Ident@3..4 "a"
          Whitespace@4..5 " "
    ThenKw@5..9 "then"
    Whitespace@9..10 " "
    ThenExpr@10..12
      VariableRef@10..12
        Path@10..12
          Ident@10..11 "b"
          Whitespace@11..12 " "
    ElseKw@12..16 "else"
    Whitespace@16..17 " "
    ElseExpr@17..18
      VariableRef@17..18
        Path@17..18
          Ident@17..18 "c""#,
    );
}

#[test]
fn if_without_its_expressions_keeps_its_keywords() {
    check(
        "if then else",
        r#"SourceFile@0..12
  IfThenElseExpr@0..12
    IfKw@0..2 "if"
    Whitespace@2..3 " "
    IfExpr@3..3
    ThenKw@3..7 "then"
    Whitespace@7..8 " "
    ThenExpr@8..8
    ElseKw@8..12 "else"
    ElseExpr@12..12
error at position 3 while parsing the conditional expression in an if-then-else expression. Missing expected integer, fraction, string, identifier, ‘-’, ‘(’ or ‘if‘
error at position 8 while parsing the `then` expression in an if-then-else expression. Missing expected integer, fraction, string, identifier, ‘-’, ‘(’ or ‘if‘
error at position 12 while parsing the `else` expression in an if-then-else expression. Missing expected integer, fraction, string, identifier, ‘-’, ‘(’ or ‘if‘"#,
    );
}

#[test]
fn paths_take_double_colons_and_reject_single_ones() {
    check(
        "a::b:c",
        r#"SourceFile@0..6
  VariableRef@0..6
    Path@0..6
      Ident@0..1 "a"
      DoubleColon@1..3 "::"
      Ident@3..4 "b"
      Error@4..5
        Colon@4..5 ":"
      Ident@5..6 "c"
error in range 4..5 while parsing a variable reference. Found ‘:’, but expected ‘::’"#,
    );
}

#[test]
fn let_binding_of_a_fraction_and_a_string() {
    check(
        "let x = 1.5\nlet s = 'a'",
        r#"SourceFile@0..23
  VariableDef@0..12
    LetKw@0..3 "let"
    Whitespace@3..4 " "
    Ident@4..5 "x"
    Whitespace@5..6 " "
    Equals@6..7 "="
    Whitespace@7..8 " "
    FractionLiteral@8..12
      Fraction@8..11 "1.5"
      Whitespace@11..12 "\n"
  VariableDef@12..23
    LetKw@12..15 "let"
    Whitespace@15..16 " "
    Ident@16..17 "s"
    Whitespace@17..18 " "
    Equals@18..19 "="
    Whitespace@19..20 " "
    StringLiteral@20..23
      String@20..23 "'a'""#,
    );
}

#[test]
fn missing_equals_still_reads_the_expression() {
    check(
        "let x 1",
        r#"SourceFile@0..7
  VariableDef@0..7
    LetKw@0..3 "let"
    Whitespace@3..4 " "
    Ident@4..5 "x"
    Whitespace@5..6 " "
    IntLiteral@6..7
      Integer@6..7 "1"
error at position 6 while parsing the ‘=’ in a variable definition. Missing expected ‘=’"#,
    );
}

#[test]
fn unrecognized_characters_become_error_nodes() {
    check(
        "$ 1",
        r#"SourceFile@0..3
  Error@0..2
    Error@0..1 "$"
    Whitespace@1..2 " "
  IntLiteral@2..3
    Integer@2..3 "1"
error in range 0..1 while parsing a top level expression. Found an unrecognized token, but expected ‘let’, integer, fraction, string, identifier, ‘-’, ‘(’ or ‘if‘"#,
    );
}

#[test]
fn garbage_around_lets_is_parsed_to_the_end() {
    let inputs = [
        "let let ) ) let (let x = 1",
        ") let ] let } let",
        "((((((let",
        "if if if let then else",
        "let = = = let , , let x = (1, let",
        "- - - let + + + let * let",
        "a::::b let :: let c:d:e",
        "\"open let 'x let",
    ];
    for input in inputs {
        let parse = parse_repl_line(input);
        assert!(!parse.errors().is_empty(), "{input}");
        let node = rowan::SyntaxNode::<Lang>::new_root(parse.green_node().clone());
        assert_eq!(node.text().to_string(), input);
        let tokens = tokenize(input).into_iter().filter(|t| !t.kind.is_trivia()).count();
        assert!(parse.errors().len() <= 4 * tokens + 4, "{input}");
    }
}

#[test]
fn every_text_comes_back_from_its_tree() {
    let pieces = [
        "let", "if", "then", "else", "x", "y_1", "12", "3.4", "\"s\"", "'t'", ":", "::", ",", "+",
        "-", "*", "/", "=", "{", "}", "[", "]", "(", ")", "<", ">", "|", "-- c\n", " ", "\t\n", "é",
        "\"", "_", ".",
    ];
    let mut state: u32 = 12345;
    for _ in 0..400 {
        let mut input = String::new();
        let mut leaves_expected = 0;
        for _ in 0..12 {
            state = state.wrapping_mul(1664525).wrapping_add(1013904223);
            input.push_str(pieces[(state >> 16) as usize % pieces.len()]);
        }
        for _ in tokenize(&input) {
            leaves_expected += 1;
        }
        let parse = parse_repl_line(&input);
        let node = rowan::SyntaxNode::<Lang>::new_root(parse.green_node().clone());
        assert_eq!(node.text().to_string(), input);
        let leaves = node
            .descendants_with_tokens()
            .filter(|element| element.as_token().is_some())
            .count();
        assert_eq!(leaves, leaves_expected);
    }
}

#[test]
fn the_event_log_of_a_sum_reparents_the_left_operand() {
    let tokens = tokenize("1+2");
    let events = Parser::new(Source::new(&tokens)).parse_repl_line();
    assert_eq!(
        events,
        vec![
            Event::StartNode { kind: SyntaxKind::SourceFile, forward_parent: None },
            Event::StartNode { kind: SyntaxKind::IntLiteral, forward_parent: Some(4) },
            Event::AddToken,
            Event::FinishNode,
            Event::AddToken,
            Event::StartNode { kind: SyntaxKind::InfixExpr, forward_parent: None },
            Event::StartNode { kind: SyntaxKind::IntLiteral, forward_parent: None },
            Event::AddToken,
            Event::FinishNode,
            Event::FinishNode,
            Event::FinishNode,
        ]
    );
    let parse = Sink::new(&tokens, events).finish();
    assert!(parse.errors().is_empty());
    let node = rowan::SyntaxNode::<Lang>::new_root(parse.green_node().clone());
    let kinds: Vec<SyntaxKind> = node.descendants().map(|n| n.kind()).collect();
    assert_eq!(
        kinds,
        vec![
            SyntaxKind::SourceFile,
            SyntaxKind::InfixExpr,
            SyntaxKind::IntLiteral,
            SyntaxKind::IntLiteral
        ]
    );
}

#[test]
fn a_chain_of_forward_parents_opens_outermost_first() {
    let tokens = tokenize("1-2-3");
    let events = parse(&tokens);
    assert!(events.len() <= 16 * tokens.len() + 2);
    assert_eq!(
        events[1],
        Event::StartNode { kind: SyntaxKind::IntLiteral, forward_parent: Some(4) }
    );
    assert_eq!(
        events[5],
        Event::StartNode { kind: SyntaxKind::InfixExpr, forward_parent: Some(6) }
    );
    assert_eq!(
        events[11],
        Event::StartNode { kind: SyntaxKind::InfixExpr, forward_parent: None }
    );
}

#[test]
fn raw_kinds_go_there_and_back() {
    for raw in 0..47u16 {
        let kind = PshLanguage::kind_from_raw(raw);
        assert_eq!(PshLanguage::kind_to_raw(kind), raw);
        assert_eq!(SyntaxKind::from_raw(raw), Some(kind));
    }
    assert_eq!(SyntaxKind::from_raw(47), None);
    assert_eq!(SyntaxKind::Whitespace.to_raw(), 0);
    assert_eq!(SyntaxKind::Error.to_raw(), 27);
    assert_eq!(SyntaxKind::SourceFile.to_raw(), 28);
    assert_eq!(SyntaxKind::TuplePatternArg.to_raw(), 46);
}

fn run_parser_test(input: &str, parsing_fn: fn(&str) -> psh_parser::Parse) -> String {
    let actual_parse = parsing_fn(input);
    let node = rowan::SyntaxNode::<Lang>::new_root(actual_parse.green_node().clone());

    actual_parse.debug_tree(&format!("{:#?}", node))
}

#[test]
fn repl_line() {
    let cases = [
        "1\n===\nSourceFile@0..1\n  IntLiteral@0..1\n    Integer@0..1 \"1\"\n",
        "x\n===\nSourceFile@0..1\n  VariableRef@0..1\n    Path@0..1\n      Ident@0..1 \"x\"\n",
        "let\n===\nSourceFile@0..3\n  VariableDef@0..3\n    LetKw@0..3 \"let\"\nerror at position 3 while parsing the name in a variable definition. Missing expected identifier\nerror at position 3 while parsing the ‘=’ in a variable definition. Missing expected ‘=’\nerror at position 3 while parsing the expression in a variable definition. Missing expected integer, fraction, string, identifier, ‘-’, ‘(’ or ‘if‘\n",
        ")\n===\nSourceFile@0..1\n  Error@0..1\n    RParen@0..1 \")\"\nerror in range 0..1 while parsing a top level expression. Found ‘)’, but expected ‘let’, integer, fraction, string, identifier, ‘-’, ‘(’ or ‘if‘\n",
    ];
    for test_content in cases {
        let (input, _expected) = test_content.split_once("\n===\n").unwrap();

        let result = run_parser_test(input, parse_repl_line);

        let expected_test_content = format!("{input}\n===\n{result}\n");
        assert_eq!(expected_test_content, test_content);
    }
}

#[test]
fn the_log_grows_no_faster_than_the_tokens() {
    for input in ["", "if if if if if if", "((((((((", "let let let let", "1+1+1+1+1+1+1", "a:b:c:d:e:f", "if ( if ( if ("] {
        let tokens = tokenize(input);
        let events = parse(&tokens);
        assert!(events.len() <= 16 * tokens.len() + 2, "{input}");
        assert!(matches!(events.first(), Some(Event::StartNode { kind: SyntaxKind::SourceFile, forward_parent: None })));
        assert_eq!(events.last(), Some(&Event::FinishNode));
        let starts = events.iter().filter(|e| matches!(e, Event::StartNode { .. })).count();
        let finishes = events.iter().filter(|e| matches!(e, Event::FinishNode)).count();
        assert_eq!(starts, finishes);
        assert!(events.iter().all(|e| *e != Event::Placeholder));
        let added = events.iter().filter(|e| matches!(e, Event::AddToken)).count();
        assert_eq!(added, tokens.iter().filter(|t| !t.kind.is_trivia()).count());
    }
}

#[test]
fn binding_powers() {
    assert_eq!(BinaryOp::Pipe.binding_power(), (1, 2));
    assert_eq!(BinaryOp::Add.binding_power(), (3, 4));
    assert_eq!(BinaryOp::Sub.binding_power(), (3, 4));
    assert_eq!(BinaryOp::Mul.binding_power(), (5, 6));
    assert_eq!(BinaryOp::Div.binding_power(), (5, 6));
    assert_eq!(UnaryOp::Neg.binding_power(), ((), 5));
}

#[test]
fn expressions_start_with_seven_kinds() {
    let firsts = expr_first_set();
    for kind in [
        TokenKind::Integer,
        TokenKind::Fraction,
        TokenKind::String,
        TokenKind::Ident,
        TokenKind::Minus,
        TokenKind::LParen,
        TokenKind::IfKw,
    ] {
        assert!(firsts.contains(kind));
    }
    for kind in [TokenKind::LetKw, TokenKind::Plus, TokenKind::RParen, TokenKind::Whitespace] {
        assert!(!firsts.contains(kind));
    }
}

#[test]
fn only_unrecognized_characters_still_give_one_tree() {
    check(
        "$$",
        r#"SourceFile@0..2
  Error@0..1
    Error@0..1 "$"
  Error@1..2
    Error@1..2 "$"
error in range 0..1 while parsing a top level expression. Found an unrecognized token, but expected ‘let’, integer, fraction, string, identifier, ‘-’, ‘(’ or ‘if‘
error in range 1..2 while parsing a top level expression. Found an unrecognized token, but expected ‘let’, integer, fraction, string, identifier, ‘-’, ‘(’ or ‘if‘"#,
    );
}

#[test]
fn the_primitives_of_the_parser_log_what_they_do() {
    let tokens = tokenize(" x )");
    let mut p = Parser::new(Source::new(&tokens));
    let m = p.start();
    assert!(!p.at_eof());
    assert!(!p.maybe_at(TokenKind::RParen));
    assert!(!p.at(TokenKind::Integer));
    assert!(p.at(TokenKind::Ident));
    assert!(p.at_set(TokenSet::new([TokenKind::Ident, TokenKind::Plus])));
    assert!(!p.at_keyword());
    assert!(!p.at_top_level_token());
    p.bump(TokenKind::Ident);
    // Taking a token forgets what was expected before it.
    p.expect(TokenKind::Comma, ParseErrorContext::ParenExprComma);
    assert!(p.at_eof());
    assert!(p.at_top_level_token());
    assert!(p.error_with_recovery(ParseErrorContext::TopLevelExpr, TokenSet::empty()).is_none());
    let done = m.complete(&mut p, SyntaxKind::ParenExpr);
    let outer = done.precede(&mut p);
    let _ = outer.complete(&mut p, SyntaxKind::TupleExpr);
    assert_eq!(
        p.events(),
        vec![
            Event::StartNode { kind: SyntaxKind::ParenExpr, forward_parent: Some(8) },
            Event::AddToken,
            Event::Error(ParseError {
                expected: vec![TokenKind::Comma],
                kind: ParseErrorKind::Unexpected {
                    found: TokenKind::RParen,
                    range: TextRange::new(TextSize::new(3), TextSize::new(4)),
                },
                context: ParseErrorContext::ParenExprComma,
            }),
            Event::StartNode { kind: SyntaxKind::Error, forward_parent: None },
            Event::AddToken,
            Event::FinishNode,
            Event::Error(ParseError {
                expected: vec![],
                kind: ParseErrorKind::Missing { offset: TextSize::new(4) },
                context: ParseErrorContext::TopLevelExpr,
            }),
            Event::FinishNode,
            Event::StartNode { kind: SyntaxKind::TupleExpr, forward_parent: None },
            Event::FinishNode,
        ]
    );
}

#[test]
fn recovery_before_a_recovery_kind_misses_at_its_start() {
    let tokens = tokenize("  then");
    let mut p = Parser::new(Source::new(&tokens));
    let _root = p.start();
    assert!(!p.at(TokenKind::Integer));
    let taken = p.error_with_recovery(
        ParseErrorContext::IfThenElseIfExpr,
        TokenSet::new([TokenKind::ThenKw]),
    );
    assert!(taken.is_none());
    assert!(p.at(TokenKind::ThenKw));
    let events = p.events();
    assert_eq!(
        events[1],
        Event::Error(ParseError {
            expected: vec![TokenKind::Integer],
            kind: ParseErrorKind::Missing { offset: TextSize::new(2) },
            context: ParseErrorContext::IfThenElseIfExpr,
        })
    );
    assert_eq!(events.len(), 2);
}
