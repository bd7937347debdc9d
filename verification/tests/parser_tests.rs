use ko::ast::{Expression, ExpressionNode, Operator, StatementNode};
use ko::parser::{ParseErrorKind, Parser};
use ko::position::Position;
use ko::token::{Token, TokenType};

fn tok(token_type: TokenType, line: &str, start: usize, end: usize, lexeme: &str) -> Token {
    Token::new(token_type, (1, line.to_string()), (start, end), lexeme)
}

fn num(line: &str, start: usize, end: usize, lexeme: &str) -> Token {
    tok(TokenType::Number, line, start, end, lexeme)
}

fn op(line: &str, start: usize, end: usize, lexeme: &str) -> Token {
    tok(TokenType::Operator, line, start, end, lexeme)
}

fn number_of(e: &Expression) -> &str {
    match &e.node {
        ExpressionNode::Number(s) => s.as_str(),
        other => panic!("expected a number, got {:?}", other),
    }
}

fn parse_one_expression(tokens: Vec<Token>) -> Expression {
    let mut parser = Parser::new(tokens, "test.ko");
    let ast = parser.parse().expect("parse should succeed");
    assert_eq!(ast.len(), 1);
    match ast.into_iter().next().unwrap().node {
        StatementNode::Expression(e) => e,
        other => panic!("expected an expression statement, got {:?}", other),
    }
}

#[test]
fn single_operator_tree_and_span() {
    let line = "1 + 2";
    let e = parse_one_expression(vec![
        num(line, 1, 1, "1"),
        op(line, 3, 3, "+"),
        num(line, 5, 5, "2"),
    ]);
    match &e.node {
        ExpressionNode::Binary(l, o, r) => {
            assert_eq!(number_of(l), "1");
            assert_eq!(*o, Operator::Add);
            assert_eq!(number_of(r), "2");
        },
        other => panic!("expected a binary node, got {:?}", other),
    }
    assert_eq!(e.pos.start_column, 1);
    assert_eq!(e.pos.end_column, 5);
    assert_eq!(e.pos.line_text, line);
}

#[test]
fn precedence_multiplication_binds_tighter() {
    let line = "2 + 3 * 4";
    let e = parse_one_expression(vec![
        num(line, 1, 1, "2"),
        op(line, 3, 3, "+"),
        num(line, 5, 5, "3"),
        op(line, 7, 7, "*"),
        num(line, 9, 9, "4"),
    ]);
    match &e.node {
        ExpressionNode::Binary(l, o, r) => {
            assert_eq!(number_of(l), "2");
            assert_eq!(*o, Operator::Add);
            match &r.node {
                ExpressionNode::Binary(rl, ro, rr) => {
                    assert_eq!(number_of(rl), "3");
                    assert_eq!(*ro, Operator::Mul);
                    assert_eq!(number_of(rr), "4");
                },
                other => panic!("expected a nested product, got {:?}", other),
            }
        },
        other => panic!("expected a binary node, got {:?}", other),
    }
}

#[test]
fn equal_precedence_groups_to_the_left() {
    let line = "10 - 3 - 2";
    let e = parse_one_expression(vec![
        num(line, 1, 2, "10"),
        op(line, 4, 4, "-"),
        num(line, 6, 6, "3"),
        op(line, 8, 8, "-"),
        num(line, 10, 10, "2"),
    ]);
    match &e.node {
        ExpressionNode::Binary(l, o, r) => {
            match &l.node {
                ExpressionNode::Binary(ll, lo, lr) => {
                    assert_eq!(number_of(ll), "10");
                    assert_eq!(*lo, Operator::Sub);
                    assert_eq!(number_of(lr), "3");
                },
                other => panic!("expected a nested difference, got {:?}", other),
            }
            assert_eq!(*o, Operator::Sub);
            assert_eq!(number_of(r), "2");
        },
        other => panic!("expected a binary node, got {:?}", other),
    }
}

#[test]
fn later_lower_precedence_forces_a_fold() {
    let line = "2 * 3 + 4";
    let e = parse_one_expression(vec![
        num(line, 1, 1, "2"),
        op(line, 3, 3, "*"),
        num(line, 5, 5, "3"),
        op(line, 7, 7, "+"),
        num(line, 9, 9, "4"),
    ]);
    match &e.node {
        ExpressionNode::Binary(l, o, r) => {
            match &l.node {
                ExpressionNode::Binary(ll, lo, lr) => {
                    assert_eq!(number_of(ll), "2");
                    assert_eq!(*lo, Operator::Mul);
                    assert_eq!(number_of(lr), "3");
                },
                other => panic!("expected a nested product, got {:?}", other),
            }
            assert_eq!(*o, Operator::Add);
            assert_eq!(number_of(r), "4");
        },
        other => panic!("expected a binary node, got {:?}", other),
    }
}

#[test]
fn boolean_literal_yes_is_true() {
    let e = parse_one_expression(vec![tok(TokenType::Bool, "yes", 1, 3, "yes")]);
    assert!(matches!(e.node, ExpressionNode::Bool(true)));
}

#[test]
fn boolean_literal_no_is_false() {
    let e = parse_one_expression(vec![tok(TokenType::Bool, "no", 1, 2, "no")]);
    assert!(matches!(e.node, ExpressionNode::Bool(false)));
}

#[test]
fn assignment_with_trailing_newline() {
    let line = "x = 5";
    let mut parser = Parser::new(
        vec![
            tok(TokenType::Identifier, line, 1, 1, "x"),
            tok(TokenType::Symbol, line, 3, 3, "="),
            num(line, 5, 5, "5"),
            tok(TokenType::EOL, line, 5, 5, "\n"),
        ],
        "test.ko",
    );
    let ast = parser.parse().expect("parse should succeed");
    assert_eq!(ast.len(), 1);
    match &ast[0].node {
        StatementNode::Assignment(target, value) => {
            assert!(matches!(&target.node, ExpressionNode::Identifier(s) if s == "x"));
            assert_eq!(number_of(value), "5");
        },
        other => panic!("expected an assignment, got {:?}", other),
    }
}

#[test]
fn assignment_with_implicit_end_of_input_terminator() {
    let line = "x = 5";
    let mut parser = Parser::new(
        vec![
            tok(TokenType::Identifier, line, 1, 1, "x"),
            tok(TokenType::Symbol, line, 3, 3, "="),
            num(line, 5, 5, "5"),
        ],
        "test.ko",
    );
    let ast = parser.parse().expect("parse should succeed");
    assert_eq!(ast.len(), 1);
    assert!(matches!(&ast[0].node, StatementNode::Assignment(_, _)));
}

#[test]
fn two_statements_on_one_line_fail_the_terminator() {
    let line = "x = 5 y = 6";
    let mut parser = Parser::new(
        vec![
            tok(TokenType::Identifier, line, 1, 1, "x"),
            tok(TokenType::Symbol, line, 3, 3, "="),
            num(line, 5, 5, "5"),
            tok(TokenType::Identifier, line, 7, 7, "y"),
            tok(TokenType::Symbol, line, 9, 9, "="),
            num(line, 11, 11, "6"),
        ],
        "test.ko",
    );
    let err = parser.parse().expect_err("missing newline must fail");
    assert_eq!(err.kind, ParseErrorKind::MalformedTerminator);
    assert_eq!(err.message, "expected new line found: `y`");
    assert_eq!(err.file, "test.ko");
    assert_eq!(err.position.expect("position").start_column, 7);
}

#[test]
fn table_header_wraps_identifier() {
    let line = "window:";
    let mut parser = Parser::new(
        vec![
            tok(TokenType::Identifier, line, 1, 6, "window"),
            tok(TokenType::Symbol, line, 7, 7, ":"),
            tok(TokenType::EOL, line, 7, 7, "\n"),
        ],
        "test.ko",
    );
    let ast = parser.parse().expect("parse should succeed");
    assert_eq!(ast.len(), 1);
    match &ast[0].node {
        StatementNode::Table(header) => {
            assert!(matches!(&header.node, ExpressionNode::Identifier(s) if s == "window"));
        },
        other => panic!("expected a table header, got {:?}", other),
    }
    assert_eq!(ast[0].pos.start_column, 1);
    assert_eq!(ast[0].pos.end_column, 7);
}

#[test]
fn operator_at_end_is_the_unterminated_operation() {
    let line = "3 +";
    let mut parser = Parser::new(vec![num(line, 1, 1, "3"), op(line, 3, 3, "+")], "test.ko");
    let err = parser.parse().expect_err("dangling operator must fail");
    assert_eq!(err.kind, ParseErrorKind::UnterminatedOperation);
    assert_eq!(err.message, "reached EOF in operation");
    assert_eq!(err.position.expect("position").start_column, 3);
}

#[test]
fn advancing_past_the_end_is_the_internal_overrun() {
    let mut parser = Parser::new(vec![num("7", 1, 1, "7")], "test.ko");
    parser.next().expect("one token to step over");
    let err = parser.next().expect_err("the cursor is already one past the end");
    assert_eq!(err.kind, ParseErrorKind::CursorOverrun);
    assert_eq!(err.message, "moving outside token stack");
}

#[test]
fn fold_at_end_of_input_is_the_unterminated_operation() {
    let line = "2 ^ 3 +";
    let mut parser = Parser::new(
        vec![
            num(line, 1, 1, "2"),
            op(line, 3, 3, "^"),
            num(line, 5, 5, "3"),
            op(line, 7, 7, "+"),
        ],
        "test.ko",
    );
    let err = parser.parse().expect_err("dangling fold must fail");
    assert_eq!(err.kind, ParseErrorKind::UnterminatedOperation);
    assert_eq!(err.message, "reached EOF in operation");
    assert_eq!(err.position.expect("position").start_column, 7);
}

#[test]
fn unexpected_token_at_atom_position() {
    let line = ":";
    let mut parser = Parser::new(vec![tok(TokenType::Symbol, line, 1, 1, ":")], "test.ko");
    let err = parser.parse().expect_err("a bare symbol is no atom");
    assert_eq!(err.kind, ParseErrorKind::UnexpectedToken);
    assert_eq!(err.message, "unexpected token `Symbol`");
}

#[test]
fn empty_stream_parses_to_nothing() {
    let mut parser = Parser::new(Vec::new(), "test.ko");
    let ast = parser.parse().expect("empty input parses");
    assert!(ast.is_empty());
}

#[test]
fn char_atom_takes_last_character() {
    let e = parse_one_expression(vec![tok(TokenType::Char, "'a'", 1, 3, "'a")]);
    assert!(matches!(e.node, ExpressionNode::Char('a')));
}

#[test]
fn operator_table_is_total_over_the_grammar() {
    assert_eq!(Operator::from_str("=="), Some((Operator::Eq, 1)));
    assert_eq!(Operator::from_str("<"), Some((Operator::Lt, 1)));
    assert_eq!(Operator::from_str(">"), Some((Operator::Gt, 1)));
    assert_eq!(Operator::from_str("!="), Some((Operator::NEq, 1)));
    assert_eq!(Operator::from_str("<="), Some((Operator::LtEq, 1)));
    assert_eq!(Operator::from_str(">="), Some((Operator::GtEq, 1)));
    assert_eq!(Operator::from_str("+"), Some((Operator::Add, 2)));
    assert_eq!(Operator::from_str("-"), Some((Operator::Sub, 2)));
    assert_eq!(Operator::from_str("*"), Some((Operator::Mul, 3)));
    assert_eq!(Operator::from_str("/"), Some((Operator::Div, 3)));
    assert_eq!(Operator::from_str("%"), Some((Operator::Mod, 3)));
    assert_eq!(Operator::from_str("^"), Some((Operator::Pow, 4)));
    assert_eq!(Operator::from_str("&&"), None);
    assert_eq!(Operator::from_str(""), None);
}

#[test]
fn operator_symbols_round_trip_through_the_table() {
    let all = [
        Operator::Add,
        Operator::Sub,
        Operator::Mul,
        Operator::Div,
        Operator::Mod,
        Operator::Pow,
        Operator::Eq,
        Operator::Lt,
        Operator::Gt,
        Operator::NEq,
        Operator::LtEq,
        Operator::GtEq,
    ];
    for o in all {
        let s = o.symbol();
        let (back, _) = Operator::from_str(s.as_str()).expect("symbol is in the table");
        assert_eq!(back, o);
    }
}

#[test]
fn token_type_names_match_diagnostics() {
    assert_eq!(TokenType::Number.name(), "Number");
    assert_eq!(TokenType::Keyword.name(), "Keyword");
    assert_eq!(TokenType::EOF.name(), "EOF");
}

#[test]
fn rendering_a_position_is_idempotent() {
    let p = Position::new(1, "hello".to_string(), 2, 4);
    let first = p.render();
    let second = p.render();
    assert_eq!(first, second);
    assert_eq!(first.as_bytes(), second.as_bytes());
}

#[test]
fn rendering_underlines_the_slice() {
    let p = Position::new(1, "hello".to_string(), 2, 4);
    assert_eq!(p.render(), "\n      \u{2502}\n    1 \u{2502} hello\n      \u{2502}  ^^^");
}

#[test]
fn rendering_substitutes_a_filler_for_blank_slices() {
    let p = Position::new(3, "a   b".to_string(), 2, 4);
    assert_eq!(
        p.render(),
        "\n      \u{2502}\n    3 \u{2502} a\u{2500}\u{2500}>b\n      \u{2502}  ^^^"
    );
}

#[test]
fn rendering_saturates_a_zero_start_column() {
    let p = Position::new(12, "x".to_string(), 0, 1);
    assert_eq!(p.render(), "\n      \u{2502}\n   12 \u{2502} x\n      \u{2502} ^^");
}

#[test]
fn statements_keep_source_order() {
    let line1 = "1";
    let line2 = "2";
    let mut parser = Parser::new(
        vec![
            num(line1, 1, 1, "1"),
            tok(TokenType::EOL, line1, 1, 1, "\n"),
            num(line2, 1, 1, "2"),
        ],
        "test.ko",
    );
    let ast = parser.parse().expect("parse should succeed");
    assert_eq!(ast.len(), 2);
    match (&ast[0].node, &ast[1].node) {
        (StatementNode::Expression(a), StatementNode::Expression(b)) => {
            assert_eq!(number_of(a), "1");
            assert_eq!(number_of(b), "2");
        },
        other => panic!("expected two expression statements, got {:?}", other),
    }
}

#[test]
fn eat_lexeme_reports_expected_and_found() {
    let line = "x";
    let mut parser = Parser::new(vec![tok(TokenType::Identifier, line, 1, 1, "x")], "test.ko");
    let got = parser.eat_lexeme("x").expect("lexeme matches");
    assert_eq!(got, "x");
    let mut parser = Parser::new(vec![tok(TokenType::Identifier, line, 1, 1, "x")], "test.ko");
    let err = parser.eat_lexeme("=").expect_err("lexeme differs");
    assert_eq!(err.kind, ParseErrorKind::ExpectedLexeme);
    assert_eq!(err.message, "expected `=`, found `x`");
}

#[test]
fn eat_type_reports_expected_and_found() {
    let line = "x";
    let mut parser = Parser::new(vec![tok(TokenType::Identifier, line, 1, 1, "x")], "test.ko");
    let got = parser.eat_type(&TokenType::Identifier).expect("category matches");
    assert_eq!(got, "x");
    let mut parser = Parser::new(vec![tok(TokenType::Identifier, line, 1, 1, "x")], "test.ko");
    let err = parser.eat_type(&TokenType::Number).expect_err("category differs");
    assert_eq!(err.kind, ParseErrorKind::ExpectedType);
    assert_eq!(err.message, "expected `Number`, found `Identifier`");
}

#[test]
fn expect_checks_do_not_advance() {
    let line = "x";
    let mut parser = Parser::new(vec![tok(TokenType::Identifier, line, 1, 1, "x")], "test.ko");
    parser.expect_type(TokenType::Identifier).expect("category matches");
    parser.expect_lexeme("x").expect("lexeme matches");
    let err = parser.expect_lexeme("y").expect_err("lexeme differs");
    assert_eq!(err.kind, ParseErrorKind::ExpectedLexeme);
    assert!(err.position.is_none());
    // Still at the first token: eating it succeeds afterwards.
    assert_eq!(parser.eat().expect("token remains"), "x");
}

#[test]
fn next_newline_skips_a_run_of_newlines() {
    let line = "\n";
    let mut parser = Parser::new(
        vec![
            tok(TokenType::EOL, line, 1, 1, "\n"),
            tok(TokenType::EOL, line, 1, 1, "\n"),
            num("7", 1, 1, "7"),
        ],
        "test.ko",
    );
    parser.next_newline().expect("skipping newlines succeeds");
    assert_eq!(parser.current_lexeme(), "7");
}

#[test]
fn leading_newlines_are_skipped_before_a_statement() {
    let blank = "\n";
    let line = "7";
    let mut parser = Parser::new(
        vec![
            tok(TokenType::EOL, blank, 1, 1, "\n"),
            tok(TokenType::EOL, blank, 1, 1, "\n"),
            num(line, 1, 1, "7"),
        ],
        "test.ko",
    );
    let ast = parser.parse().expect("parse should succeed");
    assert_eq!(ast.len(), 1);
    match &ast[0].node {
        StatementNode::Expression(e) => assert_eq!(number_of(e), "7"),
        other => panic!("expected an expression statement, got {:?}", other),
    }
}
