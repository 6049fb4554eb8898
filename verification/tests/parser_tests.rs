use rust_runtime::ast::{BinaryOp, Expr, ExprKind, Literal, Program, Statement, StatementKind};
use rust_runtime::grammar::ParseError;
use rust_runtime::parser::{parse, parse_binary_op, parse_expr, parse_statement, parse_term};

fn expr(kind: ExprKind, line: usize) -> Expr {
    Expr { kind, line, file: "f.txt".to_string() }
}

fn num(n: i64, line: usize) -> Expr {
    expr(ExprKind::Literal(Literal::Int(n)), line)
}

fn var(name: &str, line: usize) -> Expr {
    expr(ExprKind::Variable(name.to_string()), line)
}

fn binary(op: BinaryOp, left: Expr, right: Expr, line: usize) -> Expr {
    expr(ExprKind::BinaryOp(op, Box::new(left), Box::new(right)), line)
}

fn statement(kind: StatementKind, line: usize) -> Statement {
    Statement { kind, line, file: "f.txt".to_string() }
}

#[test]
fn term_integer() {
    assert_eq!(parse_term("42", 3, "f.txt"), Ok(num(42, 3)));
    assert_eq!(parse_term("-7", 1, "f.txt"), Ok(num(-7, 1)));
    assert_eq!(parse_term("+5", 1, "f.txt"), Ok(num(5, 1)));
    assert_eq!(parse_term("007", 1, "f.txt"), Ok(num(7, 1)));
    assert_eq!(parse_term("-0", 1, "f.txt"), Ok(num(0, 1)));
}

#[test]
fn term_integer_limits() {
    assert_eq!(parse_term("9223372036854775807", 1, "f.txt"), Ok(num(i64::MAX, 1)));
    assert_eq!(parse_term("-9223372036854775808", 1, "f.txt"), Ok(num(i64::MIN, 1)));
    assert_eq!(
        parse_term("9223372036854775808", 1, "f.txt"),
        Ok(expr(ExprKind::Literal(Literal::Float("9223372036854775808".to_string())), 1))
    );
    assert_eq!(
        parse_term("-9223372036854775809", 1, "f.txt"),
        Ok(expr(ExprKind::Literal(Literal::Float("-9223372036854775809".to_string())), 1))
    );
}

#[test]
fn term_float_forms() {
    for text in [
        "1.5", "-2.25", "+0.5", ".5", "5.", "1e3", "1E3", "1e+3", "2.5e-3", "inf", "-inf",
        "+infinity", "NaN", "nan", "INF", "Infinity",
    ] {
        assert_eq!(
            parse_term(text, 1, "f.txt"),
            Ok(expr(ExprKind::Literal(Literal::Float(text.to_string())), 1)),
            "{}",
            text
        );
    }
}

#[test]
fn term_float_agrees_with_the_standard_parser() {
    for text in [
        "1.5", ".5", "5.", ".", "e5", "1e", "1e+", "1.2.3", "inf", "infinit", "nan", "nano",
        "+", "-", "", "1e5.5", "0x10", "1_000", "--1", "+-1", "1.e5", ".e5", "5.e", "iNfInItY",
    ] {
        let ours = matches!(
            parse_term(text, 1, "f.txt"),
            Ok(Expr { kind: ExprKind::Literal(Literal::Float(_)), .. })
        );
        let is_int = text.parse::<i64>().is_ok();
        let theirs = !is_int && text.parse::<f64>().is_ok();
        assert_eq!(ours, theirs, "{:?}", text);
    }
}

#[test]
fn term_integer_agrees_with_the_standard_parser() {
    for text in [
        "0", "-0", "+0", "12", "-12", "+12", "", "+", "-", "1a", "a1", " 1", "1 ", "٣",
        "9223372036854775807", "9223372036854775808", "-9223372036854775808",
        "-9223372036854775809", "00000000000000000000000000001", "99999999999999999999",
    ] {
        let ours = match parse_term(text, 1, "f.txt") {
            Ok(Expr { kind: ExprKind::Literal(Literal::Int(n)), .. }) => Some(n),
            _ => None,
        };
        assert_eq!(ours, text.parse::<i64>().ok(), "{:?}", text);
    }
}

#[test]
fn term_string() {
    assert_eq!(
        parse_term("\"hi\"", 2, "f.txt"),
        Ok(expr(ExprKind::Literal(Literal::String("hi".to_string())), 2))
    );
    assert_eq!(
        parse_term("\"\"", 2, "f.txt"),
        Ok(expr(ExprKind::Literal(Literal::String(String::new())), 2))
    );
}

#[test]
fn term_lone_quote_is_malformed() {
    assert_eq!(parse_term("\"", 1, "f.txt"), Err(ParseError::MalformedLiteral));
}

#[test]
fn term_array() {
    assert_eq!(
        parse_term("[1,2,3]", 4, "f.txt"),
        Ok(expr(ExprKind::Literal(Literal::Array(vec![num(1, 4), num(2, 4), num(3, 4)])), 4))
    );
}

#[test]
fn term_array_elements_are_trimmed_expressions() {
    assert_eq!(
        parse_term("[a, 1 + 2]", 1, "f.txt"),
        Ok(expr(
            ExprKind::Literal(Literal::Array(vec![
                var("a", 1),
                binary(BinaryOp::Add, num(1, 1), num(2, 1), 1),
            ])),
            1
        ))
    );
}

#[test]
fn term_empty_array_has_no_term() {
    assert_eq!(parse_term("[]", 1, "f.txt"), Err(ParseError::MissingTerm));
}

#[test]
fn term_nested_array_is_split_naively() {
    assert_eq!(
        parse_term("[[1,2],3]", 1, "f.txt"),
        Ok(expr(
            ExprKind::Literal(Literal::Array(vec![var("[1", 1), var("2]", 1), num(3, 1)])),
            1
        ))
    );
}

#[test]
fn term_call() {
    assert_eq!(
        parse_term("f(1,x)", 1, "f.txt"),
        Ok(expr(ExprKind::FunctionCall("f".to_string(), vec![num(1, 1), var("x", 1)]), 1))
    );
}

#[test]
fn term_call_without_arguments_has_no_term() {
    assert_eq!(parse_term("f()", 1, "f.txt"), Err(ParseError::MissingTerm));
}

#[test]
fn term_call_needs_its_closing_parenthesis_after_the_opening_one() {
    assert_eq!(parse_term("f(1", 1, "f.txt"), Err(ParseError::MissingDelimiter));
    assert_eq!(parse_term(")f(", 1, "f.txt"), Err(ParseError::MissingDelimiter));
}

#[test]
fn term_variable() {
    assert_eq!(parse_term("total", 9, "f.txt"), Ok(var("total", 9)));
    assert_eq!(parse_term(".", 9, "f.txt"), Ok(var(".", 9)));
    assert_eq!(parse_term("[1,", 9, "f.txt"), Ok(var("[1,", 9)));
}

#[test]
fn expr_groups_from_the_left_without_precedence() {
    let expected = binary(
        BinaryOp::Mul,
        binary(BinaryOp::Add, num(2, 1), num(3, 1), 1),
        num(4, 1),
        1,
    );
    assert_eq!(parse_expr("2 + 3 * 4", 1, "f.txt"), Ok(expected.clone()));
    assert_eq!(parse_binary_op("  2   +\t3 * 4 ", 1, "f.txt"), Ok(expected));
}

#[test]
fn expr_all_four_operators() {
    assert_eq!(parse_expr("a + b", 1, "f.txt"), Ok(binary(BinaryOp::Add, var("a", 1), var("b", 1), 1)));
    assert_eq!(parse_expr("a - b", 1, "f.txt"), Ok(binary(BinaryOp::Sub, var("a", 1), var("b", 1), 1)));
    assert_eq!(parse_expr("a * b", 1, "f.txt"), Ok(binary(BinaryOp::Mul, var("a", 1), var("b", 1), 1)));
    assert_eq!(parse_expr("a / b", 1, "f.txt"), Ok(binary(BinaryOp::Div, var("a", 1), var("b", 1), 1)));
}

#[test]
fn expr_operators_need_spaces() {
    assert_eq!(parse_expr("a+b", 1, "f.txt"), Ok(var("a+b", 1)));
}

#[test]
fn expr_errors() {
    assert_eq!(parse_expr("", 1, "f.txt"), Err(ParseError::MissingTerm));
    assert_eq!(parse_expr("   ", 1, "f.txt"), Err(ParseError::MissingTerm));
    assert_eq!(parse_expr("1 +", 1, "f.txt"), Err(ParseError::MissingTerm));
    assert_eq!(parse_expr("1 ? 2", 1, "f.txt"), Err(ParseError::InvalidOperator));
    assert_eq!(parse_expr("1 ++ 2", 1, "f.txt"), Err(ParseError::InvalidOperator));
}

#[test]
fn expr_reads_the_term_before_it_checks_the_operator() {
    assert_eq!(parse_expr("1 ? \"", 1, "f.txt"), Err(ParseError::MalformedLiteral));
    assert_eq!(parse_expr("1 ?", 1, "f.txt"), Err(ParseError::MissingTerm));
}

#[test]
fn statement_let() {
    assert_eq!(
        parse_statement("let x = 5", 7, "f.txt"),
        Ok(Some(statement(StatementKind::VariableDeclaration("x".to_string(), num(5, 7)), 7)))
    );
}

#[test]
fn statement_let_initializer_is_the_expression_from_the_fourth_token_on() {
    assert_eq!(
        parse_statement("let z = 1 + 2", 1, "f.txt"),
        Ok(Some(statement(
            StatementKind::VariableDeclaration(
                "z".to_string(),
                binary(BinaryOp::Add, num(1, 1), num(2, 1), 1)
            ),
            1
        )))
    );
    assert_eq!(
        parse_statement("let x = 5 + 3 * a", 4, "f.txt"),
        Ok(Some(statement(
            StatementKind::VariableDeclaration(
                "x".to_string(),
                binary(
                    BinaryOp::Mul,
                    binary(BinaryOp::Add, num(5, 4), num(3, 4), 4),
                    var("a", 4),
                    4
                )
            ),
            4
        )))
    );
}

#[test]
fn statement_let_initializer_errors() {
    assert_eq!(parse_statement("let arr = [1, 2, 3]", 1, "f.txt"), Err(ParseError::InvalidOperator));
    assert_eq!(parse_statement("let x = 1 +", 1, "f.txt"), Err(ParseError::MissingTerm));
    assert_eq!(parse_statement("let x = 1 ? 2", 1, "f.txt"), Err(ParseError::InvalidOperator));
    assert_eq!(parse_statement("let x = 1 2", 1, "f.txt"), Err(ParseError::MissingTerm));
    assert_eq!(parse_statement("let x = \"", 1, "f.txt"), Err(ParseError::MalformedLiteral));
    assert_eq!(parse_statement("let x = f(", 1, "f.txt"), Err(ParseError::MissingDelimiter));
}

#[test]
fn statement_let_does_not_look_at_the_third_token() {
    assert_eq!(
        parse_statement("let x : 5", 1, "f.txt"),
        Ok(Some(statement(StatementKind::VariableDeclaration("x".to_string(), num(5, 1)), 1)))
    );
}

#[test]
fn statement_let_needs_four_tokens() {
    assert_eq!(parse_statement("let", 1, "f.txt"), Err(ParseError::MissingToken));
    assert_eq!(parse_statement("let x", 1, "f.txt"), Err(ParseError::MissingToken));
    assert_eq!(parse_statement("let x =", 1, "f.txt"), Err(ParseError::MissingToken));
    assert_eq!(parse_statement("letter = 5", 1, "f.txt"), Err(ParseError::MissingToken));
}

#[test]
fn statement_fn() {
    assert_eq!(
        parse_statement("fn add (a, b)", 2, "f.txt"),
        Ok(Some(statement(
            StatementKind::FunctionDeclaration(
                "add".to_string(),
                vec!["a".to_string(), "b".to_string()],
                vec![]
            ),
            2
        )))
    );
}

#[test]
fn statement_fn_name_is_the_second_token_and_the_body_is_empty() {
    assert_eq!(
        parse_statement("fn main() {", 2, "f.txt"),
        Ok(Some(statement(
            StatementKind::FunctionDeclaration("main()".to_string(), vec![String::new()], vec![]),
            2
        )))
    );
}

#[test]
fn statement_fn_errors() {
    assert_eq!(parse_statement("fn", 1, "f.txt"), Err(ParseError::MissingToken));
    assert_eq!(parse_statement("fn(a)", 1, "f.txt"), Err(ParseError::MissingToken));
    assert_eq!(parse_statement("fn f", 1, "f.txt"), Err(ParseError::MissingDelimiter));
    assert_eq!(parse_statement("fn f (a", 1, "f.txt"), Err(ParseError::MissingDelimiter));
    assert_eq!(parse_statement("fn f )a(", 1, "f.txt"), Err(ParseError::MissingDelimiter));
}

#[test]
fn statement_print() {
    assert_eq!(
        parse_statement("println!(a, 1 + 2)", 5, "f.txt"),
        Ok(Some(statement(
            StatementKind::PrintStatement(vec![
                var("a", 5),
                binary(BinaryOp::Add, num(1, 5), num(2, 5), 5),
            ]),
            5
        )))
    );
}

#[test]
fn statement_print_runs_to_the_last_closing_parenthesis() {
    assert_eq!(
        parse_statement("println!(f(1))", 5, "f.txt"),
        Ok(Some(statement(
            StatementKind::PrintStatement(vec![expr(
                ExprKind::FunctionCall("f".to_string(), vec![num(1, 5)]),
                5
            )]),
            5
        )))
    );
}

#[test]
fn statement_print_errors() {
    assert_eq!(parse_statement("println!", 1, "f.txt"), Err(ParseError::MissingDelimiter));
    assert_eq!(parse_statement("println!(x", 1, "f.txt"), Err(ParseError::MissingDelimiter));
    assert_eq!(parse_statement("println!)(", 1, "f.txt"), Err(ParseError::MissingDelimiter));
    assert_eq!(parse_statement("println!()", 1, "f.txt"), Err(ParseError::MissingTerm));
    assert_eq!(parse_statement("println!(1 ? 2)", 1, "f.txt"), Err(ParseError::InvalidOperator));
}

#[test]
fn statement_expression() {
    assert_eq!(
        parse_statement("f(1)", 1, "f.txt"),
        Ok(Some(statement(
            StatementKind::ExpressionStatement(expr(
                ExprKind::FunctionCall("f".to_string(), vec![num(1, 1)]),
                1
            )),
            1
        )))
    );
}

#[test]
fn statement_empty_line_is_none() {
    assert_eq!(parse_statement("", 1, "f.txt"), Ok(None));
}

#[test]
fn statement_line_of_spaces_has_no_term() {
    assert_eq!(parse_statement("   ", 1, "f.txt"), Err(ParseError::MissingTerm));
}

#[test]
fn statement_leading_space_hides_the_keyword() {
    assert_eq!(parse_statement(" let x = 5", 1, "f.txt"), Err(ParseError::InvalidOperator));
}

#[test]
fn program_counts_lines_from_one_and_skips_empty_ones() {
    let program = parse("let x = 1\n\nprintln!(x)\n", "f.txt");
    assert_eq!(
        program,
        Ok(Program {
            statements: vec![
                statement(StatementKind::VariableDeclaration("x".to_string(), num(1, 1)), 1),
                statement(StatementKind::PrintStatement(vec![var("x", 3)]), 3),
            ]
        })
    );
}

#[test]
fn program_accepts_carriage_returns_before_line_feeds() {
    let program = parse("let x = 1\r\nprintln!(x)\r\n", "f.txt");
    assert_eq!(
        program,
        Ok(Program {
            statements: vec![
                statement(StatementKind::VariableDeclaration("x".to_string(), num(1, 1)), 1),
                statement(StatementKind::PrintStatement(vec![var("x", 2)]), 2),
            ]
        })
    );
}

#[test]
fn program_empty_source() {
    assert_eq!(parse("", "f.txt"), Ok(Program { statements: vec![] }));
    assert_eq!(parse("\n\n", "f.txt"), Ok(Program { statements: vec![] }));
}

#[test]
fn program_first_bad_line_decides() {
    assert_eq!(parse("let x = 1\nlet y\n1 ? 2", "f.txt"), Err(ParseError::MissingToken));
    assert_eq!(parse("1 ? 2\nlet y", "f.txt"), Err(ParseError::InvalidOperator));
}

#[test]
fn program_carries_the_file_name() {
    let program = parse("x", "dir/name.src").unwrap();
    assert_eq!(program.statements[0].file, "dir/name.src");
    match &program.statements[0].kind {
        StatementKind::ExpressionStatement(e) => assert_eq!(e.file, "dir/name.src"),
        other => panic!("{:?}", other),
    }
}

#[test]
fn program_clone_is_equal() {
    let program = parse("let x = [1,f(2)]\nfn g (a)\nprintln!(x, \"s\", 1.5)", "f.txt").unwrap();
    assert_eq!(program.clone(), program);
}

#[test]
fn constructors_build_the_nodes_the_parser_builds() {
    let file = || "f.txt".to_string();
    assert_eq!(Expr::integer(5, 2, file()), parse_term("5", 2, "f.txt").unwrap());
    assert_eq!(Expr::floating("1.5".to_string(), 2, file()), parse_term("1.5", 2, "f.txt").unwrap());
    assert_eq!(Expr::text("hi".to_string(), 2, file()), parse_term("\"hi\"", 2, "f.txt").unwrap());
    assert_eq!(Expr::variable("x".to_string(), 2, file()), parse_term("x", 2, "f.txt").unwrap());
    assert_eq!(
        Expr::array(vec![Expr::integer(1, 2, file()), Expr::variable("y".to_string(), 2, file())], 2, file()),
        parse_term("[1,y]", 2, "f.txt").unwrap()
    );
    assert_eq!(
        Expr::call("f".to_string(), vec![Expr::integer(1, 2, file())], 2, file()),
        parse_term("f(1)", 2, "f.txt").unwrap()
    );
    assert_eq!(
        Expr::binary(
            BinaryOp::Sub,
            Expr::variable("a".to_string(), 2, file()),
            Expr::integer(1, 2, file()),
            2,
            file()
        ),
        parse_expr("a - 1", 2, "f.txt").unwrap()
    );
}
