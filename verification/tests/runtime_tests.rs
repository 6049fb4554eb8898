use rust_runtime::ast::{BinaryOp, Expr, ExprKind, Literal, Program, Statement, StatementKind};
use rust_runtime::parser::parse;
use rust_runtime::runtime::{bracket, join, Action, NumericRequest, Runtime};
use rust_runtime::semantics::EvalError;

fn numeric(request: &NumericRequest) -> Option<String> {
    match request {
        NumericRequest::Render(text) => text.parse::<f64>().ok().map(|x| x.to_string()),
        NumericRequest::Apply(op, left, right) => {
            let a = left.parse::<f64>().ok()?;
            let b = right.parse::<f64>().ok()?;
            let c = match op {
                BinaryOp::Add => a + b,
                BinaryOp::Sub => a - b,
                BinaryOp::Mul => a * b,
                BinaryOp::Div => a / b,
            };
            Some(c.to_string())
        }
    }
}

fn drive(runtime: &mut Runtime, first: Action) -> (Vec<String>, Option<EvalError>) {
    let mut lines = Vec::new();
    let mut action = first;
    let mut steps = 0;
    loop {
        steps += 1;
        assert!(steps < 100_000);
        match action {
            Action::Continue | Action::Step => {}
            Action::Print(line) => lines.push(line),
            Action::Numeric(request) => runtime.resume(numeric(&request)),
            Action::Done => return (lines, None),
            Action::Fatal(e) => return (lines, Some(e)),
        }
        action = runtime.step();
    }
}

fn run_program(runtime: &mut Runtime, program: Program) -> (Vec<String>, Option<EvalError>) {
    let first = runtime.run(program);
    drive(runtime, first)
}

fn run_source(runtime: &mut Runtime, source: &str) -> (Vec<String>, Option<EvalError>) {
    run_program(runtime, parse(source, "t").unwrap())
}

fn output(source: &str) -> Vec<String> {
    let mut runtime = Runtime::new();
    let (lines, error) = run_source(&mut runtime, source);
    assert_eq!(error, None);
    lines
}

fn expr(kind: ExprKind) -> Expr {
    Expr { kind, line: 1, file: "t".to_string() }
}

fn num(n: i64) -> Expr {
    expr(ExprKind::Literal(Literal::Int(n)))
}

fn var(name: &str) -> Expr {
    expr(ExprKind::Variable(name.to_string()))
}

fn call(name: &str, args: Vec<Expr>) -> Expr {
    expr(ExprKind::FunctionCall(name.to_string(), args))
}

fn add(left: Expr, right: Expr) -> Expr {
    expr(ExprKind::BinaryOp(BinaryOp::Add, Box::new(left), Box::new(right)))
}

fn statement(kind: StatementKind) -> Statement {
    Statement { kind, line: 1, file: "t".to_string() }
}

fn declare(name: &str, e: Expr) -> Statement {
    statement(StatementKind::VariableDeclaration(name.to_string(), e))
}

fn function(name: &str, params: &[&str], body: Vec<Statement>) -> Statement {
    statement(StatementKind::FunctionDeclaration(
        name.to_string(),
        params.iter().map(|p| p.to_string()).collect(),
        body,
    ))
}

fn print(args: Vec<Expr>) -> Statement {
    statement(StatementKind::PrintStatement(args))
}

#[test]
fn new_runtime_is_done_at_once() {
    let mut runtime = Runtime::new();
    assert!(!runtime.debugging());
    assert_eq!(runtime.step(), Action::Done);
    assert_eq!(runtime.step(), Action::Done);
    assert_eq!(runtime.variable_names(), Vec::<String>::new());
}

#[test]
fn integer_literals_print_in_decimal() {
    assert_eq!(output("println!(0, -1, 42, +7, 007)"), vec!["0, -1, 42, 7, 7"]);
    assert_eq!(
        output("println!(9223372036854775807, -9223372036854775808)"),
        vec!["9223372036854775807, -9223372036854775808"]
    );
}

#[test]
fn float_literals_print_as_rendered() {
    assert_eq!(output("println!(1.50, 1e3, .5, inf, NaN, -0.0)"), vec!["1.5, 1000, 0.5, inf, NaN, -0"]);
}

#[test]
fn string_literal_is_its_text() {
    assert_eq!(output("println!(\"hey\")"), vec!["hey"]);
    assert_eq!(output("println!(\"\")"), vec![""]);
}

#[test]
fn array_prints_in_brackets() {
    assert_eq!(output("let a = [1,2,3]\nprintln!(a)"), vec!["[1, 2, 3]"]);
    assert_eq!(output("println!([\"a\"])"), vec!["[a]"]);
    assert_eq!(output("let a = [1.0,2]\nprintln!(a, a)"), vec!["[1, 2], [1, 2]"]);
}

#[test]
fn array_in_print_arguments_is_split_at_its_commas() {
    let mut runtime = Runtime::new();
    let (lines, error) = run_source(&mut runtime, "println!([1,2,3])");
    assert!(lines.is_empty());
    assert_eq!(error, Some(EvalError::UnboundVariable));
}

#[test]
fn arithmetic_is_floating_point_on_texts() {
    assert_eq!(output("println!(5 + 3)"), vec!["8"]);
    assert_eq!(output("println!(7 / 2)"), vec!["3.5"]);
    assert_eq!(output("println!(1 / 0)"), vec!["inf"]);
    assert_eq!(output("println!(0.1 + 0.2)"), vec!["0.30000000000000004"]);
    assert_eq!(output("println!(\"5\" + 3)"), vec!["8"]);
    assert_eq!(output("println!(\"1.5\" * \"2\")"), vec!["3"]);
    assert_eq!(output("println!(2 + 3 * 4)"), vec!["20"]);
    assert_eq!(output("println!(10 - 4 - 3)"), vec!["3"]);
}

#[test]
fn arithmetic_on_a_text_that_is_no_number_stops_the_run() {
    let mut runtime = Runtime::new();
    let (lines, error) = run_source(&mut runtime, "println!(1)\nprintln!(\"a\" + 1)\nprintln!(2)");
    assert_eq!(lines, vec!["1"]);
    assert_eq!(error, Some(EvalError::NotNumeric));
    assert_eq!(runtime.step(), Action::Fatal(EvalError::NotNumeric));
}

#[test]
fn unbound_variable_stops_the_run() {
    let mut runtime = Runtime::new();
    let (lines, error) = run_source(&mut runtime, "let x = 1\nprintln!(x)\nprintln!(y)\nprintln!(x)");
    assert_eq!(lines, vec!["1"]);
    assert_eq!(error, Some(EvalError::UnboundVariable));
}

#[test]
fn unbound_function_stops_the_run() {
    let mut runtime = Runtime::new();
    let (lines, error) = run_source(&mut runtime, "g(1)");
    assert!(lines.is_empty());
    assert_eq!(error, Some(EvalError::UnboundFunction));
}

#[test]
fn later_declaration_replaces_the_earlier_one() {
    let mut runtime = Runtime::new();
    let (lines, error) = run_source(&mut runtime, "let x = 1\nlet y = 7\nlet x = \"two\"\nprintln!(x, y)");
    assert_eq!(error, None);
    assert_eq!(lines, vec!["two, 7"]);
    assert_eq!(runtime.variable("x"), Some("two".to_string()));
    assert_eq!(runtime.variable("y"), Some("7".to_string()));
    assert_eq!(runtime.variable("z"), None);
    assert_eq!(runtime.variable_names(), vec!["x".to_string(), "y".to_string()]);
}

#[test]
fn declaration_evaluates_in_the_mapping_so_far() {
    let mut runtime = Runtime::new();
    let program = Program {
        statements: vec![declare("x", num(1)), declare("x", add(var("x"), num(1)))],
    };
    let (_, error) = run_program(&mut runtime, program);
    assert_eq!(error, None);
    assert_eq!(runtime.variable("x"), Some("2".to_string()));
}

#[test]
fn call_returns_the_binding_named_return() {
    let mut runtime = Runtime::new();
    let program = Program {
        statements: vec![
            function("inc", &["a"], vec![declare("return", add(var("a"), num(1)))]),
            print(vec![call("inc", vec![num(41)])]),
        ],
    };
    let (lines, error) = run_program(&mut runtime, program);
    assert_eq!(error, None);
    assert_eq!(lines, vec!["42"]);
    assert!(runtime.has_function("inc"));
    assert!(!runtime.has_function("dec"));
}

#[test]
fn call_restores_the_caller_mapping() {
    let mut runtime = Runtime::new();
    let program = Program {
        statements: vec![
            declare("a", num(1)),
            declare("keep", num(2)),
            function(
                "f",
                &["a"],
                vec![
                    declare("local", num(9)),
                    declare("keep", num(8)),
                    declare("return", var("a")),
                ],
            ),
            declare("r", call("f", vec![num(5)])),
        ],
    };
    let (_, error) = run_program(&mut runtime, program);
    assert_eq!(error, None);
    assert_eq!(runtime.variable("a"), Some("1".to_string()));
    assert_eq!(runtime.variable("keep"), Some("2".to_string()));
    assert_eq!(runtime.variable("r"), Some("5".to_string()));
    assert_eq!(runtime.variable("local"), None);
    assert_eq!(runtime.variable("return"), None);
    assert_eq!(
        runtime.variable_names(),
        vec!["a".to_string(), "keep".to_string(), "r".to_string()]
    );
}

#[test]
fn callee_does_not_see_the_caller_bindings() {
    let mut runtime = Runtime::new();
    let program = Program {
        statements: vec![
            declare("outer", num(1)),
            function("f", &["a"], vec![declare("return", var("outer"))]),
            print(vec![call("f", vec![num(5)])]),
        ],
    };
    let (lines, error) = run_program(&mut runtime, program);
    assert!(lines.is_empty());
    assert_eq!(error, Some(EvalError::UnboundVariable));
}

#[test]
fn arguments_are_evaluated_in_the_caller_mapping() {
    let mut runtime = Runtime::new();
    let program = Program {
        statements: vec![
            declare("x", num(3)),
            function("f", &["a", "b"], vec![declare("return", add(var("a"), var("b")))]),
            print(vec![call("f", vec![var("x"), add(var("x"), num(1))])]),
        ],
    };
    let (lines, error) = run_program(&mut runtime, program);
    assert_eq!(error, None);
    assert_eq!(lines, vec!["7"]);
}

#[test]
fn extra_arguments_are_not_even_evaluated() {
    let mut runtime = Runtime::new();
    let program = Program {
        statements: vec![
            function("f", &["a"], vec![declare("return", var("a"))]),
            print(vec![call("f", vec![num(1), var("nowhere")])]),
        ],
    };
    let (lines, error) = run_program(&mut runtime, program);
    assert_eq!(error, None);
    assert_eq!(lines, vec!["1"]);
}

#[test]
fn missing_arguments_leave_parameters_unbound() {
    let mut runtime = Runtime::new();
    let program = Program {
        statements: vec![
            function("f", &["a", "b"], vec![declare("return", var("a"))]),
            print(vec![call("f", vec![num(1)])]),
            function("g", &["a", "b"], vec![declare("return", var("b"))]),
            print(vec![call("g", vec![num(1)])]),
        ],
    };
    let (lines, error) = run_program(&mut runtime, program);
    assert_eq!(lines, vec!["1"]);
    assert_eq!(error, Some(EvalError::UnboundVariable));
}

#[test]
fn of_two_equal_parameters_the_later_wins() {
    let mut runtime = Runtime::new();
    let program = Program {
        statements: vec![
            function("f", &["a", "a"], vec![declare("return", var("a"))]),
            print(vec![call("f", vec![num(1), num(2)])]),
        ],
    };
    let (lines, error) = run_program(&mut runtime, program);
    assert_eq!(error, None);
    assert_eq!(lines, vec!["2"]);
}

#[test]
fn function_is_looked_up_before_its_arguments_are_evaluated() {
    let mut runtime = Runtime::new();
    let program = Program {
        statements: vec![print(vec![call("nofn", vec![var("novar")])])],
    };
    let (_, error) = run_program(&mut runtime, program);
    assert_eq!(error, Some(EvalError::UnboundFunction));
}

#[test]
fn later_function_declaration_replaces_the_earlier_one() {
    let mut runtime = Runtime::new();
    let program = Program {
        statements: vec![
            function("f", &["a"], vec![declare("return", num(1))]),
            function("f", &["a"], vec![declare("return", num(2))]),
            print(vec![call("f", vec![num(0)])]),
        ],
    };
    let (lines, error) = run_program(&mut runtime, program);
    assert_eq!(error, None);
    assert_eq!(lines, vec!["2"]);
}

#[test]
fn function_declared_in_a_body_outlives_the_call() {
    let mut runtime = Runtime::new();
    let program = Program {
        statements: vec![
            function(
                "outer",
                &["a"],
                vec![
                    function("inner", &["b"], vec![declare("return", add(var("b"), num(1)))]),
                    declare("return", call("inner", vec![var("a")])),
                ],
            ),
            print(vec![call("outer", vec![num(1)]), call("inner", vec![num(10)])]),
        ],
    };
    let (lines, error) = run_program(&mut runtime, program);
    assert_eq!(error, None);
    assert_eq!(lines, vec!["2, 11"]);
}

#[test]
fn print_inside_a_body_comes_before_the_caller_line() {
    let mut runtime = Runtime::new();
    let program = Program {
        statements: vec![
            function("f", &["a"], vec![print(vec![var("a")]), declare("return", num(0))]),
            print(vec![call("f", vec![num(1)])]),
        ],
    };
    let (lines, error) = run_program(&mut runtime, program);
    assert_eq!(error, None);
    assert_eq!(lines, vec!["1", "0"]);
}

#[test]
fn expression_statement_drops_its_value() {
    let mut runtime = Runtime::new();
    let (lines, error) = run_source(&mut runtime, "1 + 2\nprintln!(3)");
    assert_eq!(error, None);
    assert_eq!(lines, vec!["3"]);
    assert_eq!(runtime.step(), Action::Done);
}

#[test]
fn every_top_level_statement_is_announced_before_it_runs() {
    let mut runtime = Runtime::new();
    let program = parse("let x = 1\nprintln!(x)", "t").unwrap();
    let first = program.statements[0].clone();
    let second = program.statements[1].clone();
    assert_eq!(runtime.next_statement(), None);
    assert_eq!(runtime.run(program), Action::Step);
    assert_eq!(runtime.next_statement(), Some(&first));
    assert_eq!(runtime.step(), Action::Continue);
    assert_eq!(runtime.next_statement(), None);
    assert_eq!(runtime.step(), Action::Continue);
    assert_eq!(runtime.step(), Action::Continue);
    assert_eq!(runtime.variable("x"), Some("1".to_string()));
    assert_eq!(runtime.step(), Action::Step);
    assert_eq!(runtime.next_statement(), Some(&second));
    assert_eq!(runtime.step(), Action::Continue);
    assert_eq!(runtime.step(), Action::Continue);
    assert_eq!(runtime.step(), Action::Print("1".to_string()));
    assert_eq!(runtime.step(), Action::Done);
}

#[test]
fn waiting_machine_repeats_its_request_until_it_is_answered() {
    let mut runtime = Runtime::new();
    let program = Program { statements: vec![print(vec![add(num(1), expr(ExprKind::Literal(Literal::String("2".to_string()))))])] };
    assert_eq!(runtime.run(program), Action::Step);
    let request = Action::Numeric(NumericRequest::Apply(BinaryOp::Add, "1".to_string(), "2".to_string()));
    let mut action = runtime.step();
    while action == Action::Continue {
        action = runtime.step();
    }
    assert_eq!(action, request);
    assert_eq!(runtime.step(), request);
    assert_eq!(runtime.step(), request);
    runtime.resume(Some("three".to_string()));
    assert_eq!(runtime.step(), Action::Print("three".to_string()));
    assert_eq!(runtime.step(), Action::Done);
}

#[test]
fn float_literal_asks_for_the_rendering_of_its_text() {
    let mut runtime = Runtime::new();
    let program = parse("println!(1.50)", "t").unwrap();
    assert_eq!(runtime.run(program), Action::Step);
    assert_eq!(runtime.step(), Action::Continue);
    assert_eq!(runtime.step(), Action::Numeric(NumericRequest::Render("1.50".to_string())));
    runtime.resume(None);
    assert_eq!(runtime.step(), Action::Fatal(EvalError::NotNumeric));
}

#[test]
fn answer_that_nobody_waits_for_is_ignored() {
    let mut runtime = Runtime::new();
    runtime.resume(Some("stray".to_string()));
    runtime.resume(None);
    let (lines, error) = run_source(&mut runtime, "println!(1)");
    assert_eq!(error, None);
    assert_eq!(lines, vec!["1"]);
}

#[test]
fn stopped_machine_stays_stopped() {
    let mut runtime = Runtime::new();
    let (_, error) = run_source(&mut runtime, "println!(z)");
    assert_eq!(error, Some(EvalError::UnboundVariable));
    runtime.resume(Some("1".to_string()));
    assert_eq!(runtime.step(), Action::Fatal(EvalError::UnboundVariable));
    let again = runtime.run(parse("println!(1)", "t").unwrap());
    assert_eq!(again, Action::Fatal(EvalError::UnboundVariable));
}

#[test]
fn second_program_runs_in_the_state_the_first_left() {
    let mut runtime = Runtime::new();
    let (_, error) = run_source(&mut runtime, "let x = 4");
    assert_eq!(error, None);
    let (lines, error) = run_source(&mut runtime, "println!(x * x)");
    assert_eq!(error, None);
    assert_eq!(lines, vec!["16"]);
}

#[test]
fn join_and_bracket() {
    let none: Vec<String> = vec![];
    let one = vec!["a".to_string()];
    let three = vec!["a".to_string(), String::new(), "c".to_string()];
    assert_eq!(join(&none), "");
    assert_eq!(join(&one), "a");
    assert_eq!(join(&three), "a, , c");
    assert_eq!(bracket(&none), "[]");
    assert_eq!(bracket(&one), "[a]");
    assert_eq!(bracket(&three), "[a, , c]");
}

#[test]
fn switching_the_debugger_leaves_the_run_alone() {
    let mut runtime = Runtime::new();
    runtime.set_debugging(true);
    assert!(runtime.debugging());
    let (lines, error) = run_source(&mut runtime, "println!(1)");
    assert_eq!(error, None);
    assert_eq!(lines, vec!["1"]);
    assert!(runtime.debugging());
    runtime.set_debugging(false);
    assert!(!runtime.debugging());
}
