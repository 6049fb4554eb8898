use rust_runtime::ast::BinaryOp;
use rust_runtime::grammar::ParseError;
use rust_runtime::parser;
use rust_runtime::runtime::{Action, NumericRequest, Runtime};
use rust_runtime::semantics::EvalError;

fn numeric(request: &NumericRequest) -> Option<String> {
    match request {
        NumericRequest::Render(text) => text.parse::<f64>().ok().map(|x| x.to_string()),
        NumericRequest::Apply(op, left, right) => {
            let a = left.parse::<f64>().ok()?;
            let b = right.parse::<f64>().ok()?;
            let c = match op {
                BinaryOp::Add => a + b,
                BinaryOp::Sub => a - b,
                BinaryOp::Mul => a * b,
                BinaryOp::Div => a / b,
            };
            Some(c.to_string())
        }
    }
}

fn drive(runtime: &mut Runtime, first: Action) -> (Vec<String>, Option<EvalError>) {
    let mut lines = Vec::new();
    let mut action = first;
    let mut steps = 0;
    loop {
        steps += 1;
        assert!(steps < 100_000);
        match action {
            Action::Continue | Action::Step => {}
            Action::Print(line) => lines.push(line),
            Action::Numeric(request) => runtime.resume(numeric(&request)),
            Action::Done => return (lines, None),
            Action::Fatal(e) => return (lines, Some(e)),
        }
        action = runtime.step();
    }
}

fn run_source(source: &str) -> (Vec<String>, Option<EvalError>) {
    let program = parser::parse(source, "test.rs").unwrap();
    let mut runtime = Runtime::new();
    let first = runtime.run(program);
    drive(&mut runtime, first)
}

#[test]
fn test_basic_program() {
    let source_code = r#"
        fn main() {
            let x = 10;
            let y = 20;
            println!("x + y = {}", x + y);
        }
    "#;

    let program = parser::parse(source_code, "test.rs");
    assert_eq!(program, Err(ParseError::InvalidOperator));
}

#[test]
fn prints_the_sum_of_two_variables() {
    let (lines, error) = run_source("let x = 5\nlet y = 3\nprintln!(x + y)");
    assert_eq!(lines, vec!["8".to_string()]);
    assert_eq!(error, None);
}

#[test]
fn prints_two_strings_joined() {
    let (lines, error) = run_source("let a = \"hi\"\nlet b = \"lo\"\nprintln!(a, b)");
    assert_eq!(lines, vec!["hi, lo".to_string()]);
    assert_eq!(error, None);
}

#[test]
fn prints_an_array_in_brackets() {
    let (lines, error) = run_source("let arr = [1,2,3]\nprintln!(arr)");
    assert_eq!(lines, vec!["[1, 2, 3]".to_string()]);
    assert_eq!(error, None);
}

#[test]
fn array_written_with_spaces_is_not_one_token() {
    let program = parser::parse("let arr = [1, 2, 3]\nprintln!(arr)", "test.rs");
    assert_eq!(program, Err(ParseError::InvalidOperator));
}

#[test]
fn declares_the_value_of_a_whole_expression() {
    let (lines, error) = run_source("let z = 1 + 2\nlet w = z * z - 1\nprintln!(z, w)");
    assert_eq!(lines, vec!["3, 8".to_string()]);
    assert_eq!(error, None);
}

#[test]
fn undeclared_variable_stops_before_any_output() {
    let (lines, error) = run_source("println!(z)");
    assert!(lines.is_empty());
    assert_eq!(error, Some(EvalError::UnboundVariable));
}

#[test]
fn call_of_a_function_without_return_stops() {
    let (lines, error) = run_source("fn f (a)\nf(1)");
    assert!(lines.is_empty());
    assert_eq!(error, Some(EvalError::MissingReturn));
}

#[test]
fn function_name_is_the_whole_second_token() {
    let (lines, error) = run_source("fn f(a)\nf(1)");
    assert!(lines.is_empty());
    assert_eq!(error, Some(EvalError::UnboundFunction));
}
