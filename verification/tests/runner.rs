use calc::ast::ParseError;
use calc::interpreter::EvalError;
use calc::interpreter::Evaluation;
use calc::interpreter::NumExpr;
use calc::runner::LineError;
use calc::runner::evaluate_line;
use calc::scanner::Token;

fn exec_num_expr(e: &NumExpr, slots: &[f64]) -> f64 {
    match e {
        NumExpr::Literal { value } => value.parse::<f64>().unwrap(),
        NumExpr::Slot { index } => slots[*index],
        NumExpr::Binary { operator, left, right } => {
            let l = exec_num_expr(left, slots);
            let r = exec_num_expr(right, slots);
            match operator {
                Token::Plus => l + r,
                Token::Minus => l - r,
                Token::Astrix => l * r,
                Token::Slash => l / r,
                _ => panic!("plan holds a non-operator token"),
            }
        }
    }
}

fn run_evaluation(ev: &Evaluation) -> f64 {
    let mut slots: Vec<f64> = Vec::new();
    for binding in &ev.bindings {
        let v = exec_num_expr(binding, &slots);
        slots.push(v);
    }
    exec_num_expr(&ev.result, &slots)
}

fn approx_eq(a: f64, b: f64) -> bool {
    let scale = a.abs().max(b.abs()).max(1.0);
    (a - b).abs() <= 1e-9 * scale
}

fn run_line(line: &str) -> Result<f64, LineError> {
    let plan = evaluate_line(line)?;
    Ok(run_evaluation(&plan))
}

#[test]
fn sanity() {
    let cases = [
        ("10 + 2 + 3 * 9 - 4", 35.0),
        ("10 + 2 + 3 * (9 - 4)", 27.0),
        ("(10 + 5) * 3", 45.0),
        ("(10 * (5-1) - 20) * 3", 60.0),
        ("(10 * ((5-1) - (20)))", -160.0),
        ("((10 * ((5-1) - (20))) * 3)", -480.0),
        ("(((10 * ((5-1) - (20))) * 3))", -480.0),
        ("(((10 *\n ((5-1) - (20)))\n * 3))", -480.0),
    ];
    for (source, expected) in cases {
        let value = run_line(source).unwrap();
        assert!(approx_eq(value, expected), "{} gave {}", source, value);
    }
}

#[test]
fn named_values() {
    let source =
        "def subtotal = 1 + 2 + 3 + 4;\ndef tax = 0.0425;def total = subtotal * (1 + tax);\ntotal";
    let expected = 10.425;
    let value = run_line(source).unwrap();
    assert!(approx_eq(value, expected), "gave {}", value);
}

#[test]
fn multiplication_binds_tighter_than_addition() {
    let value = run_line("1 + 2 * 3").unwrap();
    assert!(approx_eq(value, 7.0));
}

#[test]
fn subtraction_associates_to_the_left() {
    let value = run_line("10 - 3 - 2").unwrap();
    assert!(approx_eq(value, 5.0));
}

#[test]
fn grouping_overrides_precedence() {
    let value = run_line("(1 + 2) * 3").unwrap();
    assert!(approx_eq(value, 9.0));
}

#[test]
fn binding_order_and_shadowing() {
    let value = run_line("def x = 1; def x = x + 1; x").unwrap();
    assert!(approx_eq(value, 2.0));
}

#[test]
fn empty_input_fails_at_parse_time() {
    let err = run_line("").unwrap_err();
    assert_eq!(err, LineError::Parse { error: ParseError::UnexpectedEndOfInput });
}

#[test]
fn undefined_name_fails_at_evaluation_time() {
    let err = run_line("y + 1").unwrap_err();
    assert_eq!(
        err,
        LineError::Eval { error: EvalError::UndefinedName { name: "y".into() } }
    );
}

#[test]
fn unclosed_group_fails_with_no_partial_value() {
    let err = run_line("(1 + 2").unwrap_err();
    assert_eq!(
        err,
        LineError::Parse { error: ParseError::UnclosedGroup { token: Token::EOF } }
    );
}

#[test]
fn division_by_zero_follows_floating_point_semantics() {
    let value = run_line("1 / 0").unwrap();
    assert!(value.is_infinite() && value > 0.0);
    let value = run_line("0 - 1 / 0").unwrap();
    assert!(value.is_infinite() && value < 0.0);
}

#[test]
fn whitespace_of_any_kind_separates_tokens() {
    let value = run_line("\t1 +\u{00a0}2\n").unwrap();
    assert!(approx_eq(value, 3.0));
}
