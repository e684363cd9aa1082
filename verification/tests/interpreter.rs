use calc::ast::Expr;
use calc::ast::Program;
use calc::interpreter::EvalError;
use calc::interpreter::Evaluation;
use calc::interpreter::NumExpr;
use calc::interpreter::evaluate;
use calc::scanner::Token;

fn exec_num_expr(e: &NumExpr, slots: &[f64]) -> f64 {
    match e {
        NumExpr::Literal { value } => value.parse::<f64>().unwrap(),
        NumExpr::Slot { index } => slots[*index],
        NumExpr::Binary { operator, left, right } => {
            let l = exec_num_expr(left, slots);
            let r = exec_num_expr(right, slots);
            match operator {
                Token::Plus => l + r,
                Token::Minus => l - r,
                Token::Astrix => l * r,
                Token::Slash => l / r,
                _ => panic!("plan holds a non-operator token"),
            }
        }
    }
}

fn run_evaluation(ev: &Evaluation) -> f64 {
    let mut slots: Vec<f64> = Vec::new();
    for binding in &ev.bindings {
        let v = exec_num_expr(binding, &slots);
        slots.push(v);
    }
    exec_num_expr(&ev.result, &slots)
}

fn approx_eq(a: f64, b: f64) -> bool {
    let scale = a.abs().max(b.abs()).max(1.0);
    (a - b).abs() <= 1e-9 * scale
}

fn eval_expr_to_number(expr: Expr) -> Result<f64, EvalError> {
    let program = Program { statements: vec![], expr };
    let plan = evaluate(&program)?;
    Ok(run_evaluation(&plan))
}

#[test]
fn evaluate_number() {
    let cases = [
        (Expr::NumericLiteral { value: String::from("123.345") }, 123.345),
        (Expr::NumericLiteral { value: String::from("0") }, 0.0),
        (Expr::NumericLiteral { value: String::from("0.0") }, 0.0),
    ];
    for (expr, expected) in cases {
        let value = eval_expr_to_number(expr).unwrap();
        assert!(approx_eq(value, expected));
    }
}

#[test]
fn evaluate_addition() {
    let cases = [
        (
            Expr::Binary {
                left: Box::new(Expr::NumericLiteral { value: "123.345".into() }),
                right: Box::new(Expr::NumericLiteral { value: "1.0".into() }),
                operator: Token::Plus,
            },
            124.345,
        ),
        (
            Expr::Binary {
                left: Box::new(Expr::NumericLiteral { value: "8753.0".into() }),
                right: Box::new(Expr::NumericLiteral { value: "0.0".into() }),
                operator: Token::Plus,
            },
            8753.0,
        ),
    ];
    for (expr, expected) in cases {
        let value = eval_expr_to_number(expr).unwrap();
        assert!(approx_eq(value, expected));
    }
}

#[test]
fn evaluate_subtraction() {
    let cases = [
        (
            Expr::Binary {
                left: Box::new(Expr::NumericLiteral { value: "123.345".into() }),
                right: Box::new(Expr::NumericLiteral { value: "1.0".into() }),
                operator: Token::Minus,
            },
            122.345,
        ),
        (
            Expr::Binary {
                left: Box::new(Expr::NumericLiteral { value: "8753.0".into() }),
                right: Box::new(Expr::NumericLiteral { value: "0.0".into() }),
                operator: Token::Minus,
            },
            8753.0,
        ),
    ];
    for (expr, expected) in cases {
        let value = eval_expr_to_number(expr).unwrap();
        assert!(approx_eq(value, expected));
    }
}

#[test]
fn evaluate_multiplication() {
    let cases = [
        (
            Expr::Binary {
                left: Box::new(Expr::NumericLiteral { value: "123.345".into() }),
                right: Box::new(Expr::NumericLiteral { value: "1.0".into() }),
                operator: Token::Astrix,
            },
            123.345,
        ),
        (
            Expr::Binary {
                left: Box::new(Expr::NumericLiteral { value: "8753.0".into() }),
                right: Box::new(Expr::NumericLiteral { value: "0.0".into() }),
                operator: Token::Astrix,
            },
            0.0,
        ),
    ];
    for (expr, expected) in cases {
        let value = eval_expr_to_number(expr).unwrap();
        assert!(approx_eq(value, expected));
    }
}

#[test]
fn evaluate_division() {
    let cases = [
        (
            Expr::Binary {
                left: Box::new(Expr::NumericLiteral { value: "123.345".into() }),
                right: Box::new(Expr::NumericLiteral { value: "1.0".into() }),
                operator: Token::Slash,
            },
            123.345,
        ),
        (
            Expr::Binary {
                left: Box::new(Expr::NumericLiteral { value: "8753.0".into() }),
                right: Box::new(Expr::NumericLiteral { value: "2.2".into() }),
                operator: Token::Slash,
            },
            3978.63636363636364,
        ),
    ];
    for (expr, expected) in cases {
        let value = eval_expr_to_number(expr).unwrap();
        assert!(approx_eq(value, expected));
    }
}

#[test]
fn invalid_literal_text_is_an_evaluation_error() {
    let err = eval_expr_to_number(Expr::NumericLiteral { value: "1.2.3".into() }).unwrap_err();
    assert_eq!(err, EvalError::InvalidNumber { value: "1.2.3".into() });
    let err = eval_expr_to_number(Expr::NumericLiteral { value: "".into() }).unwrap_err();
    assert_eq!(err, EvalError::InvalidNumber { value: "".into() });
    let err = eval_expr_to_number(Expr::NumericLiteral { value: "1e".into() }).unwrap_err();
    assert_eq!(err, EvalError::InvalidNumber { value: "1e".into() });
    let err = eval_expr_to_number(Expr::NumericLiteral { value: ".".into() }).unwrap_err();
    assert_eq!(err, EvalError::InvalidNumber { value: ".".into() });
}

#[test]
fn literal_grammar_matches_the_host_parser() {
    // Every text the evaluator accepts must parse as a float, and every
    // text it rejects must be rejected by the host parser too.
    let accepted = [
        "1", "1.", ".5", "1.5", "+1", "-2.5", "1e5", "1E5", "1.5e-3", ".5e+2", "1.e2", "inf",
        "-inf", "Infinity", "nan", "NaN", "007",
    ];
    for text in accepted {
        let value = eval_expr_to_number(Expr::NumericLiteral { value: text.into() })
            .unwrap_or_else(|_| panic!("rejected {}", text));
        let host: f64 = text.parse().unwrap();
        assert!(value == host || (value.is_nan() && host.is_nan()));
    }
    let rejected = ["", ".", "+", "-", "1e", "e5", "1.2.3", "1,2", "one", "0x10", "infin", " 1"];
    for text in rejected {
        assert!(
            eval_expr_to_number(Expr::NumericLiteral { value: text.into() }).is_err(),
            "accepted {}",
            text
        );
        assert!(text.parse::<f64>().is_err(), "host accepts {}", text);
    }
}

#[test]
fn non_operator_token_is_an_evaluation_error() {
    let err = eval_expr_to_number(Expr::Binary {
        left: Box::new(Expr::NumericLiteral { value: "1".into() }),
        right: Box::new(Expr::NumericLiteral { value: "2".into() }),
        operator: Token::OpenParen,
    })
    .unwrap_err();
    assert_eq!(err, EvalError::UnsupportedOperator { operator: Token::OpenParen });
}

#[test]
fn undefined_name_is_an_evaluation_error() {
    let err = eval_expr_to_number(Expr::NameReference {
        identifier: Token::Identifier { value: "y".into() },
    })
    .unwrap_err();
    assert_eq!(err, EvalError::UndefinedName { name: "y".into() });
}

#[test]
fn grouping_is_semantically_transparent() {
    let value = eval_expr_to_number(Expr::Grouping {
        expr: Box::new(Expr::NumericLiteral { value: "42".into() }),
    })
    .unwrap();
    assert!(approx_eq(value, 42.0));
}

#[test]
fn bindings_are_evaluated_in_order_and_may_shadow() {
    // def x = 1; def x = x + 1; x
    let x = || Token::Identifier { value: "x".into() };
    let program = Program {
        statements: vec![
            calc::ast::Stmt::NamedValue {
                identifier: x(),
                expr: Box::new(Expr::NumericLiteral { value: "1".into() }),
            },
            calc::ast::Stmt::NamedValue {
                identifier: x(),
                expr: Box::new(Expr::Binary {
                    left: Box::new(Expr::NameReference { identifier: x() }),
                    right: Box::new(Expr::NumericLiteral { value: "1".into() }),
                    operator: Token::Plus,
                }),
            },
        ],
        expr: Expr::NameReference { identifier: x() },
    };
    let plan = evaluate(&program).unwrap();
    assert_eq!(plan.bindings.len(), 2);
    assert!(approx_eq(run_evaluation(&plan), 2.0));
}
