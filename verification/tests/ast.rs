use calc::ast::Expr;
use calc::ast::ParseError;
use calc::ast::Stmt;
use calc::ast::parse;
use calc::scanner::Token;
use calc::scanner::tokenize;

#[test]
fn parse_empty() {
    let tokens: Vec<Token> = vec![];
    let err = parse(&tokens).unwrap_err();
    assert_eq!(err.message(), "Unexpected end of file");
    assert_eq!(err, ParseError::UnexpectedEndOfInput);
}

#[test]
fn parse_number() {
    let tokens: Vec<Token> = vec![
        Token::NumericLiteral { value: "123.345".into() },
        Token::EOF,
    ];
    let ast = parse(&tokens).unwrap();
    assert_eq!(ast.expr, Expr::NumericLiteral { value: "123.345".into() });
    assert!(ast.statements.is_empty());
}

#[test]
fn addition_is_a_binary_operation() {
    let tokens: Vec<Token> = vec![
        Token::NumericLiteral { value: "123.345".into() },
        Token::Plus,
        Token::NumericLiteral { value: "1.0".into() },
        Token::EOF,
    ];
    let ast = parse(&tokens).unwrap();
    assert_eq!(
        ast.expr,
        Expr::Binary {
            left: Box::new(Expr::NumericLiteral { value: "123.345".into() }),
            right: Box::new(Expr::NumericLiteral { value: "1.0".into() }),
            operator: Token::Plus,
        }
    );
}

#[test]
fn subtraction_is_a_binary_operation() {
    let tokens: Vec<Token> = vec![
        Token::NumericLiteral { value: "123.345".into() },
        Token::Minus,
        Token::NumericLiteral { value: "1.0".into() },
        Token::EOF,
    ];
    let ast = parse(&tokens).unwrap();
    assert_eq!(
        ast.expr,
        Expr::Binary {
            left: Box::new(Expr::NumericLiteral { value: "123.345".into() }),
            right: Box::new(Expr::NumericLiteral { value: "1.0".into() }),
            operator: Token::Minus,
        }
    );
}

#[test]
fn addition_subtraction_bind_left_to_right() {
    let tokens: Vec<Token> = vec![
        Token::NumericLiteral { value: "123.345".into() },
        Token::Plus,
        Token::NumericLiteral { value: "1.0".into() },
        Token::Minus,
        Token::NumericLiteral { value: "1.345".into() },
        Token::Plus,
        Token::NumericLiteral { value: "10.0".into() },
        Token::EOF,
    ];
    let ast = parse(&tokens).unwrap();
    assert_eq!(
        ast.expr,
        Expr::Binary {
            left: Box::new(Expr::Binary {
                left: Box::new(Expr::Binary {
                    left: Box::new(Expr::NumericLiteral { value: "123.345".into() }),
                    right: Box::new(Expr::NumericLiteral { value: "1.0".into() }),
                    operator: Token::Plus,
                }),
                right: Box::new(Expr::NumericLiteral { value: "1.345".into() }),
                operator: Token::Minus,
            }),
            right: Box::new(Expr::NumericLiteral { value: "10.0".into() }),
            operator: Token::Plus,
        }
    );
}

#[test]
fn multiplication_is_a_binary_operation() {
    let tokens: Vec<Token> = vec![
        Token::NumericLiteral { value: "123.345".into() },
        Token::Astrix,
        Token::NumericLiteral { value: "1.0".into() },
        Token::EOF,
    ];
    let ast = parse(&tokens).unwrap();
    assert_eq!(
        ast.expr,
        Expr::Binary {
            left: Box::new(Expr::NumericLiteral { value: "123.345".into() }),
            right: Box::new(Expr::NumericLiteral { value: "1.0".into() }),
            operator: Token::Astrix,
        }
    );
}

#[test]
fn division_is_a_binary_operation() {
    let tokens: Vec<Token> = vec![
        Token::NumericLiteral { value: "123.345".into() },
        Token::Slash,
        Token::NumericLiteral { value: "1.0".into() },
        Token::EOF,
    ];
    let ast = parse(&tokens).unwrap();
    assert_eq!(
        ast.expr,
        Expr::Binary {
            left: Box::new(Expr::NumericLiteral { value: "123.345".into() }),
            right: Box::new(Expr::NumericLiteral { value: "1.0".into() }),
            operator: Token::Slash,
        }
    );
}

#[test]
fn multiplication_division_bind_left_to_right() {
    let tokens: Vec<Token> = vec![
        Token::NumericLiteral { value: "123.345".into() },
        Token::Astrix,
        Token::NumericLiteral { value: "1.0".into() },
        Token::Slash,
        Token::NumericLiteral { value: "1.345".into() },
        Token::Astrix,
        Token::NumericLiteral { value: "10.0".into() },
        Token::EOF,
    ];
    let ast = parse(&tokens).unwrap();
    assert_eq!(
        ast.expr,
        Expr::Binary {
            left: Box::new(Expr::Binary {
                left: Box::new(Expr::Binary {
                    left: Box::new(Expr::NumericLiteral { value: "123.345".into() }),
                    right: Box::new(Expr::NumericLiteral { value: "1.0".into() }),
                    operator: Token::Astrix,
                }),
                right: Box::new(Expr::NumericLiteral { value: "1.345".into() }),
                operator: Token::Slash,
            }),
            right: Box::new(Expr::NumericLiteral { value: "10.0".into() }),
            operator: Token::Astrix,
        }
    );
}

#[test]
fn multiplication_has_precedence_over_addition() {
    // 123.345 + 1.0 / 1.345 - 10.0
    //             -
    //           /   \
    //         +     10.0
    //        /  \
    // 123.345   /
    //         /  \
    //      1.0    1.345
    let tokens: Vec<Token> = vec![
        Token::NumericLiteral { value: "123.345".into() },
        Token::Plus,
        Token::NumericLiteral { value: "1.0".into() },
        Token::Slash,
        Token::NumericLiteral { value: "1.345".into() },
        Token::Minus,
        Token::NumericLiteral { value: "10.0".into() },
        Token::EOF,
    ];
    let ast = parse(&tokens).unwrap();
    assert_eq!(
        ast.expr,
        Expr::Binary {
            left: Box::new(Expr::Binary {
                left: Box::new(Expr::NumericLiteral { value: "123.345".into() }),
                right: Box::new(Expr::Binary {
                    left: Box::new(Expr::NumericLiteral { value: "1.0".into() }),
                    right: Box::new(Expr::NumericLiteral { value: "1.345".into() }),
                    operator: Token::Slash,
                }),
                operator: Token::Plus,
            }),
            right: Box::new(Expr::NumericLiteral { value: "10.0".into() }),
            operator: Token::Minus,
        }
    );
}

#[test]
fn integrates_with_scanner() {
    let tokens = tokenize("10 + 11").unwrap();
    let ast = parse(&tokens).unwrap();
    println!("{:?}", ast);
}

#[test]
fn named_value_definitions() {
    let tokens: Vec<Token> = vec![
        Token::Def,
        Token::Identifier { value: "subtotal".into() },
        Token::Equal,
        Token::NumericLiteral { value: "1".into() },
        Token::SemiColon,
        Token::NumericLiteral { value: "10".into() },
    ];
    let ast = parse(&tokens).unwrap();
    assert_eq!(ast.expr, Expr::NumericLiteral { value: "10".into() });
    assert_eq!(
        ast.statements,
        vec![Stmt::NamedValue {
            identifier: Token::Identifier { value: "subtotal".into() },
            expr: Box::new(Expr::NumericLiteral { value: "1".into() }),
        }]
    );
}

#[test]
fn name_references_parse_as_primaries() {
    let tokens = tokenize("y + 1").unwrap();
    let ast = parse(&tokens).unwrap();
    assert_eq!(
        ast.expr,
        Expr::Binary {
            left: Box::new(Expr::NameReference {
                identifier: Token::Identifier { value: "y".into() },
            }),
            right: Box::new(Expr::NumericLiteral { value: "1".into() }),
            operator: Token::Plus,
        }
    );
}

#[test]
fn unexpected_token_where_primary_expected() {
    let tokens: Vec<Token> = vec![Token::CloseParen];
    let err = parse(&tokens).unwrap_err();
    assert_eq!(err, ParseError::UnexpectedToken { token: Token::CloseParen });
}

#[test]
fn unclosed_group_reports_missing_close_paren() {
    let tokens = tokenize("(1 + 2").unwrap();
    let err = parse(&tokens).unwrap_err();
    assert_eq!(err, ParseError::UnclosedGroup { token: Token::EOF });
}

#[test]
fn malformed_statement_missing_equal() {
    let tokens = tokenize("def x 5; x").unwrap();
    let err = parse(&tokens).unwrap_err();
    assert_eq!(
        err,
        ParseError::MalformedStatement { token: Token::NumericLiteral { value: "5".into() } }
    );
}

#[test]
fn malformed_statement_missing_identifier() {
    let tokens = tokenize("def 5 = 1; 2").unwrap();
    let err = parse(&tokens).unwrap_err();
    assert_eq!(
        err,
        ParseError::MalformedStatement { token: Token::NumericLiteral { value: "5".into() } }
    );
}

#[test]
fn malformed_statement_missing_semicolon() {
    let tokens = tokenize("def x = 5").unwrap();
    let err = parse(&tokens).unwrap_err();
    assert_eq!(err, ParseError::MalformedStatement { token: Token::EOF });
}
