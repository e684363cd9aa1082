use calc::scanner::Token;
use calc::scanner::tokenize;

#[test]
fn empty_string_returns_no_tokens() {
    let tokens = tokenize("").unwrap();
    assert_eq!(tokens.len(), 0);
}

#[test]
fn tokenize_numeric_literal() {
    let cases = [
        ("123.456", "123.456"),
        ("1", "1"),
        ("0", "0"),
        ("1234567890", "1234567890"),
        ("0.123456789", "0.123456789"),
    ];
    for (source, expected) in cases {
        let tokens = tokenize(source).unwrap();
        assert_eq!(tokens.len(), 1);
        assert_eq!(tokens[0], Token::NumericLiteral { value: expected.into() });
    }
}

#[test]
fn ignore_whitespace() {
    let cases = [
        ("   123.456", "123.456"),
        ("1 ", "1"),
        ("\n0\n", "0"),
        ("\n  1234567890\t", "1234567890"),
        (" 0.123456789 ", "0.123456789"),
    ];
    for (source, expected) in cases {
        let tokens = tokenize(source).unwrap();
        assert_eq!(tokens.len(), 1);
        assert_eq!(tokens[0], Token::NumericLiteral { value: expected.into() });
    }
}

#[test]
fn multiple_tokens() {
    let cases: [(&str, Vec<Token>); 5] = [
        (
            "   123.456 2",
            vec![
                Token::NumericLiteral { value: "123.456".into() },
                Token::NumericLiteral { value: "2".into() },
            ],
        ),
        (
            "1 2",
            vec![
                Token::NumericLiteral { value: "1".into() },
                Token::NumericLiteral { value: "2".into() },
            ],
        ),
        (
            "\n0\n123.65",
            vec![
                Token::NumericLiteral { value: "0".into() },
                Token::NumericLiteral { value: "123.65".into() },
            ],
        ),
        (
            "\n  123456 7890\t",
            vec![
                Token::NumericLiteral { value: "123456".into() },
                Token::NumericLiteral { value: "7890".into() },
            ],
        ),
        (
            " 0.1234 56789 123\n 0 432.10 89",
            vec![
                Token::NumericLiteral { value: "0.1234".into() },
                Token::NumericLiteral { value: "56789".into() },
                Token::NumericLiteral { value: "123".into() },
                Token::NumericLiteral { value: "0".into() },
                Token::NumericLiteral { value: "432.10".into() },
                Token::NumericLiteral { value: "89".into() },
            ],
        ),
    ];
    for (source, expected) in cases {
        let tokens = tokenize(source).unwrap();
        assert_eq!(tokens, expected);
    }
}

#[test]
fn tokenize_operators() {
    let cases: [(&str, Vec<Token>); 4] = [
        ("+", vec![Token::Plus]),
        ("-", vec![Token::Minus]),
        ("*", vec![Token::Astrix]),
        ("/", vec![Token::Slash]),
    ];
    for (source, expected) in cases {
        let tokens = tokenize(source).unwrap();
        assert_eq!(tokens, expected);
    }
}

#[test]
fn tokenize_punctuation() {
    let cases: [(&str, Vec<Token>); 2] = [
        ("(", vec![Token::OpenParen]),
        (")", vec![Token::CloseParen]),
    ];
    for (source, expected) in cases {
        let tokens = tokenize(source).unwrap();
        assert_eq!(tokens, expected);
    }
}

#[test]
fn tokenize_identifiers() {
    let cases: [(&str, Vec<Token>); 5] = [
        ("x", vec![Token::Identifier { value: "x".into() }]),
        ("abc123", vec![Token::Identifier { value: "abc123".into() }]),
        (
            "abc123)",
            vec![Token::Identifier { value: "abc123".into() }, Token::CloseParen],
        ),
        ("abc123 ", vec![Token::Identifier { value: "abc123".into() }]),
        (
            "(a_b+c-1'2!3)",
            vec![
                Token::OpenParen,
                Token::Identifier { value: "a_b+c-1'2!3".into() },
                Token::CloseParen,
            ],
        ),
    ];
    for (source, expected) in cases {
        let tokens = tokenize(source).unwrap();
        assert_eq!(tokens, expected);
    }
}

#[test]
fn tokenize_keywords_and_statement_punctuation() {
    let tokens = tokenize("def x = 1; x").unwrap();
    assert_eq!(
        tokens,
        vec![
            Token::Def,
            Token::Identifier { value: "x".into() },
            Token::Equal,
            Token::NumericLiteral { value: "1".into() },
            Token::SemiColon,
            Token::Identifier { value: "x".into() },
        ]
    );
}

#[test]
fn keyword_must_match_exactly() {
    let tokens = tokenize("define").unwrap();
    assert_eq!(tokens, vec![Token::Identifier { value: "define".into() }]);
}

#[test]
fn statements_need_no_surrounding_whitespace() {
    let tokens = tokenize("def tax=0.0425;def t=2;").unwrap();
    assert_eq!(
        tokens,
        vec![
            Token::Def,
            Token::Identifier { value: "tax".into() },
            Token::Equal,
            Token::NumericLiteral { value: "0.0425".into() },
            Token::SemiColon,
            Token::Def,
            Token::Identifier { value: "t".into() },
            Token::Equal,
            Token::NumericLiteral { value: "2".into() },
            Token::SemiColon,
        ]
    );
}

#[test]
fn literal_text_is_kept_verbatim() {
    let tokens = tokenize("123.4500").unwrap();
    assert_eq!(tokens, vec![Token::NumericLiteral { value: "123.4500".into() }]);
    let tokens = tokenize("007").unwrap();
    assert_eq!(tokens, vec![Token::NumericLiteral { value: "007".into() }]);
}
