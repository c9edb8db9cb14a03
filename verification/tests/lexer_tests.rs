use numerus::error::CompileError;
use numerus::lexer::tokenize;
use numerus::token::ParseToken;

fn num(s: &str) -> ParseToken {
    ParseToken::Number(s.to_string())
}

fn ident(s: &str) -> ParseToken {
    ParseToken::Identifier(s.to_string())
}

#[test]
fn tokenize_single_number() {
    let source = "1";
    let expected = vec![num("1")];

    let tokenized = tokenize(&source);
    if let Ok(tokens) = tokenized {
        assert_eq!(expected, tokens)
    } else {
        assert!(false);
    }
}

#[test]
fn tokenize_decimal_number() {
    let source = "1.0";
    let expected = vec![num("1.0")];

    let tokenized = tokenize(&source);
    if let Ok(tokens) = tokenized {
        assert_eq!(expected, tokens)
    } else {
        assert!(false);
    }
}

#[test]
fn tokenize_single_identifier() {
    let source = "var";
    let expected = vec![ident("var")];

    let tokenized = tokenize(&source);
    if let Ok(tokens) = tokenized {
        assert_eq!(expected, tokens)
    } else {
        assert!(false);
    }
}

#[test]
fn tokenize_1_plus_2() {
    let source = "1+2";
    let expected = vec![num("1"), ParseToken::Add, num("2")];

    let tokenized = tokenize(&source);
    if let Ok(tokens) = tokenized {
        assert_eq!(expected, tokens)
    } else {
        assert!(false);
    }
}

#[test]
fn tokenize_with_whitespace() {
    let source = "1 +  2 -\t3";
    let expected = vec![
        num("1"),
        ParseToken::Add,
        num("2"),
        ParseToken::Subtract,
        num("3"),
    ];

    let tokenized = tokenize(&source);
    if let Ok(tokens) = tokenized {
        assert_eq!(expected, tokens)
    } else {
        assert!(false);
    }
}

#[test]
fn tokenize_all_operators() {
    let source = "1+2-3*4/5^6";
    let expected = vec![
        num("1"),
        ParseToken::Add,
        num("2"),
        ParseToken::Subtract,
        num("3"),
        ParseToken::Multiply,
        num("4"),
        ParseToken::Divide,
        num("5"),
        ParseToken::Exponent,
        num("6"),
    ];

    let tokenized = tokenize(&source);
    if let Ok(tokens) = tokenized {
        assert_eq!(expected, tokens)
    } else {
        assert!(false);
    }
}

#[test]
fn tokenize_empty_parenthesis() {
    let source = "()";
    let expected = vec![ParseToken::OpenParen, ParseToken::CloseParen];

    let tokenized = tokenize(&source);
    if let Ok(tokens) = tokenized {
        assert_eq!(expected, tokens)
    } else {
        assert!(false);
    }
}

#[test]
fn tokenize_parenthesis_operation() {
    let source = "1+(2-3)";
    let expected = vec![
        num("1"),
        ParseToken::Add,
        ParseToken::OpenParen,
        num("2"),
        ParseToken::Subtract,
        num("3"),
        ParseToken::CloseParen,
    ];

    let tokenized = tokenize(&source);
    if let Ok(tokens) = tokenized {
        assert_eq!(expected, tokens)
    } else {
        assert!(false);
    }
}

#[test]
fn tokenize_zero_arg_function() {
    let source = "f()";
    let expected = vec![ident("f"), ParseToken::OpenParen, ParseToken::CloseParen];

    let tokenized = tokenize(&source);
    if let Ok(tokens) = tokenized {
        assert_eq!(expected, tokens)
    } else {
        assert!(false);
    }
}

#[test]
fn tokenize_simple_function() {
    let source = "func(x)";
    let expected = vec![
        ident("func"),
        ParseToken::OpenParen,
        ident("x"),
        ParseToken::CloseParen,
    ];

    let tokenized = tokenize(&source);
    if let Ok(tokens) = tokenized {
        assert_eq!(expected, tokens)
    } else {
        assert!(false);
    }
}

#[test]
fn tokenize_function_complex_args() {
    let source = "f(1+2,g(x),var)";
    let expected = vec![
        ident("f"),
        ParseToken::OpenParen,
        num("1"),
        ParseToken::Add,
        num("2"),
        ParseToken::Comma,
        ident("g"),
        ParseToken::OpenParen,
        ident("x"),
        ParseToken::CloseParen,
        ParseToken::Comma,
        ident("var"),
        ParseToken::CloseParen,
    ];

    let tokenized = tokenize(&source);
    if let Ok(tokens) = tokenized {
        assert_eq!(expected, tokens)
    } else {
        assert!(false);
    }
}

#[test]
fn tokenize_errors_invalid_number() {
    let source = "10.4.5";
    let tokenized = tokenize(source);
    assert!(tokenized.is_err())
}

#[test]
fn tokenize_errors_invalid_character() {
    let source = "1+}3";
    let tokenized = tokenize(&source);
    assert!(tokenized.is_err())
}

#[test]
fn tokenize_invalid_number_error_kind() {
    match tokenize("10.4.5") {
        Err(CompileError::InvalidNumberLiteral) => {}
        _ => assert!(false),
    }
}

#[test]
fn tokenize_invalid_character_error_kind() {
    match tokenize("1+}3") {
        Err(CompileError::InvalidCharacter(c)) => assert_eq!(c, '}'),
        _ => assert!(false),
    }
}

#[test]
fn tokenize_lone_dot_is_invalid() {
    assert!(tokenize(".").is_err());
}

#[test]
fn tokenize_nine_starts_a_number() {
    let expected = vec![num("9"), ParseToken::Add, num("90.5")];
    assert_eq!(tokenize("9+90.5").unwrap(), expected);
}

#[test]
fn tokenize_identifier_with_digits_and_underscore() {
    let expected = vec![ident("x_1"), ParseToken::Assign, num("2")];
    assert_eq!(tokenize("x_1=2").unwrap(), expected);
}

#[test]
fn tokenize_empty_line() {
    assert_eq!(tokenize("").unwrap(), Vec::<ParseToken>::new());
    assert_eq!(tokenize(" \t ").unwrap(), Vec::<ParseToken>::new());
}

#[test]
fn token_predicates() {
    assert!(ParseToken::Add.is_operator());
    assert!(ParseToken::Exponent.is_operator());
    assert!(!ParseToken::Assign.is_operator());
    assert!(num("1").is_number());
    assert!(!ident("x").is_number());
    assert!(ident("x").is_identifier());
    assert!(!num("1").is_identifier());
}
