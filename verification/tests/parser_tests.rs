use numerus::error::CompileError;
use numerus::parser::{parse, Declaration, Statement};
use numerus::token::ParseToken;

fn num(s: &str) -> ParseToken {
    ParseToken::Number(s.to_string())
}

fn ident(s: &str) -> ParseToken {
    ParseToken::Identifier(s.to_string())
}

#[test]
fn parses_single_line() {
    let input = "1+2";
    let expected = vec![Statement::Expression(vec![
        num("1"),
        num("2"),
        ParseToken::Add,
    ])];
    let parsed = parse(&input);
    if let Ok(statements) = parsed {
        assert_eq!(statements, expected)
    } else {
        assert!(false)
    }
}

#[test]
fn parses_multiple_lines() {
    let input = "1+2\n3-4";
    let expected = vec![
        Statement::Expression(vec![num("1"), num("2"), ParseToken::Add]),
        Statement::Expression(vec![num("3"), num("4"), ParseToken::Subtract]),
    ];
    let parsed = parse(&input);
    if let Ok(statements) = parsed {
        assert_eq!(statements, expected)
    } else {
        assert!(false)
    }
}

#[test]
fn parses_variable_declaration() {
    let input = "var=3";
    let expected = vec![Statement::Declaration(Declaration {
        name: "var".to_string(),
        args: vec![],
        body: vec![num("3")],
    })];
    let parsed = parse(&input);
    if let Ok(statements) = parsed {
        assert_eq!(statements, expected)
    } else {
        assert!(false)
    }
}

#[test]
fn parses_function_declaration() {
    let input = "f(x) = x";
    let expected = vec![Statement::Declaration(Declaration {
        name: "f".to_string(),
        args: vec!["x".to_string()],
        body: vec![ident("x")],
    })];
    let parsed = parse(&input);
    if let Ok(statements) = parsed {
        assert_eq!(statements, expected)
    } else {
        assert!(false)
    }
}

#[test]
fn parses_function_args() {
    let input = "f(x, y, z) = x + y + z";
    let expected = vec![Statement::Declaration(Declaration {
        name: "f".to_string(),
        args: vec!["x".to_string(), "y".to_string(), "z".to_string()],
        body: vec![
            ident("x"),
            ident("y"),
            ParseToken::Add,
            ident("z"),
            ParseToken::Add,
        ],
    })];
    let parsed = parse(&input);
    if let Ok(statements) = parsed {
        assert_eq!(statements, expected)
    } else if let Err(e) = parsed {
        println!("{:?}", e);
        assert!(false)
    }
}

#[test]
fn parses_function_call() {
    let input = "func(x, 3)";
    let expected = vec![Statement::Expression(vec![
        ident("x"),
        num("3"),
        ident("func"),
    ])];
    let parsed = parse(&input);
    if let Ok(statements) = parsed {
        assert_eq!(statements, expected)
    } else {
        assert!(false)
    }
}

#[test]
fn parses_function_call_with_arg_expression() {
    let input = "func(x, 3 + 4 * 2)";
    let expected = vec![Statement::Expression(vec![
        // [ x 3 4 2 * + func() ]
        ident("x"),
        num("3"),
        num("4"),
        num("2"),
        ParseToken::Multiply,
        ParseToken::Add,
        ident("func"),
    ])];
    let parsed = parse(&input);
    if let Ok(statements) = parsed {
        assert_eq!(statements, expected)
    } else {
        assert!(false)
    }
}

#[test]
fn parses_blank_lines_to_no_statement() {
    let parsed = parse("1+2\n\n3-4\n").unwrap();
    assert_eq!(parsed.len(), 2);
    let parsed_empty = parse("").unwrap();
    assert_eq!(parsed_empty.len(), 0);
    let parsed_spaces = parse(" \t \n ").unwrap();
    assert_eq!(parsed_spaces.len(), 0);
}

#[test]
fn parse_reports_line_number_of_failure() {
    let err = parse("1+2\n1+}").unwrap_err();
    assert_eq!(err.line, 1);
    match err.error {
        CompileError::InvalidCharacter(c) => assert_eq!(c, '}'),
        _ => assert!(false),
    }
}

#[test]
fn parse_rejects_assignment_without_identifier() {
    let err = parse("1 = 2").unwrap_err();
    assert_eq!(err.line, 0);
    match err.error {
        CompileError::InvalidAssignment => {}
        _ => assert!(false),
    }
}

#[test]
fn parse_splits_at_first_assignment() {
    // the second `=` ends up in the declaration's body conversion
    let parsed = parse("a=1").unwrap();
    match &parsed[0] {
        Statement::Declaration(d) => {
            assert_eq!(d.name, "a");
            assert!(d.args.is_empty());
        }
        _ => assert!(false),
    }
}

#[test]
fn parse_keeps_duplicate_parameter_names() {
    let parsed = parse("f(x, x) = x").unwrap();
    match &parsed[0] {
        Statement::Declaration(d) => {
            assert_eq!(d.args, vec!["x".to_string(), "x".to_string()]);
        }
        _ => assert!(false),
    }
}
