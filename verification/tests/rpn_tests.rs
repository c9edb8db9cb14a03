use numerus::lexer::tokenize;
use numerus::rpn::infix_to_rpn;
use numerus::token::ParseToken;

fn num(s: &str) -> ParseToken {
    ParseToken::Number(s.to_string())
}

fn ident(s: &str) -> ParseToken {
    ParseToken::Identifier(s.to_string())
}

#[test]
fn rpn_conversion_1_plus_2() {
    let input = vec![
        // [1 + 2]
        num("1"),
        ParseToken::Add,
        num("2"),
    ];
    let expected = vec![
        // [1 2 +]
        num("1"),
        num("2"),
        ParseToken::Add,
    ];
    let result = infix_to_rpn(input);
    if let Ok(output) = result {
        assert_eq!(output, expected)
    } else {
        assert!(false)
    }
}

#[test]
fn rpn_conversion_all_operators() {
    let input = vec![
        // [1 + 2 - 3 * 4 / 5 ^ 6]
        num("1"),
        ParseToken::Add,
        num("2"),
        ParseToken::Subtract,
        num("3"),
        ParseToken::Multiply,
        num("4"),
        ParseToken::Divide,
        num("5"),
        ParseToken::Exponent,
        num("6"),
    ];
    let expected = vec![
        // [1 2 + 3 4 * 5 6 ^ / -]
        num("1"),
        num("2"),
        ParseToken::Add,
        num("3"),
        num("4"),
        ParseToken::Multiply,
        num("5"),
        num("6"),
        ParseToken::Exponent,
        ParseToken::Divide,
        ParseToken::Subtract,
    ];
    let result = infix_to_rpn(input);
    if let Ok(output) = result {
        assert_eq!(output, expected)
    } else {
        assert!(false)
    }
}

#[test]
fn rpn_conversion_with_parenthesis() {
    let input = vec![
        // [1 + ( 2 - 3)]
        num("1"),
        ParseToken::Add,
        ParseToken::OpenParen,
        num("2"),
        ParseToken::Subtract,
        num("3"),
        ParseToken::CloseParen,
    ];
    let expected = vec![
        // [1 2 3 - +]
        num("1"),
        num("2"),
        num("3"),
        ParseToken::Subtract,
        ParseToken::Add,
    ];
    let result = infix_to_rpn(input);
    if let Ok(output) = result {
        assert_eq!(output, expected)
    } else {
        assert!(false)
    }
}

#[test]
fn rpn_conversion_with_functions() {
    let input = vec![
        // [1 + ( f ( x , y) - 3 ) ]
        num("1"),
        ParseToken::Add,
        ParseToken::OpenParen,
        ident("f"),
        ParseToken::OpenParen,
        ident("x"),
        ParseToken::Comma,
        ident("y"),
        ParseToken::CloseParen,
        ParseToken::Subtract,
        num("3"),
        ParseToken::CloseParen,
    ];
    let expected = vec![
        // [ 1 x y f() 3 - +]
        num("1"),
        ident("x"),
        ident("y"),
        ident("f"),
        num("3"),
        ParseToken::Subtract,
        ParseToken::Add,
    ];
    let result = infix_to_rpn(input);
    if let Ok(output) = result {
        assert_eq!(output, expected)
    } else {
        assert!(false)
    }
}

#[test]
fn rpn_conversion_function_arguments() {
    let input = vec![
        // [f ( 1 + 2 , 3 - 4 / 5 ) + 6]
        ident("f"),
        ParseToken::OpenParen,
        num("1"),
        ParseToken::Add,
        num("2"),
        ParseToken::Comma,
        num("3"),
        ParseToken::Subtract,
        num("4"),
        ParseToken::Divide,
        num("5"),
        ParseToken::CloseParen,
        ParseToken::Add,
        num("6"),
    ];
    let expected = vec![
        // [1 2 + 3 4 5 / - f() 6 +]
        num("1"),
        num("2"),
        ParseToken::Add,
        num("3"),
        num("4"),
        num("5"),
        ParseToken::Divide,
        ParseToken::Subtract,
        ident("f"),
        num("6"),
        ParseToken::Add,
    ];
    let result = infix_to_rpn(input);
    if let Ok(output) = result {
        assert_eq!(output, expected)
    } else {
        assert!(false)
    }
}

#[test]
fn rpn_exponent_chain_right_associates() {
    // 2 ^ 3 ^ 4 becomes [2 3 4 ^ ^]: the chain binds to the right
    let input = vec![
        num("2"),
        ParseToken::Exponent,
        num("3"),
        ParseToken::Exponent,
        num("4"),
    ];
    let expected = vec![
        num("2"),
        num("3"),
        num("4"),
        ParseToken::Exponent,
        ParseToken::Exponent,
    ];
    assert_eq!(infix_to_rpn(input).unwrap(), expected);
}

#[test]
fn rpn_flat_input_preserves_length() {
    // operands and operators alone: the output has the input's length
    let input = vec![
        num("1"),
        ParseToken::Add,
        num("2"),
        ParseToken::Multiply,
        ident("x"),
    ];
    let n = input.len();
    assert_eq!(infix_to_rpn(input).unwrap().len(), n);
}

#[test]
fn rpn_empty_input() {
    assert_eq!(
        infix_to_rpn(Vec::new()).unwrap(),
        Vec::<ParseToken>::new()
    );
}

fn eval_postfix_f64(tokens: &[ParseToken]) -> Option<f64> {
    let mut stack: Vec<f64> = Vec::new();
    for t in tokens {
        match t {
            ParseToken::Number(s) => stack.push(s.parse::<f64>().unwrap()),
            ParseToken::Add
            | ParseToken::Subtract
            | ParseToken::Multiply
            | ParseToken::Divide
            | ParseToken::Exponent => {
                let y = stack.pop()?;
                let x = stack.pop()?;
                stack.push(match t {
                    ParseToken::Add => x + y,
                    ParseToken::Subtract => x - y,
                    ParseToken::Multiply => x * y,
                    ParseToken::Divide => x / y,
                    _ => x.powf(y),
                });
            }
            _ => return None,
        }
    }
    if stack.len() == 1 {
        stack.pop()
    } else {
        None
    }
}

#[test]
fn rpn_round_trip_f64_precedence() {
    let tokens = tokenize("1+2*3-8/4").unwrap();
    let postfix = infix_to_rpn(tokens).unwrap();
    assert_eq!(eval_postfix_f64(&postfix), Some(1.0 + 2.0 * 3.0 - 8.0 / 4.0));
}

#[test]
fn rpn_round_trip_f64_parens() {
    let tokens = tokenize("2*(3+4.5)").unwrap();
    let postfix = infix_to_rpn(tokens).unwrap();
    assert_eq!(eval_postfix_f64(&postfix), Some(2.0 * (3.0 + 4.5)));
}

#[test]
fn rpn_round_trip_f64_exponent_right_associates() {
    let tokens = tokenize("2^3^2").unwrap();
    let postfix = infix_to_rpn(tokens).unwrap();
    assert_eq!(eval_postfix_f64(&postfix), Some(2.0f64.powf(3.0f64.powf(2.0))));
}
