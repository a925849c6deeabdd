use interpreter::ast::{Expression, Node, Program, Statement};
use interpreter::tokens::Token;

#[test]
fn string() {
    let program = Program {
        statements: vec![Statement::Let {
            identifier: Token::Ident("myVar".to_string()),
            value: Expression::Identifier("anotherVar".to_string()),
        }],
    };

    let expected = String::from("let myVar = anotherVar;");
    let string = program.string();

    assert_eq!(
        expected, string,
        "Wrong program. expected {} got {}",
        string, expected
    )
}

#[test]
fn round_trip_let_integer() {
    let program = Program {
        statements: vec![Statement::Let {
            identifier: Token::Ident("x".to_string()),
            value: Expression::IntegerLiteral("5".to_string()),
        }],
    };
    assert_eq!(program.string(), String::from("let x = 5;"));
}

#[test]
fn program_token_literal() {
    let program = Program {
        statements: vec![Statement::Return {
            value: Expression::IntegerLiteral("5".to_string()),
        }],
    };
    assert_eq!(program.token_literal(), String::from("return"));

    let empty = Program { statements: vec![] };
    assert_eq!(empty.token_literal(), String::from(""));
    assert_eq!(empty.string(), String::from(""));
}

#[test]
fn name_token_literal() {
    let statement = Statement::Let {
        identifier: Token::Ident("answer".to_string()),
        value: Expression::IntegerLiteral("42".to_string()),
    };
    assert_eq!(statement.name_token_literal(), String::from("answer"));
}

#[test]
fn token_names() {
    assert_eq!(Token::name(&Token::Assign), String::from("="));
    assert_eq!(Token::name(&Token::RParen), String::from(")"));
    assert_eq!(Token::name(&Token::Ident("x".to_string())), String::from("identifier"));
    assert_eq!(Token::name(&Token::Int("5".to_string())), String::from("integer"));
    assert_eq!(Token::name(&Token::Eof), String::from(""));
    assert_eq!(Token::Int("17".to_string()).string(), String::from("17"));
    assert_eq!(Token::Function.string(), String::from("fn"));
}
