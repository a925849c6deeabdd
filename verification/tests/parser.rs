use interpreter::ast::{Expression, Node, Statement};
use interpreter::lexer::Lexer;
use interpreter::parser::Parser;
use interpreter::tokens::Token;

fn parse(input: &str) -> (interpreter::ast::Program, Vec<String>) {
    let source = String::from(input);
    let l = Lexer::new(&source);
    let p = Parser::new(l);
    p.parse_program()
}

fn first_expression(program: &interpreter::ast::Program) -> &Expression {
    match &program.statements[0] {
        Statement::Expression { expression } => expression,
        s => panic!("Statement not expression. Got {:?}", s),
    }
}

#[test]
fn let_statement() {
    let input = String::from(
        "\
let x = 5;
let y = 10;
let foobar = 838383;",
    );

    let l = Lexer::new(&input);
    let p = Parser::new(l);
    let (program, errors) = p.parse_program();
    assert!(errors.is_empty(), "parse errors: {:?}", errors);

    let n = program.statements.len();
    assert_eq!(n, 3, "Let statement must have 3 elements, got {}", n);

    let expected_identifiers = vec![
        String::from("x"),
        String::from("y"),
        String::from("foobar"),
    ];

    let ident_iter = expected_identifiers.iter().zip(program.statements.iter());

    for (expected, statement) in ident_iter {
        let token_literal = statement.token_literal();
        assert_eq!(
            token_literal,
            String::from("let"),
            "Token literal not \"let\" got {}",
            token_literal
        );

        let name = &statement.name_token_literal();
        assert_eq!(expected, name, "Expected token {}, got {}", expected, name);
    }
}

#[test]
fn return_statement() {
    let input = String::from(
        "\
return 5;
return 10;
return 3301;",
    );

    let l = Lexer::new(&input);
    let p = Parser::new(l);
    let (program, errors) = p.parse_program();
    assert!(errors.is_empty(), "parse errors: {:?}", errors);

    let n = program.statements.len();
    assert_eq!(n, 3, "Return statements must have 3 elements. Got {}", n);

    for statement in program.statements {
        let token_literal = statement.token_literal();
        assert_eq!(
            token_literal,
            String::from("return"),
            "Token literal not \"let\" got {}",
            token_literal
        );
    }
}

#[test]
fn identifier_statement() {
    let input = String::from(
        "\
foobar;",
    );

    let l = Lexer::new(&input);
    let p = Parser::new(l);
    let (program, errors) = p.parse_program();
    assert!(errors.is_empty(), "parse errors: {:?}", errors);

    let n = program.statements.len();
    assert_eq!(n, 1, "Program has not enough statements. Got {}", n);
    println!("statements {:?}", program.statements);

    let statement = &program.statements[0];
    match statement {
        Statement::Expression { expression } => {
            assert_eq!(*expression, Expression::Identifier(String::from("foobar")));
        }
        s => panic!("Statement not expression. Got {:?}", s),
    }
}

#[test]
fn precedence_product_over_sum() {
    let (program, errors) = parse("a + b * c");
    assert!(errors.is_empty(), "parse errors: {:?}", errors);
    assert_eq!(program.statements.len(), 1);
    let expected = Expression::InfixExpression {
        operator: Token::Plus,
        left: Box::new(Expression::Identifier("a".to_string())),
        right: Box::new(Expression::InfixExpression {
            operator: Token::Asterisk,
            left: Box::new(Expression::Identifier("b".to_string())),
            right: Box::new(Expression::Identifier("c".to_string())),
        }),
    };
    assert_eq!(*first_expression(&program), expected);
    assert_eq!(program.string(), String::from("(a + (b * c))"));

    let (program2, errors2) = parse("a * b + c");
    assert!(errors2.is_empty());
    let expected2 = Expression::InfixExpression {
        operator: Token::Plus,
        left: Box::new(Expression::InfixExpression {
            operator: Token::Asterisk,
            left: Box::new(Expression::Identifier("a".to_string())),
            right: Box::new(Expression::Identifier("b".to_string())),
        }),
        right: Box::new(Expression::Identifier("c".to_string())),
    };
    assert_eq!(*first_expression(&program2), expected2);
    assert_eq!(program2.string(), String::from("((a * b) + c)"));
}

#[test]
fn subtraction_is_left_associative() {
    let (program, errors) = parse("a - b - c");
    assert!(errors.is_empty(), "parse errors: {:?}", errors);
    let expected = Expression::InfixExpression {
        operator: Token::Minus,
        left: Box::new(Expression::InfixExpression {
            operator: Token::Minus,
            left: Box::new(Expression::Identifier("a".to_string())),
            right: Box::new(Expression::Identifier("b".to_string())),
        }),
        right: Box::new(Expression::Identifier("c".to_string())),
    };
    assert_eq!(*first_expression(&program), expected);
    assert_eq!(program.string(), String::from("((a - b) - c)"));
}

#[test]
fn grouping_overrides_precedence() {
    let (program, errors) = parse("(a + b) * c");
    assert!(errors.is_empty(), "parse errors: {:?}", errors);
    let expected = Expression::InfixExpression {
        operator: Token::Asterisk,
        left: Box::new(Expression::InfixExpression {
            operator: Token::Plus,
            left: Box::new(Expression::Identifier("a".to_string())),
            right: Box::new(Expression::Identifier("b".to_string())),
        }),
        right: Box::new(Expression::Identifier("c".to_string())),
    };
    assert_eq!(*first_expression(&program), expected);
    assert_eq!(program.string(), String::from("((a + b) * c)"));
}

#[test]
fn missing_assign_drops_let_statement() {
    let (program, errors) = parse("let x 5;");
    assert_eq!(program.statements.len(), 0);
    assert!(!errors.is_empty());
    assert_eq!(
        errors[0],
        String::from("expected next token to be =, got integer instead")
    );
}

#[test]
fn no_prefix_rule_is_reported() {
    let (program, errors) = parse(";");
    assert_eq!(program.statements.len(), 0);
    assert_eq!(
        errors[0],
        String::from("no prefix parse function for ; found")
    );
}

#[test]
fn prefix_and_boolean_expressions() {
    let (program, errors) = parse("!true; -15;");
    assert!(errors.is_empty(), "parse errors: {:?}", errors);
    assert_eq!(program.statements.len(), 2);
    assert_eq!(program.string(), String::from("(!true)\n(-15)"));
}

#[test]
fn if_else_expression() {
    let (program, errors) = parse("if (x < y) { x } else { y }");
    assert!(errors.is_empty(), "parse errors: {:?}", errors);
    assert_eq!(program.statements.len(), 1);
    let expected = Expression::IfExpression {
        condition: Box::new(Expression::InfixExpression {
            operator: Token::Lt,
            left: Box::new(Expression::Identifier("x".to_string())),
            right: Box::new(Expression::Identifier("y".to_string())),
        }),
        consequence: interpreter::ast::Block {
            statements: vec![Statement::Expression {
                expression: Expression::Identifier("x".to_string()),
            }],
        },
        alternative: Some(interpreter::ast::Block {
            statements: vec![Statement::Expression {
                expression: Expression::Identifier("y".to_string()),
            }],
        }),
    };
    assert_eq!(*first_expression(&program), expected);
}

#[test]
fn end_to_end_let_program() {
    let (program, errors) = parse(
        "let five = 5;\nlet ten = 10;\nlet add = fn(x, y) { x + y; };\nlet result = add(five, ten);",
    );
    assert!(errors.is_empty(), "parse errors: {:?}", errors);
    assert_eq!(program.statements.len(), 4);

    let names: Vec<String> = program
        .statements
        .iter()
        .map(|s| s.name_token_literal())
        .collect();
    assert_eq!(
        names,
        vec![
            String::from("five"),
            String::from("ten"),
            String::from("add"),
            String::from("result")
        ]
    );

    match &program.statements[2] {
        Statement::Let { value, .. } => {
            let expected = Expression::FunctionLiteral {
                parameters: vec![String::from("x"), String::from("y")],
                body: interpreter::ast::Block {
                    statements: vec![Statement::Expression {
                        expression: Expression::InfixExpression {
                            operator: Token::Plus,
                            left: Box::new(Expression::Identifier("x".to_string())),
                            right: Box::new(Expression::Identifier("y".to_string())),
                        },
                    }],
                },
            };
            assert_eq!(*value, expected);
        }
        s => panic!("third statement is not a let. Got {:?}", s),
    }

    match &program.statements[3] {
        Statement::Let { value, .. } => {
            let expected = Expression::CallExpression {
                function: Box::new(Expression::Identifier("add".to_string())),
                arguments: vec![
                    Expression::Identifier("five".to_string()),
                    Expression::Identifier("ten".to_string()),
                ],
            };
            assert_eq!(*value, expected);
        }
        s => panic!("fourth statement is not a let. Got {:?}", s),
    }
}

#[test]
fn recovery_continues_after_bad_statement() {
    let (program, errors) = parse("let x 5; let y = 7;");
    assert_eq!(program.statements.len(), 1);
    assert_eq!(program.statements[0].name_token_literal(), String::from("y"));
    assert_eq!(errors.len(), 1);
}

#[test]
fn call_without_arguments() {
    let (program, errors) = parse("ping();");
    assert!(errors.is_empty(), "parse errors: {:?}", errors);
    let expected = Expression::CallExpression {
        function: Box::new(Expression::Identifier("ping".to_string())),
        arguments: vec![],
    };
    assert_eq!(*first_expression(&program), expected);
}

#[test]
fn expression_statement_token_literal() {
    let (program, errors) = parse("a + b;");
    assert!(errors.is_empty(), "parse errors: {:?}", errors);
    assert_eq!(program.statements[0].token_literal(), String::from("a"));

    let (program2, errors2) = parse("add(five, ten);");
    assert!(errors2.is_empty(), "parse errors: {:?}", errors2);
    assert_eq!(program2.statements[0].token_literal(), String::from("add"));
}
