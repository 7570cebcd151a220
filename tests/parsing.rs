use lang::ast::{Expression, Literal, Number, Statement, AST};
use lang::lexer::Lexer;
use lang::parser::{Error, Parser};
use lang::token::{Kind, Token};

#[test]
fn mod_test_if() {
    let input = r#"
        let x = 1;

        if (x == 1) {
            print("x is 1.");
        }
    "#;

    let mut lexer = Lexer::new(input);
    let tokens = lexer.tokenize().unwrap();

    let mut parser = Parser::new(&tokens);
    let actual_ast = parser.parse().unwrap();
    let expected_ast = AST::new(vec![
        Statement::Variable {
            name: Token::new(Kind::Identifier("x".into()), 1, 5),
            initializer: Some(Expression::Literal(Literal::Number(Number::Integer(1)))),
        },
        Statement::If {
            condition: Expression::Binary {
                left: Box::from(Expression::Variable {
                    name: Token::new(Kind::Identifier("x".into()), 3, 13),
                }),
                operator: Token::new(Kind::Equality, 3, 15),
                right: Box::from(Expression::Literal(Literal::Number(Number::Integer(1)))),
            },
            then_branch: Box::from(Statement::Block {
                statements: vec![Statement::Expression {
                    expression: Expression::Call {
                        callee: Box::from(Expression::Variable {
                            name: Token::new(Kind::Identifier("print".into()), 4, 13),
                        }),
                        arguments: vec![Expression::Literal(Literal::String("x is 1.".into()))],
                    },
                }],
            }),
            else_branch: None,
        },
    ]);

    assert_eq!(actual_ast, expected_ast);
}

#[test]
fn mod_test_if_else() {
    let input = r#"
        let x = 1;

        if (x == 1) {
            print("x is 1.");
        } else {
            print("x is not 1.");
        }
    "#;

    let mut lexer = Lexer::new(input);
    let tokens = lexer.tokenize().unwrap();

    let mut parser = Parser::new(&tokens);
    let actual_ast = parser.parse().unwrap();
    let expected_ast = AST::new(vec![
        Statement::Variable {
            name: Token::new(Kind::Identifier("x".into()), 1, 5),
            initializer: Some(Expression::Literal(Literal::Number(Number::Integer(1)))),
        },
        Statement::If {
            condition: Expression::Binary {
                left: Box::from(Expression::Variable {
                    name: Token::new(Kind::Identifier("x".into()), 3, 13),
                }),
                operator: Token::new(Kind::Equality, 3, 15),
                right: Box::from(Expression::Literal(Literal::Number(Number::Integer(1)))),
            },
            then_branch: Box::from(Statement::Block {
                statements: vec![Statement::Expression {
                    expression: Expression::Call {
                        callee: Box::from(Expression::Variable {
                            name: Token::new(Kind::Identifier("print".into()), 4, 13),
                        }),
                        arguments: vec![Expression::Literal(Literal::String("x is 1.".into()))],
                    },
                }],
            }),
            else_branch: Some(Box::from(Statement::Block {
                statements: vec![Statement::Expression {
                    expression: Expression::Call {
                        callee: Box::from(Expression::Variable {
                            name: Token::new(Kind::Identifier("print".into()), 6, 13),
                        }),
                        arguments: vec![Expression::Literal(Literal::String("x is not 1.".into()))],
                    },
                }],
            })),
        },
    ]);

    assert_eq!(actual_ast, expected_ast);
}

#[test]
fn mod_test_else_if() {
    let input = r#"
        let x = 1;

        if (x == 1) {
            print("x is 1.");
        } else if (x == 2) {
            print("x is 2.");
        } else {
            print("x is not 1 or 2.");
        }
    "#;

    let mut lexer = Lexer::new(input);
    let tokens = lexer.tokenize().unwrap();

    let mut parser = Parser::new(&tokens);
    let actual_ast = parser.parse().unwrap();
    let expected_ast = AST::new(vec![
        Statement::Variable {
            name: Token::new(Kind::Identifier("x".into()), 1, 5),
            initializer: Some(Expression::Literal(Literal::Number(Number::Integer(1)))),
        },
        Statement::If {
            condition: Expression::Binary {
                left: Box::from(Expression::Variable {
                    name: Token::new(Kind::Identifier("x".into()), 3, 13),
                }),
                operator: Token::new(Kind::Equality, 3, 15),
                right: Box::from(Expression::Literal(Literal::Number(Number::Integer(1)))),
            },
            then_branch: Box::from(Statement::Block {
                statements: vec![Statement::Expression {
                    expression: Expression::Call {
                        callee: Box::from(Expression::Variable {
                            name: Token::new(Kind::Identifier("print".into()), 4, 13),
                        }),
                        arguments: vec![Expression::Literal(Literal::String("x is 1.".into()))],
                    },
                }],
            }),
            else_branch: Some(Box::from(Statement::If {
                condition: Expression::Binary {
                    left: Box::from(Expression::Variable {
                        name: Token::new(Kind::Identifier("x".into()), 5, 20),
                    }),
                    operator: Token::new(Kind::Equality, 5, 22),
                    right: Box::from(Expression::Literal(Literal::Number(Number::Integer(2)))),
                },
                then_branch: Box::from(Statement::Block {
                    statements: vec![Statement::Expression {
                        expression: Expression::Call {
                            callee: Box::from(Expression::Variable {
                                name: Token::new(Kind::Identifier("print".into()), 6, 13),
                            }),
                            arguments: vec![Expression::Literal(Literal::String("x is 2.".into()))],
                        },
                    }],
                }),
                else_branch: Some(Box::from(Statement::Block {
                    statements: vec![Statement::Expression {
                        expression: Expression::Call {
                            callee: Box::from(Expression::Variable {
                                name: Token::new(Kind::Identifier("print".into()), 8, 13),
                            }),
                            arguments: vec![Expression::Literal(Literal::String(
                                "x is not 1 or 2.".into(),
                            ))],
                        },
                    }],
                })),
            })),
        },
    ]);

    assert_eq!(actual_ast, expected_ast);
}

#[test]
fn mod_test_else_only() {
    let input = r#"
        else {
            print("Hello, World!");
        }
    "#;

    let mut lexer = Lexer::new(input);
    let tokens = lexer.tokenize().unwrap();

    let mut parser = Parser::new(&tokens);
    let ast = parser.parse();

    assert_eq!(
        ast,
        Err(Error::UnexpectedToken {
            line: 1,
            column: 1,
            message: "Expected expression.".into(),
        })
    );
}

#[test]
fn test_greet() {
    let input = r#"
        fn greet(name: str) {
            print("Hello, " + name + "!");
        }

        greet("World");
    "#;

    let mut lexer = Lexer::new(input);
    let tokens = lexer.tokenize().unwrap();

    let mut parser = Parser::new(&tokens);
    let actual_ast = parser.parse().unwrap();
    let expected_ast = AST::new(vec![
        Statement::Function {
            name: Token::new(Kind::Identifier("greet".into()), 1, 4),
            parameters: vec![(
                Token::new(Kind::Identifier("name".into()), 1, 10),
                Token::new(Kind::Identifier("str".into()), 1, 16),
            )],
            return_type: None,
            body: Box::from(Statement::Block {
                statements: vec![Statement::Expression {
                    expression: Expression::Call {
                        callee: Box::from(Expression::Variable {
                            name: Token::new(Kind::Identifier("print".into()), 2, 13),
                        }),
                        arguments: vec![Expression::Binary {
                            left: Box::from(Expression::Binary {
                                left: Box::from(Expression::Literal(Literal::String(
                                    "Hello, ".into(),
                                ))),
                                operator: Token::new(Kind::Plus, 2, 29),
                                right: Box::from(Expression::Variable {
                                    name: Token::new(Kind::Identifier("name".into()), 2, 31),
                                }),
                            }),
                            operator: Token::new(Kind::Plus, 2, 36),
                            right: Box::from(Expression::Literal(Literal::String("!".into()))),
                        }],
                    },
                }],
            }),
        },
        Statement::Expression {
            expression: Expression::Call {
                callee: Box::from(Expression::Variable {
                    name: Token::new(Kind::Identifier("greet".into()), 5, 9),
                }),
                arguments: vec![Expression::Literal(Literal::String("World".into()))],
            },
        },
    ]);

    assert_eq!(actual_ast, expected_ast);
}

#[test]
fn declaration_test_no_name() {
    let input = r"
        fn () {}
    ";

    let mut lexer = Lexer::new(input);
    let tokens = lexer.tokenize().unwrap();

    let mut parser = Parser::new(&tokens);
    let ast = parser.parse();

    assert_eq!(
        ast,
        Err(Error::UnexpectedToken {
            line: 1,
            column: 4,
            message: "Expected function name.".into(),
        })
    );
}

#[test]
fn test_no_parenthesis() {
    let input = r"
        fn main {}
    ";

    let mut lexer = Lexer::new(input);
    let tokens = lexer.tokenize().unwrap();

    let mut parser = Parser::new(&tokens);
    let ast = parser.parse();

    assert_eq!(
        ast,
        Err(Error::UnexpectedToken {
            line: 1,
            column: 9,
            message: "Expected '(' after function name.".into(),
        })
    );
}

#[test]
fn test_no_braces() {
    let input = r"
        fn main()
    ";

    let mut lexer = Lexer::new(input);
    let tokens = lexer.tokenize().unwrap();

    let mut parser = Parser::new(&tokens);
    let ast = parser.parse();

    assert!(ast.is_err());
}

#[test]
fn test_pure_main() {
    let input = r"
        fn main() {}
    ";

    let mut lexer = Lexer::new(input);
    let tokens = lexer.tokenize().unwrap();

    let mut parser = Parser::new(&tokens);
    let actual_ast = parser.parse().unwrap();
    let expected_ast = AST::new(vec![Statement::Function {
        name: Token::new(Kind::Identifier("main".into()), 1, 4),
        parameters: vec![],
        return_type: None,
        body: Box::from(Statement::Block { statements: vec![] }),
    }]);

    assert_eq!(actual_ast, expected_ast);
}

#[test]
fn test_not() {
    let input = r"
        let yes = !false;
        let no = !true;
    ";

    let mut lexer = Lexer::new(input);
    let tokens = lexer.tokenize().unwrap();

    let mut parser = Parser::new(&tokens);
    let actual_ast = parser.parse().unwrap();
    let expected_ast = AST::new(vec![
        Statement::Variable {
            name: Token::new(Kind::Identifier("yes".into()), 1, 5),
            initializer: Some(Expression::Unary {
                operator: Token::new(Kind::LogicalNot, 1, 11),
                right: Box::from(Expression::Literal(Literal::Boolean(false))),
            }),
        },
        Statement::Variable {
            name: Token::new(Kind::Identifier("no".into()), 2, 13),
            initializer: Some(Expression::Unary {
                operator: Token::new(Kind::LogicalNot, 2, 18),
                right: Box::from(Expression::Literal(Literal::Boolean(true))),
            }),
        },
    ]);

    assert_eq!(actual_ast, expected_ast);
}

#[test]
fn test_and() {
    let input = r"
        let yes = true && true;
        let no = true && false;
        let no = false && true;
        let no = false && false;
    ";

    let mut lexer = Lexer::new(input);
    let tokens = lexer.tokenize().unwrap();

    let mut parser = Parser::new(&tokens);
    let actual_ast = parser.parse().unwrap();
    let expected_ast = AST::new(vec![
        Statement::Variable {
            name: Token::new(Kind::Identifier("yes".into()), 1, 5),
            initializer: Some(Expression::Binary {
                left: Box::from(Expression::Literal(Literal::Boolean(true))),
                operator: Token::new(Kind::LogicalAnd, 1, 16),
                right: Box::from(Expression::Literal(Literal::Boolean(true))),
            }),
        },
        Statement::Variable {
            name: Token::new(Kind::Identifier("no".into()), 2, 13),
            initializer: Some(Expression::Binary {
                left: Box::from(Expression::Literal(Literal::Boolean(true))),
                operator: Token::new(Kind::LogicalAnd, 2, 23),
                right: Box::from(Expression::Literal(Literal::Boolean(false))),
            }),
        },
        Statement::Variable {
            name: Token::new(Kind::Identifier("no".into()), 3, 13),
            initializer: Some(Expression::Binary {
                left: Box::from(Expression::Literal(Literal::Boolean(false))),
                operator: Token::new(Kind::LogicalAnd, 3, 24),
                right: Box::from(Expression::Literal(Literal::Boolean(true))),
            }),
        },
        Statement::Variable {
            name: Token::new(Kind::Identifier("no".into()), 4, 13),
            initializer: Some(Expression::Binary {
                left: Box::from(Expression::Literal(Literal::Boolean(false))),
                operator: Token::new(Kind::LogicalAnd, 4, 24),
                right: Box::from(Expression::Literal(Literal::Boolean(false))),
            }),
        },
    ]);

    assert_eq!(actual_ast, expected_ast);
}

#[test]
fn test_or() {
    let input = r"
        let yes = true || true;
        let yes = true || false;
        let yes = false || true;
        let no = false || false;
    ";

    let mut lexer = Lexer::new(input);
    let tokens = lexer.tokenize().unwrap();

    let mut parser = Parser::new(&tokens);
    let actual_ast = parser.parse().unwrap();
    let expected_ast = AST::new(vec![
        Statement::Variable {
            name: Token::new(Kind::Identifier("yes".into()), 1, 5),
            initializer: Some(Expression::Binary {
                left: Box::from(Expression::Literal(Literal::Boolean(true))),
                operator: Token::new(Kind::LogicalOr, 1, 16),
                right: Box::from(Expression::Literal(Literal::Boolean(true))),
            }),
        },
        Statement::Variable {
            name: Token::new(Kind::Identifier("yes".into()), 2, 13),
            initializer: Some(Expression::Binary {
                left: Box::from(Expression::Literal(Literal::Boolean(true))),
                operator: Token::new(Kind::LogicalOr, 2, 24),
                right: Box::from(Expression::Literal(Literal::Boolean(false))),
            }),
        },
        Statement::Variable {
            name: Token::new(Kind::Identifier("yes".into()), 3, 13),
            initializer: Some(Expression::Binary {
                left: Box::from(Expression::Literal(Literal::Boolean(false))),
                operator: Token::new(Kind::LogicalOr, 3, 25),
                right: Box::from(Expression::Literal(Literal::Boolean(true))),
            }),
        },
        Statement::Variable {
            name: Token::new(Kind::Identifier("no".into()), 4, 13),
            initializer: Some(Expression::Binary {
                left: Box::from(Expression::Literal(Literal::Boolean(false))),
                operator: Token::new(Kind::LogicalOr, 4, 24),
                right: Box::from(Expression::Literal(Literal::Boolean(false))),
            }),
        },
    ]);

    assert_eq!(actual_ast, expected_ast);
}

#[test]
fn test_greater_than() {
    let input = r"
        let yes = 1 < 2;
        let no = 2 < 1;
        let no = 2 < 2;
    ";

    let mut lexer = Lexer::new(input);
    let tokens = lexer.tokenize().unwrap();

    let mut parser = Parser::new(&tokens);
    let actual_ast = parser.parse().unwrap();
    let expected_ast = AST::new(vec![
        Statement::Variable {
            name: Token::new(Kind::Identifier("yes".into()), 1, 5),
            initializer: Some(Expression::Binary {
                left: Box::from(Expression::Literal(Literal::Number(Number::Integer(1)))),
                operator: Token::new(Kind::LessThan, 1, 13),
                right: Box::from(Expression::Literal(Literal::Number(Number::Integer(2)))),
            }),
        },
        Statement::Variable {
            name: Token::new(Kind::Identifier("no".into()), 2, 13),
            initializer: Some(Expression::Binary {
                left: Box::from(Expression::Literal(Literal::Number(Number::Integer(2)))),
                operator: Token::new(Kind::LessThan, 2, 20),
                right: Box::from(Expression::Literal(Literal::Number(Number::Integer(1)))),
            }),
        },
        Statement::Variable {
            name: Token::new(Kind::Identifier("no".into()), 3, 13),
            initializer: Some(Expression::Binary {
                left: Box::from(Expression::Literal(Literal::Number(Number::Integer(2)))),
                operator: Token::new(Kind::LessThan, 3, 20),
                right: Box::from(Expression::Literal(Literal::Number(Number::Integer(2)))),
            }),
        },
    ]);

    assert_eq!(actual_ast, expected_ast);
}

#[test]
fn test_greater_than_or_equal() {
    let input = r"
        let yes = 1 <= 2;
        let yes = 2 <= 2;
        let no = 3 <= 2;
    ";

    let mut lexer = Lexer::new(input);
    let tokens = lexer.tokenize().unwrap();

    let mut parser = Parser::new(&tokens);
    let actual_ast = parser.parse().unwrap();
    let expected_ast = AST::new(vec![
        Statement::Variable {
            name: Token::new(Kind::Identifier("yes".into()), 1, 5),
            initializer: Some(Expression::Binary {
                left: Box::from(Expression::Literal(Literal::Number(Number::Integer(1)))),
                operator: Token::new(Kind::LessThanOrEqual, 1, 13),
                right: Box::from(Expression::Literal(Literal::Number(Number::Integer(2)))),
            }),
        },
        Statement::Variable {
            name: Token::new(Kind::Identifier("yes".into()), 2, 13),
            initializer: Some(Expression::Binary {
                left: Box::from(Expression::Literal(Literal::Number(Number::Integer(2)))),
                operator: Token::new(Kind::LessThanOrEqual, 2, 21),
                right: Box::from(Expression::Literal(Literal::Number(Number::Integer(2)))),
            }),
        },
        Statement::Variable {
            name: Token::new(Kind::Identifier("no".into()), 3, 13),
            initializer: Some(Expression::Binary {
                left: Box::from(Expression::Literal(Literal::Number(Number::Integer(3)))),
                operator: Token::new(Kind::LessThanOrEqual, 3, 20),
                right: Box::from(Expression::Literal(Literal::Number(Number::Integer(2)))),
            }),
        },
    ]);

    assert_eq!(actual_ast, expected_ast);
}

#[test]
fn test_less_than() {
    let input = r"
        let yes = 1 > 2;
        let no = 2 > 1;
        let no = 2 > 2;
    ";

    let mut lexer = Lexer::new(input);
    let tokens = lexer.tokenize().unwrap();

    let mut parser = Parser::new(&tokens);
    let actual_ast = parser.parse().unwrap();
    let expected_ast = AST::new(vec![
        Statement::Variable {
            name: Token::new(Kind::Identifier("yes".into()), 1, 5),
            initializer: Some(Expression::Binary {
                left: Box::from(Expression::Literal(Literal::Number(Number::Integer(1)))),
                operator: Token::new(Kind::GreaterThan, 1, 13),
                right: Box::from(Expression::Literal(Literal::Number(Number::Integer(2)))),
            }),
        },
        Statement::Variable {
            name: Token::new(Kind::Identifier("no".into()), 2, 13),
            initializer: Some(Expression::Binary {
                left: Box::from(Expression::Literal(Literal::Number(Number::Integer(2)))),
                operator: Token::new(Kind::GreaterThan, 2, 20),
                right: Box::from(Expression::Literal(Literal::Number(Number::Integer(1)))),
            }),
        },
        Statement::Variable {
            name: Token::new(Kind::Identifier("no".into()), 3, 13),
            initializer: Some(Expression::Binary {
                left: Box::from(Expression::Literal(Literal::Number(Number::Integer(2)))),
                operator: Token::new(Kind::GreaterThan, 3, 20),
                right: Box::from(Expression::Literal(Literal::Number(Number::Integer(2)))),
            }),
        },
    ]);

    assert_eq!(actual_ast, expected_ast);
}

#[test]
fn test_less_than_or_equal() {
    let input = r"
        let yes = 1 >= 2;
        let yes = 2 >= 2;
        let no = 3 >= 2;
    ";

    let mut lexer = Lexer::new(input);
    let tokens = lexer.tokenize().unwrap();

    let mut parser = Parser::new(&tokens);
    let actual_ast = parser.parse().unwrap();
    let expected_ast = AST::new(vec![
        Statement::Variable {
            name: Token::new(Kind::Identifier("yes".into()), 1, 5),
            initializer: Some(Expression::Binary {
                left: Box::from(Expression::Literal(Literal::Number(Number::Integer(1)))),
                operator: Token::new(Kind::GreaterThanOrEqual, 1, 13),
                right: Box::from(Expression::Literal(Literal::Number(Number::Integer(2)))),
            }),
        },
        Statement::Variable {
            name: Token::new(Kind::Identifier("yes".into()), 2, 13),
            initializer: Some(Expression::Binary {
                left: Box::from(Expression::Literal(Literal::Number(Number::Integer(2)))),
                operator: Token::new(Kind::GreaterThanOrEqual, 2, 21),
                right: Box::from(Expression::Literal(Literal::Number(Number::Integer(2)))),
            }),
        },
        Statement::Variable {
            name: Token::new(Kind::Identifier("no".into()), 3, 13),
            initializer: Some(Expression::Binary {
                left: Box::from(Expression::Literal(Literal::Number(Number::Integer(3)))),
                operator: Token::new(Kind::GreaterThanOrEqual, 3, 20),
                right: Box::from(Expression::Literal(Literal::Number(Number::Integer(2)))),
            }),
        },
    ]);

    assert_eq!(actual_ast, expected_ast);
}

#[test]
fn test_comparison() {
    let input = r"
        let a = 1;
        let b = 2;

        let yes = a != b;
        let no = a == b;
    ";

    let mut lexer = Lexer::new(input);
    let tokens = lexer.tokenize().unwrap();

    let mut parser = Parser::new(&tokens);
    let actual_ast = parser.parse().unwrap();
    let expected_ast = AST::new(vec![
        Statement::Variable {
            name: Token::new(Kind::Identifier("a".into()), 1, 5),
            initializer: Some(Expression::Literal(Literal::Number(Number::Integer(1)))),
        },
        Statement::Variable {
            name: Token::new(Kind::Identifier("b".into()), 2, 13),
            initializer: Some(Expression::Literal(Literal::Number(Number::Integer(2)))),
        },
        Statement::Variable {
            name: Token::new(Kind::Identifier("yes".into()), 4, 13),
            initializer: Some(Expression::Binary {
                left: Box::from(Expression::Variable {
                    name: Token::new(Kind::Identifier("a".into()), 4, 19),
                }),
                operator: Token::new(Kind::NotEqual, 4, 21),
                right: Box::from(Expression::Variable {
                    name: Token::new(Kind::Identifier("b".into()), 4, 24),
                }),
            }),
        },
        Statement::Variable {
            name: Token::new(Kind::Identifier("no".into()), 5, 13),
            initializer: Some(Expression::Binary {
                left: Box::from(Expression::Variable {
                    name: Token::new(Kind::Identifier("a".into()), 5, 18),
                }),
                operator: Token::new(Kind::Equality, 5, 20),
                right: Box::from(Expression::Variable {
                    name: Token::new(Kind::Identifier("b".into()), 5, 23),
                }),
            }),
        },
    ]);

    assert_eq!(actual_ast, expected_ast);
}

#[test]
fn invalid_test_no_semicolon() {
    let input = r"
        let x = 1
    ";

    let mut lexer = Lexer::new(input);
    let tokens = lexer.tokenize().unwrap();

    let mut parser = Parser::new(&tokens);
    let ast = parser.parse();

    assert_eq!(
        ast,
        Err(Error::UnexpectedToken {
            line: 1,
            column: 10,
            message: "Expected ';' after variable declaration.".into(),
        })
    );
}

#[test]
fn invalid_test_no_expression() {
    let input = r"
        let x = ;
    ";

    let mut lexer = Lexer::new(input);
    let tokens = lexer.tokenize().unwrap();

    let mut parser = Parser::new(&tokens);
    let ast = parser.parse();

    assert_eq!(
        ast,
        Err(Error::UnexpectedToken {
            line: 1,
            column: 9,
            message: "Expected expression.".into(),
        })
    );
}

#[test]
fn invalid_test_no_name() {
    let input = r"
        let = 1;
    ";

    let mut lexer = Lexer::new(input);
    let tokens = lexer.tokenize().unwrap();

    let mut parser = Parser::new(&tokens);
    let ast = parser.parse();

    assert_eq!(
        ast,
        Err(Error::UnexpectedToken {
            line: 1,
            column: 5,
            message: "Expected variable name.".into(),
        })
    );
}

#[test]
fn test_integer() {
    let input = r"
        let x = 1;
    ";

    let mut lexer = Lexer::new(input);
    let tokens = lexer.tokenize().unwrap();

    let mut parser = Parser::new(&tokens);
    let actual_ast = parser.parse().unwrap();
    let expected_ast = AST::new(vec![Statement::Variable {
        name: Token::new(Kind::Identifier("x".into()), 1, 5),
        initializer: Some(Expression::Literal(Literal::Number(Number::Integer(1)))),
    }]);

    assert_eq!(actual_ast, expected_ast);
}

#[test]
fn test_float() {
    let input = r"
        let x = 1.0;
    ";

    let mut lexer = Lexer::new(input);
    let tokens = lexer.tokenize().unwrap();

    let mut parser = Parser::new(&tokens);
    let actual_ast = parser.parse().unwrap();
    let expected_ast = AST::new(vec![Statement::Variable {
        name: Token::new(Kind::Identifier("x".into()), 1, 5),
        initializer: Some(Expression::Literal(Literal::Number(Number::Float("1.0".into())))),
    }]);

    assert_eq!(actual_ast, expected_ast);
}

#[test]
fn test_order_of_operations() {
    let input = r"
        let x = 1 + 2 * 3 - 4 / 5;
    ";

    let mut lexer = Lexer::new(input);
    let tokens = lexer.tokenize().unwrap();

    let mut parser = Parser::new(&tokens);
    let actual_ast = parser.parse().unwrap();
    let expected_ast = AST::new(vec![Statement::Variable {
        name: Token::new(Kind::Identifier("x".into()), 1, 5),
        initializer: Some(Expression::Binary {
            left: Box::from(Expression::Binary {
                left: Box::from(Expression::Literal(Literal::Number(Number::Integer(1)))),
                operator: Token::new(Kind::Plus, 1, 11),
                right: Box::from(Expression::Binary {
                    left: Box::from(Expression::Literal(Literal::Number(Number::Integer(2)))),
                    operator: Token::new(Kind::Star, 1, 15),
                    right: Box::from(Expression::Literal(Literal::Number(Number::Integer(3)))),
                }),
            }),
            operator: Token::new(Kind::Minus, 1, 19),
            right: Box::from(Expression::Binary {
                left: Box::from(Expression::Literal(Literal::Number(Number::Integer(4)))),
                operator: Token::new(Kind::Slash, 1, 23),
                right: Box::from(Expression::Literal(Literal::Number(Number::Integer(5)))),
            }),
        }),
    }]);

    assert_eq!(actual_ast, expected_ast);
}

#[test]
fn strings_test_string() {
    let input = r#"
        let greeting = "Hello, World!";
    "#;

    let mut lexer = Lexer::new(input);
    let tokens = lexer.tokenize().unwrap();

    let mut parser = Parser::new(&tokens);
    let actual_ast = parser.parse().unwrap();
    let expected_ast = AST::new(vec![Statement::Variable {
        name: Token::new(Kind::Identifier("greeting".into()), 1, 5),
        initializer: Some(Expression::Literal(Literal::String("Hello, World!".into()))),
    }]);

    assert_eq!(actual_ast, expected_ast);
}
