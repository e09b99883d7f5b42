use thorsten_interpreter::ast::{
    CallableExpression, Expression, Identifier, IntegerLiteral, Operator, Statement,
};
use thorsten_interpreter::lexer::Lexer;
use thorsten_interpreter::parser::Parser;

struct PrefixOperationTests {
    pub input: String,
    pub operator: Operator,
    pub operand: i64,
}

struct InfixOperationTests {
    pub input: String,
    pub operator: Operator,
    pub left: i64,
    pub right: i64,
}

fn test_let_statement(statement: &Statement, val: &str) {
    if let Statement::Let(statement) = statement {
        assert_eq!(
            statement.name.value.as_str(),
            val,
            "name value do not match: {}, {}",
            statement.name.value.as_str(),
            val
        );
    } else {
        panic!("statment was not let: {:?}", statement);
    }
}

pub fn test_int_literal(exp: &Expression, val: i64) {
    match exp {
        Expression::IntegerLiteral(integer) => {
            assert_eq!(integer.value, val);
        }
        _ => panic!("expression is not integer literal"),
    }
}

pub fn test_bool_literal(exp: &Expression, val: bool) {
    match exp {
        Expression::BooleanLiteral(boolean) => {
            assert_eq!(boolean.value, val);
        }
        _ => panic!("expression is not bool literal"),
    }
}

pub fn test_identifier_exp(exp: &Expression, val: String) {
    match exp {
        Expression::Callable(CallableExpression::Identifier(ident)) => {
            assert_eq!(ident.value, val);
        }
        _ => panic!("expression is not identifier"),
    }
}

pub fn test_infix_exp(
    exp: &Expression,
    left: &Expression,
    operator: Operator,
    right: &Expression,
) {
    match exp {
        Expression::Infix(exp) => {
            assert_eq!(exp.left.as_ref(), left);
            assert_eq!(exp.right.as_ref(), right);
            assert_eq!(exp.operator, operator);
        }
        _ => panic!("expression is not identifier"),
    }
}

#[test]
fn test_return_statements() {
    let input = "
return 5;
return 10;
return 838383;
";
    let lexer = Lexer::new(input);
    let parser = Parser::new(lexer);

    let program = parser.parse_program();

    assert_eq!(
        3,
        program.statments.len(),
        "invalid number of statements: {}",
        program.statments.len()
    );

    for stmt in program.statments {
        match stmt {
            Statement::Return(_) => continue,
            _ => {
                panic!("Not found return statement")
            }
        };
    }
}

#[test]
fn test_let_statements() {
    let input = "
let x = 5;
let y = 10;
let foobar = 838383;
";
    let lexer = Lexer::new(input);
    let parser = Parser::new(lexer);

    let program = parser.parse_program();

    assert_eq!(
        3,
        program.statments.len(),
        "invalid number of statements: {}",
        program.statments.len()
    );

    let tests = vec![
        Identifier {
            value: "x".to_string(),
        },
        Identifier {
            value: "y".to_string(),
        },
        Identifier {
            value: "foobar".to_string(),
        },
    ];

    for (i, ident) in tests.iter().enumerate() {
        let stmt = program.statments.get(i).unwrap();
        test_let_statement(stmt, &ident.value);
    }
}

#[test]
fn test_identifier_expression() {
    let input = "foobar;";
    let lexer = Lexer::new(input);
    let parser = Parser::new(lexer);

    let program = parser.parse_program();

    assert_eq!(
        1,
        program.statments.len(),
        "invalid number of statements: {}",
        program.statments.len()
    );

    let stmt = program.statments.get(0).unwrap();

    match stmt {
        Statement::Expression(exp) => {
            test_identifier_exp(&exp.expression, "foobar".to_string())
        }
        _ => panic!("Statment is not identifier expression"),
    }
}

#[test]
fn test_integer_literal_expression() {
    let input = "5;";
    let lexer = Lexer::new(input);
    let parser = Parser::new(lexer);

    let program = parser.parse_program();

    assert_eq!(
        1,
        program.statments.len(),
        "invalid number of statements: {}",
        program.statments.len()
    );

    let stmt = program.statments.get(0).unwrap();

    match stmt {
        Statement::Expression(exp) => {
            test_int_literal(&exp.expression, 5);
        }
        _ => panic!("Statment is not identifier expression"),
    }
}

#[test]
fn test_bool_literal_expression() {
    let input = "true;";
    let lexer = Lexer::new(input);
    let parser = Parser::new(lexer);

    let program = parser.parse_program();

    assert_eq!(
        1,
        program.statments.len(),
        "invalid number of statements: {}",
        program.statments.len()
    );

    let stmt = program.statments.get(0).unwrap();

    match stmt {
        Statement::Expression(exp) => {
            test_bool_literal(&exp.expression, true);
        }
        _ => panic!("Statment is not identifier expression"),
    }
}

#[test]
fn test_prefix_expressions() {
    let tests = vec![
        PrefixOperationTests {
            input: "!5".to_string(),
            operator: Operator::Bang,
            operand: 5,
        },
        PrefixOperationTests {
            input: "-15".to_string(),
            operator: Operator::Minus,
            operand: 15,
        },
    ];

    for test in tests {
        let lexer = Lexer::new(&test.input);
        let parser = Parser::new(lexer);

        let program = parser.parse_program();

        assert_eq!(
            1,
            program.statments.len(),
            "invalid number of statements: {}",
            program.statments.len()
        );

        let stmt = program.statments.get(0).unwrap();

        match stmt {
            Statement::Expression(exp) => match &exp.expression {
                Expression::Prefix(exp) => {
                    assert_eq!(
                        std::mem::discriminant(&exp.operator),
                        std::mem::discriminant(&test.operator)
                    );
                    test_int_literal(&exp.right, test.operand);
                }
                _ => panic!("Prefix not found expression"),
            },
            _ => panic!("Statment is not identifier expression"),
        }
    }
}

#[test]
fn test_infix_expressions() {
    let tests = vec![
        InfixOperationTests {
            input: "5 + 5;".to_string(),
            operator: Operator::Plus,
            left: 5,
            right: 5,
        },
        InfixOperationTests {
            input: "5 - 5;".to_string(),
            operator: Operator::Minus,
            left: 5,
            right: 5,
        },
        InfixOperationTests {
            input: "5 * 5;".to_string(),
            operator: Operator::Asterisk,
            left: 5,
            right: 5,
        },
        InfixOperationTests {
            input: "5 / 5;".to_string(),
            operator: Operator::Slash,
            left: 5,
            right: 5,
        },
        InfixOperationTests {
            input: "5 > 5;".to_string(),
            operator: Operator::Gt,
            left: 5,
            right: 5,
        },
        InfixOperationTests {
            input: "5 < 5;".to_string(),
            operator: Operator::Lt,
            left: 5,
            right: 5,
        },
        InfixOperationTests {
            input: "5 != 5;".to_string(),
            operator: Operator::NotEq,
            left: 5,
            right: 5,
        },
        InfixOperationTests {
            input: "5 == 5;".to_string(),
            operator: Operator::Eq,
            left: 5,
            right: 5,
        },
    ];

    for test in tests {
        let lexer = Lexer::new(&test.input);
        let parser = Parser::new(lexer);

        let program = parser.parse_program();

        assert_eq!(
            1,
            program.statments.len(),
            "invalid number of statements: {}",
            program.statments.len()
        );

        let stmt = program.statments.get(0).unwrap();

        match stmt {
            Statement::Expression(exp) => match &exp.expression {
                Expression::Infix(exp) => {
                    assert_eq!(
                        std::mem::discriminant(&exp.operator),
                        std::mem::discriminant(&test.operator)
                    );
                    test_int_literal(&exp.right, test.right);
                    test_int_literal(&exp.left, test.left);
                }
                _ => panic!("Prefix not found expression"),
            },
            _ => panic!("Statment is not identifier expression"),
        }
    }
}

#[test]
fn test_if_expression() {
    let input = "if (x < y) { x }";
    let lexer = Lexer::new(input);
    let parser = Parser::new(lexer);

    let program = parser.parse_program();

    assert_eq!(
        1,
        program.statments.len(),
        "invalid number of statements: {}",
        program.statments.len()
    );

    let stmt = program.statments.get(0).unwrap();

    match stmt {
        Statement::Expression(exp) => {
            match &exp.expression {
                Expression::If(if_exp) => {
                    test_infix_exp(
                        if_exp.condition.as_ref(),
                        &Expression::Callable(CallableExpression::Identifier(Identifier {
                            value: "x".to_string(),
                        })),
                        Operator::Lt,
                        &Expression::Callable(CallableExpression::Identifier(Identifier {
                            value: "y".to_string(),
                        })),
                    );

                    assert_eq!(
                        1,
                        if_exp.consequence.statements.len(),
                        "invalid number of consequence statements: {}",
                        if_exp.consequence.statements.len(),
                    );
                    assert_eq!(None, if_exp.alternative);

                    let stmt = if_exp
                        .consequence
                        .statements
                        .get(0)
                        .expect("invalid condition");

                    match stmt {
                        Statement::Expression(exp) => {
                            test_identifier_exp(&exp.expression, "x".to_string())
                        }
                        _ => panic!("condition statment is not identifier expression"),
                    }
                }
                _ => panic!("expression is not if expression"),
            };
        }
        _ => panic!("Statment is not identifier expression"),
    }
}

#[test]
fn test_if_else_expression() {
    let input = "if (x < y) { x } else { y }";
    let lexer = Lexer::new(input);
    let parser = Parser::new(lexer);

    let program = parser.parse_program();

    assert_eq!(
        1,
        program.statments.len(),
        "invalid number of statements: {}",
        program.statments.len()
    );

    let stmt = program.statments.get(0).unwrap();

    match stmt {
        Statement::Expression(exp) => {
            match &exp.expression {
                Expression::If(if_exp) => {
                    test_infix_exp(
                        if_exp.condition.as_ref(),
                        &Expression::Callable(CallableExpression::Identifier(Identifier {
                            value: "x".to_string(),
                        })),
                        Operator::Lt,
                        &Expression::Callable(CallableExpression::Identifier(Identifier {
                            value: "y".to_string(),
                        })),
                    );

                    assert_eq!(
                        1,
                        if_exp.consequence.statements.len(),
                        "invalid number of consequence statements: {}",
                        if_exp.consequence.statements.len(),
                    );

                    let stmt = if_exp
                        .consequence
                        .statements
                        .get(0)
                        .expect("invalid condition");

                    match stmt {
                        Statement::Expression(exp) => {
                            test_identifier_exp(&exp.expression, "x".to_string())
                        }
                        _ => panic!("condition statment is not identifier expression"),
                    }

                    let alternative = if_exp.alternative.as_ref().unwrap();

                    assert_eq!(
                        1,
                        alternative.statements.len(),
                        "invalid number of alternative statements: {}",
                        alternative.statements.len(),
                    );
                    let stmt = alternative.statements.get(0).expect("invalid condition");

                    match stmt {
                        Statement::Expression(exp) => {
                            test_identifier_exp(&exp.expression, "y".to_string())
                        }
                        _ => panic!("alternative statment is not identifier expression"),
                    }
                }
                _ => panic!("expression is not if expression"),
            };
        }
        _ => panic!("Statment is not identifier expression"),
    }
}

#[test]
fn test_function_literal() {
    let input = "fn (x, y) {x + y;}";
    let lexer = Lexer::new(input);
    let parser = Parser::new(lexer);

    let program = parser.parse_program();

    assert_eq!(
        1,
        program.statments.len(),
        "invalid number of statements: {}",
        program.statments.len()
    );

    let stmt = program.statments.get(0).unwrap();

    match stmt {
        Statement::Expression(exp) => match &exp.expression {
            Expression::Callable(CallableExpression::FunctionLiteral(function)) => {
                assert_eq!(
                    2,
                    function.parameters.len(),
                    "invalid number of parameters: {}",
                    function.parameters.len(),
                );
                let param = function.parameters.get(0).unwrap();
                assert_eq!("x", param.value);
                let param = function.parameters.get(1).unwrap();
                assert_eq!("y", param.value);

                assert_eq!(
                    1,
                    function.body.statements.len(),
                    "invalid number of body statments: {}",
                    function.body.statements.len(),
                );

                let stmt = function.body.statements.get(0).expect("invalid body");

                match stmt {
                    Statement::Expression(exp) => test_infix_exp(
                        &exp.expression,
                        &Expression::Callable(CallableExpression::Identifier(Identifier {
                            value: "x".to_string(),
                        })),
                        Operator::Plus,
                        &Expression::Callable(CallableExpression::Identifier(Identifier {
                            value: "y".to_string(),
                        })),
                    ),
                    _ => panic!("body statment is not identifier expression"),
                }
            }
            _ => panic!("Expression is not a function"),
        },
        _ => panic!("Statment is not identifier expression"),
    }
}

#[test]
fn test_call_expression() {
    let input = "add(1, 2 * 3, 4 + 5)";
    let lexer = Lexer::new(input);
    let parser = Parser::new(lexer);

    let program = parser.parse_program();

    assert_eq!(
        1,
        program.statments.len(),
        "invalid number of statements: {}",
        program.statments.len()
    );

    let stmt = program.statments.get(0).unwrap();

    match stmt {
        Statement::Expression(exp) => match &exp.expression {
            Expression::Call(call_expression) => {
                match &call_expression.func {
                    CallableExpression::Identifier(ident) => {
                        assert_eq!(
                            ident,
                            &Identifier {
                                value: "add".to_string()
                            }
                        )
                    }
                    _ => panic!("func is not an identifier"),
                };
                assert_eq!(
                    3,
                    call_expression.arguments.len(),
                    "invalid number of arguments: {}",
                    call_expression.arguments.len(),
                );
                test_int_literal(call_expression.arguments.get(0).unwrap(), 1);
                test_infix_exp(
                    call_expression.arguments.get(1).unwrap(),
                    &Expression::IntegerLiteral(IntegerLiteral { value: 2 }),
                    Operator::Asterisk,
                    &Expression::IntegerLiteral(IntegerLiteral { value: 3 }),
                );
                test_infix_exp(
                    call_expression.arguments.get(2).unwrap(),
                    &Expression::IntegerLiteral(IntegerLiteral { value: 4 }),
                    Operator::Plus,
                    &Expression::IntegerLiteral(IntegerLiteral { value: 5 }),
                );
            }
            _ => panic!("Expression is not a function"),
        },
        _ => panic!("Statment is not identifier expression"),
    }
}

#[test]
fn test_playground() {
    let input = "let x = 2; return x + 2;";
    let lexer = Lexer::new(input);
    let parser = Parser::new(lexer);

    let program = parser.parse_program();

    assert_eq!(
        2,
        program.statments.len(),
        "invalid number of statements: {}",
        program.statments.len()
    );
}
