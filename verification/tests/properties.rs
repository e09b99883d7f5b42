use thorsten_interpreter::ast::{
    BlockStatement, BooleanLiteral, CallExpression, CallableExpression, Expression,
    ExpressionStatement, FunctionLiteral, Identifier, IfExpression, InfixExpression,
    IntegerLiteral, LetStatement, Node, Operator, PrefixExpression, Program, ReturnStatement,
    Statement, StringLiteral,
};
use thorsten_interpreter::environment::Environment;
use thorsten_interpreter::error::EvalError;
use thorsten_interpreter::evaluator::{Evaluator, MAX_CALL_DEPTH};
use thorsten_interpreter::grammar::ParseError;
use thorsten_interpreter::lexer::Lexer;
use thorsten_interpreter::object::{FunctionObj, Object, ObjectKind};
use thorsten_interpreter::parser::Parser;
use thorsten_interpreter::repl::{submit, Reply};
use thorsten_interpreter::text::{parse_integer, render_integer};
use thorsten_interpreter::token::{Token, TokenKind};

fn parse(input: &str) -> Program {
    Parser::new(Lexer::new(input)).parse_program()
}

fn eval(input: &str) -> Result<Object, EvalError> {
    let mut env = Environment::default();
    Evaluator::eval(parse(input), &mut env)
}

fn eval_in(input: &str, env: &mut Environment) -> Result<Object, EvalError> {
    Evaluator::eval(parse(input), env)
}

fn kinds(input: &str) -> Vec<TokenKind> {
    let mut lexer = Lexer::new(input);
    let mut found = Vec::new();
    while let Some(token) = lexer.next_token() {
        found.push(token.kind);
    }
    found
}

fn texts(input: &str) -> Vec<String> {
    let mut lexer = Lexer::new(input);
    let mut found = Vec::new();
    while let Some(token) = lexer.next_token() {
        found.push(token.val);
    }
    found
}

fn integer(value: i64) -> Expression {
    Expression::IntegerLiteral(IntegerLiteral { value })
}

fn name(value: &str) -> Expression {
    Expression::Callable(CallableExpression::Identifier(Identifier {
        value: value.to_string(),
    }))
}

fn infix(left: Expression, operator: Operator, right: Expression) -> Expression {
    Expression::Infix(InfixExpression {
        left: Box::new(left),
        right: Box::new(right),
        operator,
    })
}

fn statement(expression: Expression) -> Statement {
    Statement::Expression(ExpressionStatement { expression })
}

fn messages(errors: &[ParseError]) -> Vec<String> {
    errors.iter().map(|error| error.message()).collect()
}

#[test]
fn integer_literals_evaluate_to_themselves() {
    for n in [0i64, 1, 7, 10, 42, 1000, 838383, i64::MAX, -1, -9, -10, -838383, i64::MIN + 1] {
        let text = n.to_string();
        assert_eq!(render_integer(n), text);
        assert_eq!(eval(&text), Ok(Object::Integer(n)), "{}", text);
    }
}

#[test]
fn the_least_integer_has_no_literal() {
    let program = parse("-9223372036854775808");
    assert_eq!(program.statments.len(), 0);
    assert_eq!(program.errors, messages(&[ParseError::IntegerOutOfRange]));
    assert_eq!(eval("9223372036854775807"), Ok(Object::Integer(i64::MAX)));
    assert_eq!(
        parse("9223372036854775808").errors,
        messages(&[ParseError::IntegerOutOfRange])
    );
}

#[test]
fn integers_as_text() {
    assert_eq!(render_integer(0), "0");
    assert_eq!(render_integer(-1), "-1");
    assert_eq!(render_integer(1234567890), "1234567890");
    assert_eq!(render_integer(i64::MAX), "9223372036854775807");
    assert_eq!(render_integer(i64::MIN), "-9223372036854775808");
    assert_eq!(parse_integer("0"), Some(0));
    assert_eq!(parse_integer("007"), Some(7));
    assert_eq!(parse_integer("9223372036854775807"), Some(i64::MAX));
    assert_eq!(parse_integer("9223372036854775808"), None);
    assert_eq!(parse_integer("99999999999999999999999"), None);
    assert_eq!(parse_integer(""), None);
    assert_eq!(parse_integer("12a"), None);
    assert_eq!(parse_integer("-5"), None);
}

#[test]
fn an_empty_submission_parses_and_fails_to_evaluate() {
    for input in ["", " ", "\n", " \t\r\n  "] {
        let program = parse(input);
        assert_eq!(program.statments.len(), 0);
        assert_eq!(program.errors.len(), 0);
        let error = eval(input).unwrap_err();
        assert_eq!(error, EvalError::EmptyStatements);
        assert_eq!(error.to_string(), "empty statements");
    }
}

#[test]
fn an_empty_block_fails_to_evaluate() {
    assert_eq!(eval("if (true) { }"), Err(EvalError::EmptyStatements));
    assert_eq!(eval("fn(x) { }(1)"), Err(EvalError::EmptyStatements));
    assert_eq!(eval("if (false) { }"), Ok(Object::Null));
}

#[test]
fn a_pure_program_evaluates_twice_alike() {
    for input in [
        "5 + 5 * 2",
        "if (1 < 2) { 10 } else { 20 }",
        "fn(x) { x * 2 }(21)",
        "!true == false",
        "fn(x) { x }",
        "1 / 0",
    ] {
        let first = eval(input);
        let second = eval(input);
        assert_eq!(first, second);

        let mut env = Environment::default();
        let once = eval_in(input, &mut env);
        assert_eq!(env, Environment::default());
        let again = eval_in(input, &mut env);
        assert_eq!(once, again);
        assert_eq!(once, first);
    }
}

#[test]
fn parsing_goes_on_behind_a_malformed_statement() {
    let program = parse("@; 7;");
    assert_eq!(program.errors, messages(&[ParseError::NoPrefixRule]));
    assert_eq!(program.statments, vec![statement(integer(7))]);

    let program = parse("let x 5; x + 1;");
    assert_eq!(program.errors, messages(&[ParseError::ExpectedAssign]));
    assert_eq!(
        program.statments,
        vec![statement(infix(name("x"), Operator::Plus, integer(1)))]
    );

    let program = parse("(5;1;");
    assert_eq!(program.errors, messages(&[ParseError::MissingRightParen]));
    assert_eq!(program.statments, vec![statement(integer(1))]);

    let program = parse("let = 5; 10;");
    assert_eq!(program.errors, messages(&[ParseError::ExpectedIdentifier]));
    assert_eq!(program.statments, vec![statement(integer(10))]);

    let program = parse("let x = ; 5");
    assert_eq!(program.errors, messages(&[ParseError::NoPrefixRule]));
    assert_eq!(program.statments, vec![statement(integer(5))]);

    let program = parse("1 + ; 2 * ; 3");
    assert_eq!(
        program.errors,
        messages(&[ParseError::NoPrefixRule, ParseError::NoPrefixRule])
    );
    assert_eq!(program.statments, vec![statement(integer(3))]);
}

#[test]
fn a_malformed_statement_reaches_to_the_next_terminator() {
    let program = parse("@ 7;");
    assert_eq!(program.errors, messages(&[ParseError::NoPrefixRule]));
    assert_eq!(program.statments.len(), 0);

    let program = parse("1; let 5 = 3 4 5; 2; ) ) ); 3");
    assert_eq!(
        program.errors,
        messages(&[ParseError::ExpectedIdentifier, ParseError::NoPrefixRule])
    );
    assert_eq!(
        program.statments,
        vec![statement(integer(1)), statement(integer(2)), statement(integer(3))]
    );

    let program = parse("fn(x) { a; (b }; 7");
    assert_eq!(program.errors, messages(&[ParseError::MissingRightParen]));
    assert_eq!(program.statments, vec![statement(integer(7))]);

    let program = parse("5 (");
    assert_eq!(program.errors, messages(&[ParseError::NotCallable]));
    assert_eq!(program.statments.len(), 0);
}

#[test]
fn what_fails_between_parentheses_is_the_error() {
    let program = parse("(@); 1");
    assert_eq!(program.errors, messages(&[ParseError::NoPrefixRule]));
    assert_eq!(program.statments, vec![statement(integer(1))]);

    let program = parse("(1 +); 2");
    assert_eq!(program.errors, messages(&[ParseError::NoPrefixRule]));
    assert_eq!(program.statments, vec![statement(integer(2))]);

    let program = parse("(1 2); 3");
    assert_eq!(program.errors, messages(&[ParseError::MissingRightParen]));
    assert_eq!(program.statments, vec![statement(integer(3))]);

    let program = parse("((1); 4");
    assert_eq!(program.errors, messages(&[ParseError::MissingRightParen]));
    assert_eq!(program.statments, vec![statement(integer(4))]);
}

#[test]
fn words_are_keywords_or_identifiers() {
    for (word, kind) in [
        ("let", TokenKind::Let),
        ("fn", TokenKind::Function),
        ("if", TokenKind::If),
        ("else", TokenKind::Else),
        ("true", TokenKind::True),
        ("false", TokenKind::False),
        ("return", TokenKind::Return),
        ("lets", TokenKind::Ident),
        ("Let", TokenKind::Ident),
        ("x", TokenKind::Ident),
        ("", TokenKind::Ident),
        ("returns", TokenKind::Ident),
    ] {
        assert_eq!(Lexer::keyword_or_identifier(&word.to_string()), kind, "{}", word);
    }
}

#[test]
fn each_parse_error() {
    assert_eq!(parse("let 5 = 3").errors, messages(&[ParseError::ExpectedIdentifier]));
    assert_eq!(parse("let x").errors, messages(&[ParseError::ExpectedAssign]));
    assert_eq!(parse("fn x").errors, messages(&[ParseError::MissingLeftParen]));
    assert_eq!(parse("if x").errors, messages(&[ParseError::MissingLeftParen]));
    assert_eq!(parse("(1 + 2").errors, messages(&[ParseError::MissingRightParen]));
    assert_eq!(parse("f(1, 2").errors, messages(&[ParseError::MissingRightParen]));
    assert_eq!(parse("fn(x, y").errors, messages(&[ParseError::MissingRightParen]));
    assert_eq!(parse("fn(x) x").errors, messages(&[ParseError::MissingLeftBrace]));
    assert_eq!(parse("if (x) x").errors, messages(&[ParseError::MissingLeftBrace]));
    assert_eq!(
        parse("if (x) { 1 } else 2").errors,
        messages(&[ParseError::MissingLeftBrace])
    );
    assert_eq!(parse("fn(1) { 1 }").errors, messages(&[ParseError::MissingParameter]));
    assert_eq!(parse("fn(x, 1) { 1 }").errors, messages(&[ParseError::MissingParameter]));
    assert_eq!(parse("5(1)").errors, messages(&[ParseError::NotCallable]));
    assert_eq!(parse(";").errors, messages(&[ParseError::NoPrefixRule]));
    assert_eq!(parse("-").errors, messages(&[ParseError::UnexpectedEnd]));
    assert_eq!(parse("1 +").errors, messages(&[ParseError::UnexpectedEnd]));
    assert_eq!(parse("return").errors, messages(&[ParseError::UnexpectedEnd]));
    assert_eq!(
        parse("99999999999999999999").errors,
        messages(&[ParseError::IntegerOutOfRange])
    );
    assert_eq!(ParseError::MissingParameter.message(), "identifier not found for parameters");
    assert_eq!(ParseError::NotCallable.message(), "expression is not callable");
    assert_eq!(ParseError::UnexpectedEnd.message(), "cannot parse expression");
}

#[test]
fn operators_bind_by_precedence_and_to_the_left() {
    assert_eq!(
        parse("1 + 2 * 3").statments,
        vec![statement(infix(
            integer(1),
            Operator::Plus,
            infix(integer(2), Operator::Asterisk, integer(3))
        ))]
    );
    assert_eq!(
        parse("1 * 2 + 3").statments,
        vec![statement(infix(
            infix(integer(1), Operator::Asterisk, integer(2)),
            Operator::Plus,
            integer(3)
        ))]
    );
    assert_eq!(
        parse("1 - 2 - 3").statments,
        vec![statement(infix(
            infix(integer(1), Operator::Minus, integer(2)),
            Operator::Minus,
            integer(3)
        ))]
    );
    assert_eq!(
        parse("1 < 2 == 3 > 4").statments,
        vec![statement(infix(
            infix(integer(1), Operator::Lt, integer(2)),
            Operator::Eq,
            infix(integer(3), Operator::Gt, integer(4))
        ))]
    );
    assert_eq!(
        parse("-1 * 2").statments,
        vec![statement(infix(
            Expression::Prefix(PrefixExpression {
                right: Box::new(integer(1)),
                operator: Operator::Minus
            }),
            Operator::Asterisk,
            integer(2)
        ))]
    );
    assert_eq!(
        parse("(1 + 2) * 3").statments,
        vec![statement(infix(
            infix(integer(1), Operator::Plus, integer(2)),
            Operator::Asterisk,
            integer(3)
        ))]
    );
    assert_eq!(
        parse("a + f(b) * c").statments,
        vec![statement(infix(
            name("a"),
            Operator::Plus,
            infix(
                Expression::Call(CallExpression {
                    func: CallableExpression::Identifier(Identifier {
                        value: "f".to_string()
                    }),
                    arguments: vec![name("b")],
                }),
                Operator::Asterisk,
                name("c")
            )
        ))]
    );
}

#[test]
fn empty_lists_of_parameters_and_arguments() {
    let program = parse("fn() { 1 }");
    assert_eq!(program.errors.len(), 0);
    assert_eq!(
        program.statments,
        vec![statement(Expression::Callable(CallableExpression::FunctionLiteral(
            FunctionLiteral {
                body: BlockStatement {
                    statements: vec![statement(integer(1))]
                },
                parameters: vec![],
            }
        )))]
    );
    let program = parse("f() + 1; 2");
    assert_eq!(program.errors.len(), 0);
    assert_eq!(
        program.statments,
        vec![
            statement(infix(
                Expression::Call(CallExpression {
                    func: CallableExpression::Identifier(Identifier {
                        value: "f".to_string()
                    }),
                    arguments: vec![],
                }),
                Operator::Plus,
                integer(1)
            )),
            statement(integer(2))
        ]
    );
    assert_eq!(eval("fn() { 7 }()"), Ok(Object::Integer(7)));
    assert_eq!(eval("let f = fn() { 7 }; if (f() == 7) { 1 } else { 2 }"), Ok(Object::Integer(1)));
}

#[test]
fn a_block_ends_at_its_brace_or_at_the_end_of_the_text() {
    assert_eq!(eval("if (true) { 1; 2"), Ok(Object::Integer(2)));
    let program = parse("if (true) { 1 } 2");
    assert_eq!(program.errors.len(), 0);
    assert_eq!(program.statments.len(), 2);
    assert_eq!(program.statments[1], statement(integer(2)));
}

#[test]
fn let_without_terminator() {
    let program = parse("let x = 5 let y = 6");
    assert_eq!(program.errors.len(), 0);
    assert_eq!(
        program.statments,
        vec![
            Statement::Let(LetStatement {
                name: Identifier {
                    value: "x".to_string()
                },
                value: integer(5)
            }),
            Statement::Let(LetStatement {
                name: Identifier {
                    value: "y".to_string()
                },
                value: integer(6)
            }),
        ]
    );
}

#[test]
fn tokens_of_two_characters_and_of_one() {
    assert_eq!(
        kinds("= == ! != =! ==="),
        vec![
            TokenKind::Assign,
            TokenKind::Eq,
            TokenKind::Bang,
            TokenKind::NotEq,
            TokenKind::Assign,
            TokenKind::Bang,
            TokenKind::Eq,
            TokenKind::Assign
        ]
    );
    assert_eq!(texts("a==b!=c"), vec!["a", "==", "b", "!=", "c"]);
}

#[test]
fn identifiers_are_runs_of_letters() {
    assert_eq!(kinds("foo1"), vec![TokenKind::Ident, TokenKind::Int]);
    assert_eq!(texts("foo1"), vec!["foo", "1"]);
    assert_eq!(
        kinds("foo_bar"),
        vec![TokenKind::Ident, TokenKind::Illegal, TokenKind::Ident]
    );
    assert_eq!(texts("foo_bar"), vec!["foo", "_", "bar"]);
    assert_eq!(kinds("12ab"), vec![TokenKind::Int, TokenKind::Ident]);
    assert_eq!(kinds("h\u{e9}llo"), vec![TokenKind::Ident]);
    assert_eq!(texts("h\u{e9}llo w\u{f6}rld"), vec!["h\u{e9}llo", "w\u{f6}rld"]);
    assert_eq!(kinds("letter"), vec![TokenKind::Ident]);
    assert_eq!(kinds("let"), vec![TokenKind::Let]);
    assert_eq!(
        kinds("fn true false if else return"),
        vec![
            TokenKind::Function,
            TokenKind::True,
            TokenKind::False,
            TokenKind::If,
            TokenKind::Else,
            TokenKind::Return
        ]
    );
}

#[test]
fn anything_else_is_illegal() {
    assert_eq!(
        kinds("@ # \" \u{0} \u{663}"),
        vec![
            TokenKind::Illegal,
            TokenKind::Illegal,
            TokenKind::Illegal,
            TokenKind::Illegal,
            TokenKind::Illegal
        ]
    );
    let mut lexer = Lexer::new("\u{0}x");
    assert_eq!(
        lexer.next_token(),
        Some(Token {
            kind: TokenKind::Illegal,
            val: "\u{0}".to_string()
        })
    );
    assert_eq!(
        lexer.next_token(),
        Some(Token {
            kind: TokenKind::Ident,
            val: "x".to_string()
        })
    );
    assert_eq!(lexer.next_token(), None);
    assert_eq!(lexer.next_token(), None);
}

#[test]
fn the_parser_looks_one_token_ahead() {
    let parser = Parser::new(Lexer::new("let x"));
    assert_eq!(parser.current_token_kind(), Some(TokenKind::Let));
    assert_eq!(parser.peek_token_kind(), Some(TokenKind::Ident));
    let parser = Parser::new(Lexer::new("x"));
    assert_eq!(parser.current_token_kind(), Some(TokenKind::Ident));
    assert_eq!(parser.peek_token_kind(), None);
    let parser = Parser::new(Lexer::new(""));
    assert_eq!(parser.current_token_kind(), None);
    assert_eq!(parser.peek_token_kind(), None);
}

#[test]
fn integer_arithmetic_wraps() {
    assert_eq!(eval("9223372036854775807 + 1"), Ok(Object::Integer(i64::MIN)));
    assert_eq!(eval("-9223372036854775807 - 2"), Ok(Object::Integer(i64::MAX)));
    assert_eq!(
        eval("9223372036854775807 * 2"),
        Ok(Object::Integer(i64::MAX.wrapping_mul(2)))
    );
    assert_eq!(
        eval("(-9223372036854775807 - 1) / -1"),
        Ok(Object::Integer(i64::MIN))
    );
    assert_eq!(eval("-(-9223372036854775807 - 1)"), Ok(Object::Integer(i64::MIN)));
}

#[test]
fn division_rounds_toward_zero() {
    assert_eq!(eval("7 / 2"), Ok(Object::Integer(3)));
    assert_eq!(eval("-7 / 2"), Ok(Object::Integer(-3)));
    assert_eq!(eval("7 / -2"), Ok(Object::Integer(-3)));
    assert_eq!(eval("-7 / -2"), Ok(Object::Integer(3)));
    assert_eq!(eval("0 / 5"), Ok(Object::Integer(0)));
    assert_eq!(eval("15 / 3"), Ok(Object::Integer(5)));
    let error = eval("1 / 0").unwrap_err();
    assert_eq!(error, EvalError::DivisionByZero);
    assert_eq!(error.to_string(), "division by zero");
}

#[test]
fn each_evaluation_error() {
    assert_eq!(
        eval("foobar"),
        Err(EvalError::IdentifierNotFound("foobar".to_string()))
    );
    assert_eq!(
        eval("true + 1"),
        Err(EvalError::TypeMismatch(
            ObjectKind::Boolean,
            Operator::Plus,
            ObjectKind::Integer
        ))
    );
    assert_eq!(
        eval("true < false"),
        Err(EvalError::UnknownInfixOperator(
            ObjectKind::Boolean,
            Operator::Lt,
            ObjectKind::Boolean
        ))
    );
    assert_eq!(
        eval("-true"),
        Err(EvalError::UnknownPrefixOperator(
            Operator::Minus,
            ObjectKind::Boolean
        ))
    );
    assert_eq!(
        eval("-fn(x) { x }").unwrap_err().to_string(),
        "unknown operator: -FUNCTION"
    );
    assert_eq!(
        eval("fn(x) { x } + 1").unwrap_err().to_string(),
        "type mismatch: FUNCTION + INTEGER"
    );
    assert_eq!(
        eval("if (false) { 1 } * 2").unwrap_err().to_string(),
        "type mismatch: NULL * INTEGER"
    );
    assert_eq!(
        eval("if (true) { return 1; } - 2").unwrap_err().to_string(),
        "type mismatch: RETURN - INTEGER"
    );
    assert_eq!(
        eval("let x = 5; x(1)"),
        Err(EvalError::NotCallable(ObjectKind::Integer))
    );
    assert_eq!(
        eval("let x = 5; x(1)").unwrap_err().to_string(),
        "not callable: INTEGER"
    );
    assert_eq!(EvalError::CallDepthExceeded.to_string(), "call depth exceeded");
    assert_eq!(
        EvalError::TypeMismatch(ObjectKind::Integer, Operator::Eq, ObjectKind::Null).to_string(),
        "type mismatch: INTEGER = NULL"
    );
    assert_eq!(
        EvalError::UnknownInfixOperator(
            ObjectKind::Function,
            Operator::NotEq,
            ObjectKind::Function
        )
        .to_string(),
        "unknown operator: FUNCTION != FUNCTION"
    );
}

#[test]
fn the_first_error_ends_the_evaluation_and_keeps_the_bindings() {
    let mut env = Environment::default();
    assert_eq!(
        eval_in("let a = 1; b; let c = 3;", &mut env),
        Err(EvalError::IdentifierNotFound("b".to_string()))
    );
    assert_eq!(env.get("a"), Some(&Object::Integer(1)));
    assert_eq!(env.get("c"), None);
}

#[test]
fn equality_of_values() {
    assert_eq!(eval("1 == true"), Ok(Object::Boolean(false)));
    assert_eq!(eval("1 != true"), Ok(Object::Boolean(true)));
    assert_eq!(eval("fn(x) { x } == fn(x) { x }"), Ok(Object::Boolean(true)));
    assert_eq!(eval("fn(x) { x } == fn(y) { y }"), Ok(Object::Boolean(false)));
    assert_eq!(eval("fn(x) { x } != fn(x) { x + 1 }"), Ok(Object::Boolean(true)));
    assert_eq!(
        eval("let f = fn(x) { x }; let a = 1; let g = fn(x) { x }; f == g"),
        Ok(Object::Boolean(false))
    );
    assert_eq!(
        eval("if (false) { 1 } == if (false) { 2 }"),
        Ok(Object::Boolean(true))
    );
}

#[test]
fn truthiness() {
    assert_eq!(eval("!0"), Ok(Object::Boolean(false)));
    assert_eq!(eval("!if (false) { 1 }"), Ok(Object::Boolean(true)));
    assert_eq!(eval("!fn(x) { x }"), Ok(Object::Boolean(false)));
    assert_eq!(eval("if (0) { 1 } else { 2 }"), Ok(Object::Integer(1)));
    assert_eq!(eval("if (fn(x) { x }) { 1 } else { 2 }"), Ok(Object::Integer(1)));
    assert!(Object::Integer(0).is_thruthy());
    assert!(!Object::Null.is_thruthy());
    assert!(!Object::ReturnValue(Box::new(Object::Boolean(false))).is_thruthy());
    assert!(Object::ReturnValue(Box::new(Object::Integer(0))).is_thruthy());
    assert_eq!(
        eval("!if (true) { return false; }"),
        Ok(Object::Boolean(true))
    );
}

#[test]
fn names_of_kinds() {
    assert_eq!(Object::Integer(1).type_val(), "INTEGER");
    assert_eq!(Object::Boolean(true).type_val(), "BOOLEAN");
    assert_eq!(Object::Null.type_val(), "NULL");
    assert_eq!(Object::ReturnValue(Box::new(Object::Null)).type_val(), "RETURN");
    let function = eval("fn(x) { x }").unwrap();
    assert_eq!(function.type_val(), "FUNCTION");
    assert_eq!(function.kind(), ObjectKind::Function);
}

#[test]
fn values_as_text() {
    assert_eq!(Object::Integer(-12).to_string(), "-12");
    assert_eq!(Object::Boolean(true).to_string(), "true");
    assert_eq!(Object::Boolean(false).to_string(), "false");
    assert_eq!(Object::Null.to_string(), "null");
    assert_eq!(
        Object::ReturnValue(Box::new(Object::Integer(3))).to_string(),
        "3"
    );
    assert_eq!(eval("fn(x, y) { x }").unwrap().to_string(), "fn(x, y)\n{\n}");
    assert_eq!(eval("fn() { 1 }").unwrap().to_string(), "fn()\n{\n}");
    assert_eq!(eval("fn(abc) { 1 }").unwrap().to_string(), "fn(abc)\n{\n}");
}

#[test]
fn printable_operators() {
    assert_eq!(Operator::Eq.symbol(), "=");
    assert_eq!(Operator::NotEq.symbol(), "!=");
    assert_eq!(Operator::Minus.symbol(), "-");
    assert_eq!(Operator::Plus.symbol(), "+");
    assert_eq!(Operator::Bang.symbol(), "!");
    assert_eq!(Operator::Asterisk.symbol(), "*");
    assert_eq!(Operator::Slash.symbol(), "/");
    assert_eq!(Operator::Lt.symbol(), "<");
    assert_eq!(Operator::Gt.symbol(), ">");
    assert_eq!(Operator::Lparen.symbol(), "(");
    assert_eq!(
        eval("(true == 1) < 2").unwrap_err().to_string(),
        "type mismatch: BOOLEAN < INTEGER"
    );
    assert_eq!(Operator::from_kind(TokenKind::Eq), Some(Operator::Eq));
    assert_eq!(Operator::from_kind(TokenKind::Assign), None);
    assert_eq!(Operator::from_kind(TokenKind::Lparen), Some(Operator::Lparen));
}

#[test]
fn scopes() {
    let mut outer = Environment::default();
    assert_eq!(outer.set("a".to_string(), Object::Integer(1)), None);
    assert_eq!(
        outer.set("a".to_string(), Object::Integer(2)),
        Some(Object::Integer(1))
    );
    assert_eq!(outer.set("b".to_string(), Object::Boolean(true)), None);
    assert_eq!(outer.get("a"), Some(&Object::Integer(2)));
    assert_eq!(outer.get("b"), Some(&Object::Boolean(true)));
    assert_eq!(outer.get("c"), None);

    let mut inner = Environment::new_with_outer(&outer);
    assert_eq!(inner.get("a"), Some(&Object::Integer(2)));
    assert_eq!(inner.set("a".to_string(), Object::Integer(3)), None);
    assert_eq!(inner.get("a"), Some(&Object::Integer(3)));
    assert_eq!(inner.get("b"), Some(&Object::Boolean(true)));
    assert_eq!(outer.get("a"), Some(&Object::Integer(2)));

    outer.set("d".to_string(), Object::Null);
    assert_eq!(inner.get("d"), None);
}

#[test]
fn environments_are_equal_as_mappings() {
    let mut first = Environment::default();
    first.set("a".to_string(), Object::Integer(1));
    first.set("b".to_string(), Object::Integer(2));
    let mut second = Environment::default();
    second.set("b".to_string(), Object::Integer(0));
    second.set("a".to_string(), Object::Integer(1));
    assert_ne!(first, second);
    second.set("b".to_string(), Object::Integer(2));
    assert_eq!(first, second);
    second.set("c".to_string(), Object::Integer(3));
    assert_ne!(first, second);
    assert_ne!(second, first);
    assert_eq!(first.clone(), first);
    assert_ne!(Environment::new_with_outer(&first), first);
    assert_eq!(
        Environment::new_with_outer(&first),
        Environment::new_with_outer(&first.clone())
    );
}

#[test]
fn a_closure_keeps_the_environment_of_its_definition() {
    assert_eq!(
        eval("let a = 1; let f = fn() { a }; let a = 2; f()"),
        Ok(Object::Integer(1))
    );
    assert_eq!(
        eval("let adder = fn(x) { fn(y) { x + y } }; let two = adder(2); two(3)"),
        Ok(Object::Integer(5))
    );
    assert_eq!(
        eval("let f = fn(x) { f(x) }; f(1)"),
        Err(EvalError::IdentifierNotFound("f".to_string()))
    );
    assert_eq!(
        eval("let x = 1; let f = fn() { let x = 2; x }; f() + x"),
        Ok(Object::Integer(3))
    );
}

#[test]
fn arguments_and_parameters_by_position() {
    assert_eq!(eval("fn(x, y) { x }(1)"), Ok(Object::Integer(1)));
    assert_eq!(
        eval("fn(x, y) { y }(1)"),
        Err(EvalError::IdentifierNotFound("y".to_string()))
    );
    assert_eq!(eval("fn(x) { x }(1, 2, 3)"), Ok(Object::Integer(1)));
    assert_eq!(
        eval("fn(x) { x }(1, nothing)"),
        Err(EvalError::IdentifierNotFound("nothing".to_string()))
    );
    assert_eq!(eval("fn(x, x) { x }(1, 2)"), Ok(Object::Integer(2)));
    assert_eq!(
        eval("fn(x) { 1 }(a, 1 / 0)"),
        Err(EvalError::IdentifierNotFound("a".to_string()))
    );
}

#[test]
fn a_return_stops_at_the_call() {
    assert_eq!(
        eval("let f = fn(x) { return x; 9 }; let y = f(5); y + 1"),
        Ok(Object::Integer(6))
    );
    assert_eq!(
        eval("let f = fn() { if (true) { return 1; } 2 }; f() + 10; 7"),
        Ok(Object::Integer(7))
    );
    assert_eq!(eval("let a = if (true) { return 3; }; 4"), Ok(Object::Integer(4)));
}

#[test]
fn a_let_has_the_value_null() {
    assert_eq!(eval("let a = 5"), Ok(Object::Null));
    assert_eq!(eval("if (true) { let a = 5; }; a"), Ok(Object::Integer(5)));
}

#[test]
fn calls_nest_to_a_bounded_depth() {
    let omega = "let w = fn(h) { h(h) }; w(w)";
    assert_eq!(eval(omega), Err(EvalError::CallDepthExceeded));
    let mut env = Environment::default();
    assert_eq!(
        Evaluator::eval_with_depth(parse("fn(x) { x }(1)"), &mut env, 0),
        Err(EvalError::CallDepthExceeded)
    );
    assert_eq!(
        Evaluator::eval_with_depth(parse("fn(x) { x }(1)"), &mut env, 1),
        Ok(Object::Integer(1))
    );
    assert_eq!(
        Evaluator::eval_with_depth(parse("fn(x) { fn(y) { y }(x) }(1)"), &mut env, 1),
        Err(EvalError::CallDepthExceeded)
    );
    assert_eq!(
        Evaluator::eval_with_depth(parse("fn(x) { fn(y) { y }(x) }(1)"), &mut env, 2),
        Ok(Object::Integer(1))
    );
    assert_eq!(MAX_CALL_DEPTH, 256);
    let count = "let count = fn(self, n) { if (n < 1) { 0 } else { 1 + self(self, n - 1) } };";
    assert_eq!(
        eval(&format!("{} count(count, 255)", count)),
        Ok(Object::Integer(255))
    );
    assert_eq!(
        eval(&format!("{} count(count, 256)", count)),
        Err(EvalError::CallDepthExceeded)
    );
}

#[test]
fn string_literals_parse_and_have_no_value() {
    let program = Program {
        statments: vec![statement(Expression::StringLiteral(StringLiteral {
            value: "hello".to_string(),
        }))],
        errors: vec![],
    };
    let mut env = Environment::default();
    let error = Evaluator::eval(program, &mut env).unwrap_err();
    assert_eq!(error, EvalError::StringNotEvaluable);
    assert_eq!(error.to_string(), "string literals have no value");
}

#[test]
fn operators_that_no_parser_puts_in_a_tree() {
    let program = Program {
        statments: vec![statement(Expression::Prefix(PrefixExpression {
            right: Box::new(integer(1)),
            operator: Operator::Plus,
        }))],
        errors: vec![],
    };
    let mut env = Environment::default();
    assert_eq!(Evaluator::eval(program, &mut env), Ok(Object::Null));
    let program = Program {
        statments: vec![statement(infix(integer(1), Operator::Bang, integer(2)))],
        errors: vec![],
    };
    assert_eq!(
        Evaluator::eval(program, &mut env).unwrap_err().to_string(),
        "unknown operator: INTEGER ! INTEGER"
    );
}

#[test]
fn a_program_with_parse_errors_can_still_be_evaluated() {
    let program = parse("let x = ; 5");
    assert_eq!(program.errors.len(), 1);
    let mut env = Environment::default();
    assert_eq!(Evaluator::eval(program, &mut env), Ok(Object::Integer(5)));
}

#[test]
fn a_session_keeps_its_bindings() {
    let mut env = Environment::default();
    match submit("let a = 5;", &mut env) {
        Reply::Value(text) => assert_eq!(text, "null"),
        other => panic!("unexpected reply {:?}", other),
    }
    match submit("a * 2", &mut env) {
        Reply::Value(text) => assert_eq!(text, "10"),
        other => panic!("unexpected reply {:?}", other),
    }
    match submit("let b = ; let c 1", &mut env) {
        Reply::ParseErrors(lines) => assert_eq!(
            lines,
            vec![
                format!("Error {}", ParseError::NoPrefixRule.message()),
                format!("Error {}", ParseError::ExpectedAssign.message()),
            ]
        ),
        other => panic!("unexpected reply {:?}", other),
    }
    match submit("let d = 1; @", &mut env) {
        Reply::ParseErrors(lines) => assert_eq!(lines.len(), 1),
        other => panic!("unexpected reply {:?}", other),
    }
    assert_eq!(env.get("d"), None);
    match submit("nothing", &mut env) {
        Reply::Failure(error) => assert_eq!(error.to_string(), "identifier not found: nothing"),
        other => panic!("unexpected reply {:?}", other),
    }
    match submit("", &mut env) {
        Reply::Failure(error) => assert_eq!(error, EvalError::EmptyStatements),
        other => panic!("unexpected reply {:?}", other),
    }
    assert_eq!(env.get("a"), Some(&Object::Integer(5)));
}

#[test]
fn copies_are_equal_to_what_they_copy() {
    let program = parse("let f = fn(x, y) { if (x < y) { return x; } else { f(y, -x) } }; !f");
    assert_eq!(program.clone(), program);
    for stmt in &program.statments {
        assert_eq!(stmt.clone(), *stmt);
    }
    let function = eval("let a = 1; fn(x) { x + a }").unwrap();
    assert_eq!(function.clone(), function);
    match &function {
        Object::Function(FunctionObj { arguments, body, env }) => {
            assert_eq!(arguments.len(), 1);
            assert_eq!(body.statements.len(), 1);
            assert_eq!(env.get("a"), Some(&Object::Integer(1)));
        }
        _ => panic!("not a function"),
    }
    assert_eq!(Program::new(), Program::default());
    assert_eq!(Program::new().statments.len(), 0);
}

#[test]
fn nodes_of_every_kind_evaluate() {
    let mut env = Environment::default();
    let expression = infix(integer(6), Operator::Asterisk, integer(7));
    assert_eq!(
        Evaluator::eval_node(&Node::Expression(expression.clone()), &mut env, 8),
        Ok(Object::Integer(42))
    );
    assert_eq!(
        Evaluator::eval_exp(&expression, &mut env, 8),
        Ok(Object::Integer(42))
    );
    let returned = Statement::Return(ReturnStatement {
        value: integer(1),
    });
    assert_eq!(
        Evaluator::eval_node(&Node::Statement(returned.clone()), &mut env, 8),
        Ok(Object::ReturnValue(Box::new(Object::Integer(1))))
    );
    assert_eq!(
        Evaluator::eval_statment(&returned, &mut env, 8),
        Ok(Object::ReturnValue(Box::new(Object::Integer(1))))
    );
    let block = BlockStatement {
        statements: vec![returned.clone(), statement(integer(2))],
    };
    assert_eq!(
        Evaluator::eval_block_statments(&block, &mut env, 8),
        Ok(Object::ReturnValue(Box::new(Object::Integer(1))))
    );
    assert_eq!(
        Evaluator::eval_node(&Node::Statement(Statement::Block(block.clone())), &mut env, 8),
        Ok(Object::ReturnValue(Box::new(Object::Integer(1))))
    );
    let program = Program {
        statments: vec![Statement::Block(block)],
        errors: vec![],
    };
    assert_eq!(
        Evaluator::eval_program(&program, &mut env, 8),
        Ok(Object::Integer(1))
    );
    assert_eq!(
        Evaluator::eval_node(&Node::Program(program), &mut env, 8),
        Ok(Object::Integer(1))
    );
    let condition = Expression::If(IfExpression {
        condition: Box::new(Expression::BooleanLiteral(BooleanLiteral { value: false })),
        consequence: BlockStatement {
            statements: vec![statement(integer(1))],
        },
        alternative: Some(BlockStatement { statements: vec![] }),
    });
    assert_eq!(
        Evaluator::eval_exp(&condition, &mut env, 8),
        Err(EvalError::EmptyStatements)
    );
    assert_eq!(env, Environment::default());
}

#[test]
fn operators_on_values() {
    assert_eq!(
        Evaluator::eval_integer_infix(Operator::Minus, 5, 7),
        Ok(Object::Integer(-2))
    );
    assert_eq!(
        Evaluator::eval_integer_infix(Operator::Slash, 5, 0),
        Err(EvalError::DivisionByZero)
    );
    assert_eq!(
        Evaluator::eval_integer_infix(Operator::Lparen, 5, 7)
            .unwrap_err()
            .to_string(),
        "unknown operator: INTEGER ( INTEGER"
    );
    assert_eq!(
        Evaluator::eval_infix(Operator::Eq, &Object::Null, &Object::Null),
        Ok(Object::Boolean(true))
    );
    assert_eq!(
        Evaluator::eval_infix(Operator::NotEq, &Object::Null, &Object::Integer(0)),
        Ok(Object::Boolean(true))
    );
    assert_eq!(
        Evaluator::eval_infix(Operator::Gt, &Object::Null, &Object::Null)
            .unwrap_err()
            .to_string(),
        "unknown operator: NULL > NULL"
    );
    assert_eq!(
        Evaluator::eval_prefix(Operator::Bang, &Object::Null),
        Ok(Object::Boolean(true))
    );
    assert_eq!(
        Evaluator::eval_prefix(Operator::Minus, &Object::Integer(4)),
        Ok(Object::Integer(-4))
    );
    assert_eq!(
        Evaluator::eval_prefix(Operator::Minus, &Object::Null)
            .unwrap_err()
            .to_string(),
        "unknown operator: -NULL"
    );
}

#[test]
fn a_minus_sign_is_a_token_of_its_own() {
    assert_eq!(kinds("-5"), vec![TokenKind::Minus, TokenKind::Int]);
    assert_eq!(texts("-5"), vec!["-", "5"]);
    assert_eq!(
        parse("-5").statments,
        vec![statement(Expression::Prefix(PrefixExpression {
            right: Box::new(integer(5)),
            operator: Operator::Minus
        }))]
    );
    assert_eq!(eval("5 - -5"), Ok(Object::Integer(10)));
    assert_eq!(eval("--5"), Ok(Object::Integer(5)));
}
