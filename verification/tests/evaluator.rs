use thorsten_interpreter::environment::Environment;
use thorsten_interpreter::error::EvalError;
use thorsten_interpreter::evaluator::Evaluator;
use thorsten_interpreter::lexer::Lexer;
use thorsten_interpreter::object::Object;
use thorsten_interpreter::parser::Parser;

struct ObjectTest<'a> {
    pub input: &'a str,
    pub expected: Object,
}

struct ErrorTest<'a> {
    pub input: &'a str,
    pub expected: &'a str,
}

fn test_eval(input: &str) -> Result<Object, EvalError> {
    let l = Lexer::new(input);
    let p = Parser::new(l);
    let program = p.parse_program();
    let mut test_env = Environment::default();

    Evaluator::eval(program, &mut test_env)
}

fn check_objects(tests: Vec<ObjectTest>) {
    for test in tests {
        let obj = test_eval(test.input).unwrap();
        assert_eq!(
            obj, test.expected,
            "object doesnt match expected: {:?}, {:?}",
            obj, test.expected
        );
    }
}

fn check_errors(tests: Vec<ErrorTest>) {
    for test in tests {
        let obj = test_eval(test.input).unwrap_err();
        assert_eq!(
            obj.to_string(),
            test.expected,
            "object doesnt match expected: {:?}, {:?}",
            obj.to_string(),
            test.expected
        );
    }
}

#[test]
fn test_eval_integer_expression() {
    let tests = vec![
        ObjectTest {
            input: "5",
            expected: Object::Integer(5),
        },
        ObjectTest {
            input: "10",
            expected: Object::Integer(10),
        },
        ObjectTest {
            input: "-5",
            expected: Object::Integer(-5),
        },
        ObjectTest {
            input: "-10",
            expected: Object::Integer(-10),
        },
        ObjectTest {
            input: "5 + 5 + 5 + 5 - 10",
            expected: Object::Integer(10),
        },
        ObjectTest {
            input: "2 * 2 * 2 * 2 * 2",
            expected: Object::Integer(32),
        },
        ObjectTest {
            input: "5 + 2 * 10",
            expected: Object::Integer(25),
        },
        ObjectTest {
            input: "50 / 2 * 2 + 10",
            expected: Object::Integer(60),
        },
        ObjectTest {
            input: "(5 + 10 * 2 + 15 / 3) * 2 + -10",
            expected: Object::Integer(50),
        },
    ];
    check_objects(tests);
}

#[test]
fn test_eval_bool_expression() {
    let tests = vec![
        ObjectTest {
            input: "true",
            expected: Object::Boolean(true),
        },
        ObjectTest {
            input: "false",
            expected: Object::Boolean(false),
        },
        ObjectTest {
            input: "5 > 3",
            expected: Object::Boolean(true),
        },
        ObjectTest {
            input: "5 < 3",
            expected: Object::Boolean(false),
        },
        ObjectTest {
            input: "1 == 1",
            expected: Object::Boolean(true),
        },
        ObjectTest {
            input: "1 != 1",
            expected: Object::Boolean(false),
        },
        ObjectTest {
            input: "true != true",
            expected: Object::Boolean(false),
        },
        ObjectTest {
            input: "true == true",
            expected: Object::Boolean(true),
        },
        ObjectTest {
            input: "false != false",
            expected: Object::Boolean(false),
        },
        ObjectTest {
            input: "false == false",
            expected: Object::Boolean(true),
        },
    ];
    check_objects(tests);
}

#[test]
fn test_eval_bang_operator() {
    let tests = vec![
        ObjectTest {
            input: "!true",
            expected: Object::Boolean(false),
        },
        ObjectTest {
            input: "!false",
            expected: Object::Boolean(true),
        },
        ObjectTest {
            input: "!5",
            expected: Object::Boolean(false),
        },
        ObjectTest {
            input: "!!false",
            expected: Object::Boolean(false),
        },
        ObjectTest {
            input: "!!false",
            expected: Object::Boolean(false),
        },
        ObjectTest {
            input: "!!5",
            expected: Object::Boolean(true),
        },
    ];
    check_objects(tests);
}

#[test]
fn test_eval_if_else_expressions() {
    let tests = vec![
        ObjectTest {
            input: "if (true) { 10 }",
            expected: Object::Integer(10),
        },
        ObjectTest {
            input: "if (false) { 10 }",
            expected: Object::Null,
        },
        ObjectTest {
            input: "if (1) { 10 }",
            expected: Object::Integer(10),
        },
        ObjectTest {
            input: "if (1 < 2) { 10 }",
            expected: Object::Integer(10),
        },
        ObjectTest {
            input: "if (1 > 2) { 10 } else { 20 }",
            expected: Object::Integer(20),
        },
        ObjectTest {
            input: "if (1 < 2) { 10 } else { 20 }",
            expected: Object::Integer(10),
        },
    ];
    check_objects(tests);
}

#[test]
fn test_return_statments() {
    let tests = vec![
        ObjectTest {
            input: "return 10;",
            expected: Object::Integer(10),
        },
        ObjectTest {
            input: "return 10; 9;",
            expected: Object::Integer(10),
        },
        ObjectTest {
            input: "return 2 * 5; 9;",
            expected: Object::Integer(10),
        },
        ObjectTest {
            input: "9; return 2 * 5; 6;",
            expected: Object::Integer(10),
        },
        ObjectTest {
            input: "if (10 > 1) { if (10 > 1) {return 10;} return 1;}",
            expected: Object::Integer(10),
        },
    ];
    check_objects(tests);
}

#[test]
fn test_errors() {
    let tests = vec![
        ErrorTest {
            input: "5 + true;",
            expected: "type mismatch: INTEGER + BOOLEAN",
        },
        ErrorTest {
            input: "5 + true; 5;",
            expected: "type mismatch: INTEGER + BOOLEAN",
        },
        ErrorTest {
            input: "-true;",
            expected: "unknown operator: -BOOLEAN",
        },
        ErrorTest {
            input: "true + true;",
            expected: "unknown operator: BOOLEAN + BOOLEAN",
        },
        ErrorTest {
            input: "true + true; 5;",
            expected: "unknown operator: BOOLEAN + BOOLEAN",
        },
        ErrorTest {
            input: "if (10 > 1) { if (10 > 1) {return true + false;} return 1;}",
            expected: "unknown operator: BOOLEAN + BOOLEAN",
        },
        ErrorTest {
            input: "if (10 > 1) { return true + false;}",
            expected: "unknown operator: BOOLEAN + BOOLEAN",
        },
    ];
    check_errors(tests);
}

#[test]
fn test_let_statments() {
    let tests = vec![
        ObjectTest {
            input: "let a = 5; a;",
            expected: Object::Integer(5),
        },
        ObjectTest {
            input: "let a = 5 * 5; a;",
            expected: Object::Integer(25),
        },
        ObjectTest {
            input: "return 2 * 5; 9;",
            expected: Object::Integer(10),
        },
        ObjectTest {
            input: "let a = 5; let b = a; b;",
            expected: Object::Integer(5),
        },
        ObjectTest {
            input: "let a = 5; let b = a; let c = a + b + 5; c;",
            expected: Object::Integer(15),
        },
    ];
    check_objects(tests);
}

#[test]
fn test_let_errors() {
    let tests = vec![ErrorTest {
        input: "foobar",
        expected: "identifier not found: foobar",
    }];
    check_errors(tests);
}

#[test]
fn test_fn_call_statments() {
    let tests = vec![
        ObjectTest {
            input: "let identity = fn(x) { x; }; identity(5);",
            expected: Object::Integer(5),
        },
        ObjectTest {
            input: "let identity = fn(x) { return x; }; identity(5);",
            expected: Object::Integer(5),
        },
        ObjectTest {
            input: "let double = fn(x) { x * 2; }; double(5);",
            expected: Object::Integer(10),
        },
        ObjectTest {
            input: "let add = fn(x, y) { x + y; }; add(5, 5);",
            expected: Object::Integer(10),
        },
        ObjectTest {
            input: "let add = fn(x, y) { x + y; }; add(5, add(5,5));",
            expected: Object::Integer(15),
        },
        ObjectTest {
            input: "fn(x) { x; }(5);",
            expected: Object::Integer(5),
        },
    ];
    check_objects(tests);
}
