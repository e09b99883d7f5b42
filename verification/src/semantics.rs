//! What evaluation means: a function from a tree, an environment and a bound
//! on the depth of calls to a result and the environment left behind.
//!
//! Evaluation goes from left to right and stops at the first error. A
//! function value holds a copy of the environment in which its literal was
//! evaluated: a binding made later is not seen by the function. A call
//! evaluates the body in a fresh scope inside that copy, so that a call
//! never changes the bindings of its caller. Programs of this language need
//! not end, which is why every evaluation has a bound on how deep calls may
//! nest; a call beyond the bound is an error.

use vstd::prelude::*;
use vstd::wrapping::i64_specs;

use crate::ast::{CallableModel, ExprModel, Operator, ProgramModel, StmtModel};
use crate::environment::EnvModel;
use crate::error::EvalErrorModel;
use crate::object::{ObjectKind, ObjectModel};

verus! {

/// What an evaluation leaves behind: a value or an error, and the
/// environment with every binding made up to that point.
pub struct Outcome {
    pub result: Result<ObjectModel, EvalErrorModel>,
    pub env: EnvModel,
}

/// What the evaluation of a list of arguments leaves behind.
pub struct ArgumentsOutcome {
    pub result: Result<Seq<ObjectModel>, EvalErrorModel>,
    pub env: EnvModel,
}

/// The quotient of two integers, rounded toward zero.
pub open spec fn truncated_quotient(x: int, d: int) -> int
    recommends
        d != 0,
{
    if x >= 0 && d > 0 {
        x / d
    } else if x < 0 && d < 0 {
        (-x) / (-d)
    } else if x < 0 {
        -((-x) / d)
    } else {
        -(x / (-d))
    }
}

/// Division of 64-bit integers: rounded toward zero, and wrapping in the one
/// case where the quotient does not fit.
pub open spec fn wrapping_quotient(x: i64, d: i64) -> i64
    recommends
        d != 0,
{
    if x == i64::MIN && d == -1 {
        i64::MIN
    } else {
        truncated_quotient(x as int, d as int) as i64
    }
}

/// The value of a binary operator on two integers. Arithmetic wraps at 64
/// bits, division rounds toward zero, and division by zero is an error.
pub open spec fn integer_infix(operator: Operator, left: i64, right: i64) -> Result<
    ObjectModel,
    EvalErrorModel,
> {
    match operator {
        Operator::Minus => Ok(ObjectModel::Integer { value: i64_specs::wrapping_sub(left, right) }),
        Operator::Plus => Ok(ObjectModel::Integer { value: i64_specs::wrapping_add(left, right) }),
        Operator::Asterisk => Ok(
            ObjectModel::Integer { value: i64_specs::wrapping_mul(left, right) },
        ),
        Operator::Slash => if right == 0 {
            Err(EvalErrorModel::DivisionByZero)
        } else {
            Ok(ObjectModel::Integer { value: wrapping_quotient(left, right) })
        },
        Operator::Eq => Ok(ObjectModel::Boolean { value: left == right }),
        Operator::NotEq => Ok(ObjectModel::Boolean { value: left != right }),
        Operator::Lt => Ok(ObjectModel::Boolean { value: left < right }),
        Operator::Gt => Ok(ObjectModel::Boolean { value: left > right }),
        _ => Err(
            EvalErrorModel::UnknownInfixOperator {
                left: ObjectKind::Integer,
                operator,
                right: ObjectKind::Integer,
            },
        ),
    }
}

/// The value of a binary operator on two values. On two integers every
/// arithmetic and comparison operator is defined; on anything else only
/// equality and inequality are, as equality of the values themselves.
pub open spec fn infix(operator: Operator, left: ObjectModel, right: ObjectModel) -> Result<
    ObjectModel,
    EvalErrorModel,
> {
    match (left, right) {
        (ObjectModel::Integer { value: l }, ObjectModel::Integer { value: r }) => integer_infix(
            operator,
            l,
            r,
        ),
        _ => match operator {
            Operator::Eq => Ok(ObjectModel::Boolean { value: left == right }),
            Operator::NotEq => Ok(ObjectModel::Boolean { value: left != right }),
            _ => if left.kind() == right.kind() {
                Err(
                    EvalErrorModel::UnknownInfixOperator {
                        left: left.kind(),
                        operator,
                        right: right.kind(),
                    },
                )
            } else {
                Err(
                    EvalErrorModel::TypeMismatch {
                        left: left.kind(),
                        operator,
                        right: right.kind(),
                    },
                )
            },
        },
    }
}

/// The value of a unary operator: `!` negates the truthiness of any value,
/// `-` negates an integer and fails on anything else. No other operator
/// stands before an operand in a parsed tree; such a node has the value
/// null.
pub open spec fn prefix(operator: Operator, operand: ObjectModel) -> Result<
    ObjectModel,
    EvalErrorModel,
> {
    match operator {
        Operator::Bang => Ok(ObjectModel::Boolean { value: !operand.is_truthy() }),
        Operator::Minus => match operand {
            ObjectModel::Integer { value } => Ok(
                ObjectModel::Integer { value: i64_specs::wrapping_sub(0, value) },
            ),
            _ => Err(EvalErrorModel::UnknownPrefixOperator { operator, operand: operand.kind() }),
        },
        _ => Ok(ObjectModel::Null),
    }
}

/// The value of a name or of a function literal. A function literal
/// captures the environment as it is at that moment, by value.
pub open spec fn eval_callable(callable: CallableModel, env: EnvModel) -> Result<
    ObjectModel,
    EvalErrorModel,
> {
    match callable {
        CallableModel::Identifier { name } => match env.lookup(name) {
            Some(value) => Ok(value),
            None => Err(EvalErrorModel::IdentifierNotFound { name }),
        },
        CallableModel::FunctionLiteral { parameters, body } => Ok(
            ObjectModel::Function { parameters, body, env },
        ),
    }
}

/// The frame of a call after the first `n` parameters were bound, by
/// position, to the arguments that exist.
pub open spec fn bind_parameters(
    frame: EnvModel,
    parameters: Seq<Seq<char>>,
    arguments: Seq<ObjectModel>,
    n: nat,
) -> EnvModel
    decreases n,
{
    if n == 0 || n > parameters.len() {
        frame
    } else {
        let before = bind_parameters(frame, parameters, arguments, (n - 1) as nat);
        if n - 1 < arguments.len() {
            before.bind(parameters[n - 1], arguments[n - 1])
        } else {
            before
        }
    }
}

/// The result with one return signal taken off a value.
pub open spec fn unwrapped(result: Result<ObjectModel, EvalErrorModel>) -> Result<
    ObjectModel,
    EvalErrorModel,
> {
    match result {
        Ok(value) => Ok(value.unwrapped()),
        Err(error) => Err(error),
    }
}

/// The evaluation of an expression.
pub open spec fn eval_expression(expression: ExprModel, env: EnvModel, depth: nat) -> Outcome
    decreases depth, expression, 0nat,
{
    match expression {
        ExprModel::Callable { callable } => Outcome { result: eval_callable(callable, env), env },
        ExprModel::IntegerLiteral { value } => Outcome {
            result: Ok(ObjectModel::Integer { value }),
            env,
        },
        ExprModel::BooleanLiteral { value } => Outcome {
            result: Ok(ObjectModel::Boolean { value }),
            env,
        },
        ExprModel::StringLiteral { value } => Outcome {
            result: Err(EvalErrorModel::StringNotEvaluable),
            env,
        },
        ExprModel::Prefix { operator, right } => {
            let operand = eval_expression(*right, env, depth);
            match operand.result {
                Err(_) => operand,
                Ok(value) => Outcome { result: prefix(operator, value), env: operand.env },
            }
        },
        ExprModel::Infix { left, operator, right } => {
            let first = eval_expression(*left, env, depth);
            match first.result {
                Err(_) => first,
                Ok(left_value) => {
                    let second = eval_expression(*right, first.env, depth);
                    match second.result {
                        Err(_) => second,
                        Ok(right_value) => Outcome {
                            result: infix(operator, left_value, right_value),
                            env: second.env,
                        },
                    }
                },
            }
        },
        ExprModel::If { condition, consequence, alternative } => {
            let test = eval_expression(*condition, env, depth);
            match test.result {
                Err(_) => test,
                Ok(value) => if value.is_truthy() {
                    eval_block(consequence, test.env, depth)
                } else {
                    match alternative {
                        Some(statements) => eval_block(statements, test.env, depth),
                        None => Outcome { result: Ok(ObjectModel::Null), env: test.env },
                    }
                },
            }
        },
        ExprModel::Call { func, arguments } => match eval_callable(func, env) {
            Err(error) => Outcome { result: Err(error), env },
            Ok(callee) => match callee {
                ObjectModel::Function { parameters, body, env: captured } => {
                    let values = eval_arguments(arguments, 0, Seq::empty(), env, depth);
                    match values.result {
                        Err(error) => Outcome { result: Err(error), env: values.env },
                        Ok(objects) => if depth == 0 {
                            Outcome {
                                result: Err(EvalErrorModel::CallDepthExceeded),
                                env: values.env,
                            }
                        } else {
                            let frame = bind_parameters(
                                EnvModel::child_of(captured),
                                parameters,
                                objects,
                                parameters.len(),
                            );
                            Outcome {
                                result: unwrapped(
                                    eval_block(body, frame, (depth - 1) as nat).result,
                                ),
                                env: values.env,
                            }
                        },
                    }
                },
                _ => Outcome {
                    result: Err(EvalErrorModel::NotCallable { callee: callee.kind() }),
                    env,
                },
            },
        },
    }
}

/// The evaluation of the arguments of a call from the `from`-th on, in the
/// caller's environment and from left to right; `done` holds the values of
/// those before. The first error ends it.
pub open spec fn eval_arguments(
    arguments: Seq<ExprModel>,
    from: nat,
    done: Seq<ObjectModel>,
    env: EnvModel,
    depth: nat,
) -> ArgumentsOutcome
    decreases depth, arguments, arguments.len() - from,
{
    if from >= arguments.len() {
        ArgumentsOutcome { result: Ok(done), env }
    } else {
        let first = eval_expression(arguments[from as int], env, depth);
        match first.result {
            Err(error) => ArgumentsOutcome { result: Err(error), env: first.env },
            Ok(value) => eval_arguments(arguments, from + 1, done.push(value), first.env, depth),
        }
    }
}

/// The evaluation of a statement. A `let` binds in the current scope and has
/// the value null; a `return` wraps its value in a return signal.
pub open spec fn eval_statement(statement: StmtModel, env: EnvModel, depth: nat) -> Outcome
    decreases depth, statement, 0nat,
{
    match statement {
        StmtModel::Let { name, value } => {
            let bound = eval_expression(value, env, depth);
            match bound.result {
                Err(_) => bound,
                Ok(object) => Outcome {
                    result: Ok(ObjectModel::Null),
                    env: bound.env.bind(name, object),
                },
            }
        },
        StmtModel::Return { value } => {
            let returned = eval_expression(value, env, depth);
            match returned.result {
                Err(_) => returned,
                Ok(object) => Outcome {
                    result: Ok(ObjectModel::ReturnValue { inner: Box::new(object) }),
                    env: returned.env,
                },
            }
        },
        StmtModel::Expression { expression } => eval_expression(expression, env, depth),
        StmtModel::Block { statements } => eval_block(statements, env, depth),
    }
}

/// The evaluation of the statements of a list from the `from`-th on: in
/// order, keeping the last value, and stopping at the first error or return
/// signal.
pub open spec fn eval_sequence(statements: Seq<StmtModel>, from: nat, env: EnvModel, depth: nat) -> Outcome
    recommends
        from < statements.len(),
    decreases depth, statements, statements.len() - from,
{
    if from >= statements.len() {
        Outcome { result: Err(EvalErrorModel::EmptyStatements), env }
    } else {
        let first = eval_statement(statements[from as int], env, depth);
        match first.result {
            Err(_) => first,
            Ok(value) => if value is ReturnValue || from + 1 >= statements.len() {
                first
            } else {
                eval_sequence(statements, from + 1, first.env, depth)
            },
        }
    }
}

/// The evaluation of a block. An empty block is an error; a return signal
/// leaves the block as it is.
pub open spec fn eval_block(statements: Seq<StmtModel>, env: EnvModel, depth: nat) -> Outcome
    decreases depth, statements, statements.len() + 1,
{
    eval_sequence(statements, 0, env, depth)
}

/// The evaluation of a program: that of its statements as a block, with the
/// return signal taken off the result.
pub open spec fn eval_program(program: ProgramModel, env: EnvModel, depth: nat) -> Outcome {
    let outcome = eval_block(program.statements, env, depth);
    Outcome { result: unwrapped(outcome.result), env: outcome.env }
}

} // verus!
