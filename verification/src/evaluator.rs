//! The evaluator: a recursive walk over the tree against an environment.

use vstd::prelude::*;

use crate::ast::{
    copy_identifiers, expressions_of, lemma_block_model, lemma_call_model, names_of,
    statements_of, BlockStatement, CallableExpression, Expression, Identifier, Node, NodeModel,
    Operator, Program, Statement,
};
use crate::environment::{EnvModel, Environment};
use crate::error::{EvalError, EvalErrorModel};
use crate::object::{objects_of, FunctionObj, Object, ObjectKind, ObjectModel};
use crate::semantics::{
    bind_parameters, eval_arguments, eval_block, eval_callable, eval_expression, eval_program,
    eval_sequence, eval_statement, infix, integer_infix, prefix, truncated_quotient,
    wrapping_quotient, Outcome,
};

verus! {

/// How deep calls may nest in an evaluation started by [`Evaluator::eval`].
pub const MAX_CALL_DEPTH: usize = 256;

/// Whether an executable result stands for a mathematical one.
pub open spec fn stands_for(
    res: Result<Object, EvalError>,
    model: Result<ObjectModel, EvalErrorModel>,
) -> bool {
    match res {
        Ok(object) => model == Ok::<ObjectModel, EvalErrorModel>(object@),
        Err(error) => model == Err::<ObjectModel, EvalErrorModel>(error@),
    }
}

/// The evaluation of a node of any kind.
pub open spec fn eval_node_spec(node: NodeModel, env: EnvModel, depth: nat) -> Outcome {
    match node {
        NodeModel::Program { program } => eval_program(program, env, depth),
        NodeModel::Statement { statement } => eval_statement(statement, env, depth),
        NodeModel::Expression { expression } => eval_expression(expression, env, depth),
    }
}

/// The evaluator. It holds no state: the environment is handed to every
/// evaluation.
pub struct Evaluator {}

/// A quotient is no larger in size than what was divided, and smaller
/// where the divisor is not 1 or -1.
proof fn lemma_quotient_bounds(x: int, d: int)
    requires
        d != 0,
    ensures
        x >= 0 ==> -x <= truncated_quotient(x, d) <= x,
        x < 0 ==> x <= truncated_quotient(x, d) <= -x,
        x < 0 && d != -1 ==> truncated_quotient(x, d) < -x,
        d == -1 ==> truncated_quotient(x, d) == -x,
{
    let a = if x >= 0 { x } else { -x };
    let b = if d > 0 { d } else { -d };
    assert(0 <= a / b <= a) by (nonlinear_arith)
        requires
            a >= 0,
            b > 0,
    ;
    if b == 1 {
        assert(a / b == a) by (nonlinear_arith)
            requires
                b == 1,
        ;
    }
    if b >= 2 && a > 0 {
        assert(a / b < a) by (nonlinear_arith)
            requires
                a > 0,
                b >= 2,
        ;
    }
}

/// Divides, rounding toward zero, and wraps where the quotient does not
/// fit.
fn divide(left: i64, right: i64) -> (res: i64)
    requires
        right != 0,
    ensures
        res == wrapping_quotient(left, right),
{
    proof {
        lemma_quotient_bounds(left as int, right as int);
    }
    match left.checked_div(right) {
        Some(quotient) => quotient,
        None => i64::MIN,
    }
}

impl Evaluator {
    /// Applies a binary operator to two integers.
    pub fn eval_integer_infix(operator: Operator, left: i64, right: i64) -> (res: Result<
        Object,
        EvalError,
    >)
        ensures
            stands_for(res, integer_infix(operator, left, right)),
    {
        match operator {
            Operator::Minus => Ok(Object::Integer(left.wrapping_sub(right))),
            Operator::Plus => Ok(Object::Integer(left.wrapping_add(right))),
            Operator::Asterisk => Ok(Object::Integer(left.wrapping_mul(right))),
            Operator::Slash => {
                if right == 0 {
                    Err(EvalError::DivisionByZero)
                } else {
                    Ok(Object::Integer(divide(left, right)))
                }
            },
            Operator::Eq => Ok(Object::Boolean(left == right)),
            Operator::NotEq => Ok(Object::Boolean(left != right)),
            Operator::Lt => Ok(Object::Boolean(left < right)),
            Operator::Gt => Ok(Object::Boolean(left > right)),
            _ => Err(
                EvalError::UnknownInfixOperator(ObjectKind::Integer, operator, ObjectKind::Integer),
            ),
        }
    }

    /// Applies a binary operator to two values.
    pub fn eval_infix(operator: Operator, left: &Object, right: &Object) -> (res: Result<
        Object,
        EvalError,
    >)
        ensures
            stands_for(res, infix(operator, left@, right@)),
    {
        match (left, right) {
            (Object::Integer(l), Object::Integer(r)) => Self::eval_integer_infix(operator, *l, *r),
            _ => match operator {
                Operator::Eq => Ok(Object::Boolean(left == right)),
                Operator::NotEq => Ok(Object::Boolean(!(left == right))),
                _ => {
                    if left.kind() == right.kind() {
                        Err(EvalError::UnknownInfixOperator(left.kind(), operator, right.kind()))
                    } else {
                        Err(EvalError::TypeMismatch(left.kind(), operator, right.kind()))
                    }
                },
            },
        }
    }

    /// Applies a unary operator to a value.
    pub fn eval_prefix(operator: Operator, operand: &Object) -> (res: Result<Object, EvalError>)
        ensures
            stands_for(res, prefix(operator, operand@)),
    {
        match operator {
            Operator::Bang => Ok(Object::Boolean(!operand.is_thruthy())),
            Operator::Minus => match operand {
                Object::Integer(value) => {
                    let zero: i64 = 0;
                    Ok(Object::Integer(zero.wrapping_sub(*value)))
                },
                _ => Err(EvalError::UnknownPrefixOperator(operator, operand.kind())),
            },
            _ => Ok(Object::Null),
        }
    }

    /// Evaluates a name or a function literal. The environment is read, not
    /// written; a function literal takes a copy of it.
    pub fn eval_callable_exp(exp: &CallableExpression, env: &Environment) -> (res: Result<
        Object,
        EvalError,
    >)
        ensures
            stands_for(res, eval_callable(exp@, env@)),
    {
        match exp {
            CallableExpression::Identifier(ident) => match env.get(ident.value.as_str()) {
                Some(object) => Ok(object.clone()),
                None => Err(EvalError::IdentifierNotFound(ident.value.clone())),
            },
            CallableExpression::FunctionLiteral(func) => Ok(
                Object::Function(
                    FunctionObj {
                        arguments: copy_identifiers(&func.parameters),
                        body: func.body.clone(),
                        env: env.clone(),
                    },
                ),
            ),
        }
    }

    /// Binds parameters to arguments by position in a fresh frame. A
    /// parameter without an argument stays unbound; an argument without a
    /// parameter is dropped.
    pub fn bind_arguments(frame: &mut Environment, parameters: &Vec<Identifier>, arguments: &Vec<Object>)
        ensures
            final(frame)@ == bind_parameters(
                old(frame)@,
                names_of(parameters@),
                objects_of(arguments@),
                parameters@.len(),
            ),
    {
        let ghost names = names_of(parameters@);
        let ghost values = objects_of(arguments@);
        let mut i: usize = 0;
        while i < parameters.len()
            invariant
                i <= parameters.len(),
                names == names_of(parameters@),
                values == objects_of(arguments@),
                frame@ == bind_parameters(old(frame)@, names, values, i as nat),
            decreases parameters.len() - i,
        {
            if i < arguments.len() {
                frame.set(parameters[i].value.clone(), arguments[i].clone());
            }
            i += 1;
        }
    }

    /// Evaluates the arguments of a call from left to right in the caller's
    /// environment and stops at the first error.
    pub fn eval_call_arguments(arguments: &Vec<Expression>, env: &mut Environment, depth: usize) -> (res:
        Result<Vec<Object>, EvalError>)
        ensures
            ({
                let outcome = eval_arguments(
                    expressions_of(arguments@),
                    0,
                    Seq::empty(),
                    old(env)@,
                    depth as nat,
                );
                &&& final(env)@ == outcome.env
                &&& match res {
                    Ok(objects) => outcome.result == Ok::<Seq<ObjectModel>, EvalErrorModel>(
                        objects_of(objects@),
                    ),
                    Err(error) => outcome.result == Err::<Seq<ObjectModel>, EvalErrorModel>(error@),
                }
            }),
        decreases depth, arguments,
    {
        let ghost models = expressions_of(arguments@);
        let ghost goal = eval_arguments(models, 0, Seq::empty(), old(env)@, depth as nat);
        let mut objects: Vec<Object> = Vec::new();
        assert(objects_of(objects@) =~= Seq::empty());
        let mut i: usize = 0;
        while i < arguments.len()
            invariant
                i <= arguments.len(),
                models == expressions_of(arguments@),
                goal == eval_arguments(models, 0, Seq::empty(), old(env)@, depth as nat),
                goal == eval_arguments(
                    models,
                    i as nat,
                    objects_of(objects@),
                    env@,
                    depth as nat,
                ),
            decreases arguments.len() - i,
        {
            let ghost done = objects_of(objects@);
            match Self::eval_exp(&arguments[i], env, depth) {
                Ok(object) => {
                    objects.push(object);
                    assert(objects_of(objects@) =~= done.push(object@));
                },
                Err(error) => {
                    return Err(error);
                },
            }
            i += 1;
        }
        Ok(objects)
    }

    /// Evaluates an expression.
    pub fn eval_exp(exp: &Expression, env: &mut Environment, depth: usize) -> (res: Result<
        Object,
        EvalError,
    >)
        ensures
            final(env)@ == eval_expression(exp@, old(env)@, depth as nat).env,
            stands_for(res, eval_expression(exp@, old(env)@, depth as nat).result),
        decreases depth, exp,
    {
        match exp {
            Expression::Callable(callable) => Self::eval_callable_exp(callable, env),
            Expression::IntegerLiteral(literal) => Ok(Object::Integer(literal.value)),
            Expression::BooleanLiteral(literal) => Ok(Object::Boolean(literal.value)),
            Expression::StringLiteral(_) => Err(EvalError::StringNotEvaluable),
            Expression::Prefix(prefix_exp) => {
                match Self::eval_exp(&*prefix_exp.right, env, depth) {
                    Ok(right) => Self::eval_prefix(prefix_exp.operator, &right),
                    Err(error) => Err(error),
                }
            },
            Expression::Infix(infix_exp) => {
                match Self::eval_exp(&*infix_exp.left, env, depth) {
                    Ok(left) => match Self::eval_exp(&*infix_exp.right, env, depth) {
                        Ok(right) => Self::eval_infix(infix_exp.operator, &left, &right),
                        Err(error) => Err(error),
                    },
                    Err(error) => Err(error),
                }
            },
            Expression::If(if_exp) => {
                match Self::eval_exp(&*if_exp.condition, env, depth) {
                    Ok(condition) => {
                        if condition.is_thruthy() {
                            Self::eval_block_statments(&if_exp.consequence, env, depth)
                        } else {
                            match &if_exp.alternative {
                                Some(alternative) => Self::eval_block_statments(
                                    alternative,
                                    env,
                                    depth,
                                ),
                                None => Ok(Object::Null),
                            }
                        }
                    },
                    Err(error) => Err(error),
                }
            },
            Expression::Call(call) => {
                proof {
                    lemma_call_model(call);
                }
                match Self::eval_callable_exp(&call.func, env) {
                    Ok(Object::Function(func)) => {
                        match Self::eval_call_arguments(&call.arguments, env, depth) {
                            Ok(arguments) => {
                                if depth == 0 {
                                    Err(EvalError::CallDepthExceeded)
                                } else {
                                    let mut frame = Environment::new_with_outer(&func.env);
                                    Self::bind_arguments(&mut frame, &func.arguments, &arguments);
                                    match Self::eval_block_statments(
                                        &func.body,
                                        &mut frame,
                                        depth - 1,
                                    ) {
                                        Ok(Object::ReturnValue(inner)) => Ok(*inner),
                                        Ok(object) => Ok(object),
                                        Err(error) => Err(error),
                                    }
                                }
                            },
                            Err(error) => Err(error),
                        }
                    },
                    Ok(other) => Err(EvalError::NotCallable(other.kind())),
                    Err(error) => Err(error),
                }
            },
        }
    }

    /// Evaluates a statement.
    pub fn eval_statment(stmt: &Statement, env: &mut Environment, depth: usize) -> (res: Result<
        Object,
        EvalError,
    >)
        ensures
            final(env)@ == eval_statement(stmt@, old(env)@, depth as nat).env,
            stands_for(res, eval_statement(stmt@, old(env)@, depth as nat).result),
        decreases depth, stmt,
    {
        match stmt {
            Statement::Expression(exp) => Self::eval_exp(&exp.expression, env, depth),
            Statement::Return(r) => match Self::eval_exp(&r.value, env, depth) {
                Ok(value) => Ok(Object::ReturnValue(Box::new(value))),
                Err(error) => Err(error),
            },
            Statement::Block(block) => Self::eval_block_statments(block, env, depth),
            Statement::Let(l) => match Self::eval_exp(&l.value, env, depth) {
                Ok(value) => {
                    env.set(l.name.value.clone(), value);
                    Ok(Object::Null)
                },
                Err(error) => Err(error),
            },
        }
    }

    /// Evaluates the statements of a list in order and stops at the first
    /// error or return signal. An empty list is an error.
    pub fn eval_statements(statements: &Vec<Statement>, env: &mut Environment, depth: usize) -> (res:
        Result<Object, EvalError>)
        ensures
            final(env)@ == eval_block(statements_of(statements@), old(env)@, depth as nat).env,
            stands_for(res, eval_block(statements_of(statements@), old(env)@, depth as nat).result),
        decreases depth, statements,
    {
        let ghost models = statements_of(statements@);
        let ghost goal = eval_block(models, old(env)@, depth as nat);
        if statements.len() == 0 {
            return Err(EvalError::EmptyStatements);
        }
        let mut i: usize = 0;
        loop
            invariant
                i < statements.len(),
                models == statements_of(statements@),
                goal == eval_block(models, old(env)@, depth as nat),
                goal == eval_sequence(models, i as nat, env@, depth as nat),
            decreases statements.len() - i,
        {
            match Self::eval_statment(&statements[i], env, depth) {
                Ok(object) => {
                    let stop = match &object {
                        Object::ReturnValue(_) => true,
                        _ => false,
                    };
                    if stop || i + 1 >= statements.len() {
                        return Ok(object);
                    }
                },
                Err(error) => {
                    return Err(error);
                },
            }
            i += 1;
        }
    }

    /// Evaluates a program: its statements in order, with the return signal
    /// taken off the result.
    pub fn eval_program(program: &Program, env: &mut Environment, depth: usize) -> (res: Result<
        Object,
        EvalError,
    >)
        ensures
            final(env)@ == eval_program(program@, old(env)@, depth as nat).env,
            stands_for(res, eval_program(program@, old(env)@, depth as nat).result),
    {
        match Self::eval_statements(&program.statments, env, depth) {
            Ok(Object::ReturnValue(inner)) => Ok(*inner),
            Ok(object) => Ok(object),
            Err(error) => Err(error),
        }
    }

    /// Evaluates a block: its statements in order. A return signal leaves
    /// the block as it is, so that it reaches the call or the program around
    /// it.
    pub fn eval_block_statments(block: &BlockStatement, env: &mut Environment, depth: usize) -> (res:
        Result<Object, EvalError>)
        ensures
            final(env)@ == eval_block(block@, old(env)@, depth as nat).env,
            stands_for(res, eval_block(block@, old(env)@, depth as nat).result),
        decreases depth, block,
    {
        proof {
            lemma_block_model(block);
        }
        Self::eval_statements(&block.statements, env, depth)
    }

    /// Evaluates a node of any kind.
    pub fn eval_node(node: &Node, env: &mut Environment, depth: usize) -> (res: Result<
        Object,
        EvalError,
    >)
        ensures
            final(env)@ == eval_node_spec(node@, old(env)@, depth as nat).env,
            stands_for(res, eval_node_spec(node@, old(env)@, depth as nat).result),
    {
        match node {
            Node::Program(program) => Self::eval_program(program, env, depth),
            Node::Expression(exp) => Self::eval_exp(exp, env, depth),
            Node::Statement(stmt) => Self::eval_statment(stmt, env, depth),
        }
    }

    /// Evaluates a program with calls nested at most `depth` deep.
    pub fn eval_with_depth(program: Program, env: &mut Environment, depth: usize) -> (res: Result<
        Object,
        EvalError,
    >)
        ensures
            final(env)@ == eval_program(program@, old(env)@, depth as nat).env,
            stands_for(res, eval_program(program@, old(env)@, depth as nat).result),
    {
        Self::eval_node(&Node::Program(program), env, depth)
    }

    /// Evaluates a program against an environment, with calls nested at most
    /// [`MAX_CALL_DEPTH`] deep. The environment keeps every binding that was
    /// made, also when the evaluation fails.
    pub fn eval(program: Program, env: &mut Environment) -> (res: Result<Object, EvalError>)
        ensures
            final(env)@ == eval_program(program@, old(env)@, MAX_CALL_DEPTH as nat).env,
            stands_for(res, eval_program(program@, old(env)@, MAX_CALL_DEPTH as nat).result),
    {
        Self::eval_with_depth(program, env, MAX_CALL_DEPTH)
    }
}

} // verus!
