//! The failures that end an evaluation.

use vstd::prelude::*;
use vstd::string::*;

use crate::ast::Operator;
use crate::object::ObjectKind;

verus! {

/// The mathematical value of an evaluation error.
pub enum EvalErrorModel {
    IdentifierNotFound { name: Seq<char> },
    TypeMismatch { left: ObjectKind, operator: Operator, right: ObjectKind },
    UnknownInfixOperator { left: ObjectKind, operator: Operator, right: ObjectKind },
    UnknownPrefixOperator { operator: Operator, operand: ObjectKind },
    EmptyStatements,
    NotCallable { callee: ObjectKind },
    DivisionByZero,
    CallDepthExceeded,
    StringNotEvaluable,
}

impl EvalErrorModel {
    /// The text of the error.
    pub open spec fn message(self) -> Seq<char> {
        match self {
            EvalErrorModel::IdentifierNotFound { name } => "identifier not found: "@ + name,
            EvalErrorModel::TypeMismatch { left, operator, right } => "type mismatch: "@
                + left.name_spec() + " "@ + operator.symbol_spec() + " "@ + right.name_spec(),
            EvalErrorModel::UnknownInfixOperator { left, operator, right } => "unknown operator: "@
                + left.name_spec() + " "@ + operator.symbol_spec() + " "@ + right.name_spec(),
            EvalErrorModel::UnknownPrefixOperator { operator, operand } => "unknown operator: "@
                + operator.symbol_spec() + operand.name_spec(),
            EvalErrorModel::EmptyStatements => "empty statements"@,
            EvalErrorModel::NotCallable { callee } => "not callable: "@ + callee.name_spec(),
            EvalErrorModel::DivisionByZero => "division by zero"@,
            EvalErrorModel::CallDepthExceeded => "call depth exceeded"@,
            EvalErrorModel::StringNotEvaluable => "string literals have no value"@,
        }
    }
}

/// A failure that ends an evaluation.
#[derive(Debug, Clone, PartialEq, Eq)]
pub enum EvalError {
    /// A name resolved to nothing in the whole chain of scopes.
    IdentifierNotFound(String),
    /// A binary operator met operands of two different kinds.
    TypeMismatch(ObjectKind, Operator, ObjectKind),
    /// A binary operator met operands of one kind that it is not defined on.
    UnknownInfixOperator(ObjectKind, Operator, ObjectKind),
    /// A unary operator met an operand that it is not defined on.
    UnknownPrefixOperator(Operator, ObjectKind),
    /// A program or a block held no statement.
    EmptyStatements,
    /// The target of a call was not a function.
    NotCallable(ObjectKind),
    /// An integer was divided by zero.
    DivisionByZero,
    /// Calls were nested deeper than the evaluation allows.
    CallDepthExceeded,
    /// A string literal was evaluated; the language has no string values.
    StringNotEvaluable,
}

impl View for EvalError {
    type V = EvalErrorModel;

    open spec fn view(&self) -> EvalErrorModel {
        match self {
            EvalError::IdentifierNotFound(name) => EvalErrorModel::IdentifierNotFound { name: name@ },
            EvalError::TypeMismatch(left, operator, right) => EvalErrorModel::TypeMismatch {
                left: *left,
                operator: *operator,
                right: *right,
            },
            EvalError::UnknownInfixOperator(left, operator, right) => {
                EvalErrorModel::UnknownInfixOperator {
                    left: *left,
                    operator: *operator,
                    right: *right,
                }
            },
            EvalError::UnknownPrefixOperator(operator, operand) => {
                EvalErrorModel::UnknownPrefixOperator { operator: *operator, operand: *operand }
            },
            EvalError::EmptyStatements => EvalErrorModel::EmptyStatements,
            EvalError::NotCallable(callee) => EvalErrorModel::NotCallable { callee: *callee },
            EvalError::DivisionByZero => EvalErrorModel::DivisionByZero,
            EvalError::CallDepthExceeded => EvalErrorModel::CallDepthExceeded,
            EvalError::StringNotEvaluable => EvalErrorModel::StringNotEvaluable,
        }
    }
}

fn join_infix(head: &str, left: ObjectKind, operator: Operator, right: ObjectKind) -> (res: String)
    ensures
        res@ == head@ + left.name_spec() + " "@ + operator.symbol_spec() + " "@ + right.name_spec(),
{
    let mut text = String::from_str(head);
    text.append(left.name());
    text.append(" ");
    text.append(operator.symbol());
    text.append(" ");
    text.append(right.name());
    text
}

impl EvalError {
    /// The text of the error.
    pub fn message(&self) -> (res: String)
        ensures
            res@ == self@.message(),
    {
        match self {
            EvalError::IdentifierNotFound(name) => {
                let mut text = String::from_str("identifier not found: ");
                text.append(name.as_str());
                text
            },
            EvalError::TypeMismatch(left, operator, right) => join_infix(
                "type mismatch: ",
                *left,
                *operator,
                *right,
            ),
            EvalError::UnknownInfixOperator(left, operator, right) => join_infix(
                "unknown operator: ",
                *left,
                *operator,
                *right,
            ),
            EvalError::UnknownPrefixOperator(operator, operand) => {
                let mut text = String::from_str("unknown operator: ");
                text.append(operator.symbol());
                text.append(operand.name());
                text
            },
            EvalError::EmptyStatements => String::from_str("empty statements"),
            EvalError::NotCallable(callee) => {
                let mut text = String::from_str("not callable: ");
                text.append(callee.name());
                text
            },
            EvalError::DivisionByZero => String::from_str("division by zero"),
            EvalError::CallDepthExceeded => String::from_str("call depth exceeded"),
            EvalError::StringNotEvaluable => String::from_str("string literals have no value"),
        }
    }

    /// The text of the error.
    pub fn to_string(&self) -> (res: String)
        ensures
            res@ == self@.message(),
    {
        self.message()
    }
}

} // verus!
