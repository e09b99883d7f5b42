//! The values that evaluation produces and consumes.

use vstd::prelude::*;
use vstd::std_specs::cmp::PartialEqSpecImpl;
use vstd::string::*;

use crate::ast::{
    copy_identifiers, names_of, same_identifiers, BlockStatement, Identifier, StmtModel,
};
use crate::environment::{EnvModel, Environment};
use crate::text::{decimal, render_integer};

verus! {

/// The five kinds of value, each with a stable name used in diagnostics.
#[derive(Debug, PartialEq, Eq, Clone, Copy, Structural)]
pub enum ObjectKind {
    Integer,
    Boolean,
    Return,
    Function,
    Null,
}

impl ObjectKind {
    /// The name of the kind as error messages print it.
    pub open spec fn name_spec(self) -> Seq<char> {
        match self {
            ObjectKind::Integer => "INTEGER"@,
            ObjectKind::Boolean => "BOOLEAN"@,
            ObjectKind::Return => "RETURN"@,
            ObjectKind::Function => "FUNCTION"@,
            ObjectKind::Null => "NULL"@,
        }
    }

    /// The name of the kind as error messages print it.
    pub fn name(&self) -> (res: &'static str)
        ensures
            res@ == self.name_spec(),
    {
        match self {
            ObjectKind::Integer => "INTEGER",
            ObjectKind::Boolean => "BOOLEAN",
            ObjectKind::Return => "RETURN",
            ObjectKind::Function => "FUNCTION",
            ObjectKind::Null => "NULL",
        }
    }
}

/// The mathematical value of a runtime value. A function carries the names
/// of its parameters, its body and the environment it captured.
#[allow(inconsistent_fields)]
pub enum ObjectModel {
    Integer { value: i64 },
    Boolean { value: bool },
    ReturnValue { inner: Box<ObjectModel> },
    Function { parameters: Seq<Seq<char>>, body: Seq<StmtModel>, env: EnvModel },
    Null,
}

/// The first `n` names of a list, separated by a comma and a space.
pub open spec fn joined(names: Seq<Seq<char>>, n: nat) -> Seq<char>
    decreases n,
{
    if n == 0 || n > names.len() {
        Seq::empty()
    } else if n == 1 {
        names[0]
    } else {
        joined(names, (n - 1) as nat) + ", "@ + names[n - 1]
    }
}

impl ObjectModel {
    /// The text that stands for a value when it is shown: an integer in
    /// base ten, a boolean as `true` or `false`, null as `null`, a return
    /// signal as the value it wraps, and a function as `fn`, its parameters
    /// in parentheses, and an empty pair of braces on lines of their own.
    pub open spec fn text(self) -> Seq<char>
        decreases self,
    {
        match self {
            ObjectModel::Integer { value } => decimal(value as int),
            ObjectModel::Boolean { value } => if value {
                "true"@
            } else {
                "false"@
            },
            ObjectModel::Null => "null"@,
            ObjectModel::ReturnValue { inner } => inner.text(),
            ObjectModel::Function { parameters, .. } => "fn("@ + joined(parameters, parameters.len())
                + ")\n{\n}"@,
        }
    }

    /// The kind of the value.
    pub open spec fn kind(self) -> ObjectKind {
        match self {
            ObjectModel::Integer { .. } => ObjectKind::Integer,
            ObjectModel::Boolean { .. } => ObjectKind::Boolean,
            ObjectModel::ReturnValue { .. } => ObjectKind::Return,
            ObjectModel::Function { .. } => ObjectKind::Function,
            ObjectModel::Null => ObjectKind::Null,
        }
    }

    /// The rule that maps any value to a boolean: integers and functions
    /// are true, null is false, a boolean is itself, and a return signal is
    /// as true as the value it wraps.
    pub open spec fn is_truthy(self) -> bool
        decreases self,
    {
        match self {
            ObjectModel::Integer { .. } => true,
            ObjectModel::Boolean { value } => value,
            ObjectModel::Null => false,
            ObjectModel::ReturnValue { inner } => inner.is_truthy(),
            ObjectModel::Function { .. } => true,
        }
    }

    /// The value with one return signal taken off, if it is one.
    pub open spec fn unwrapped(self) -> ObjectModel {
        match self {
            ObjectModel::ReturnValue { inner } => *inner,
            other => other,
        }
    }
}

/// A runtime value.
#[derive(Debug)]
pub enum Object {
    Integer(i64),
    Boolean(bool),
    ReturnValue(Box<Object>),
    Function(FunctionObj),
    Null,
}

/// A function value: parameters, body and the environment captured where
/// the function literal was evaluated.
#[derive(Debug)]
pub struct FunctionObj {
    pub arguments: Vec<Identifier>,
    pub body: BlockStatement,
    pub env: Environment,
}

impl Object {
    /// The mathematical value of the value.
    pub open spec fn model(&self) -> ObjectModel
        decreases self, 0nat,
    {
        match self {
            Object::Integer(i) => ObjectModel::Integer { value: *i },
            Object::Boolean(b) => ObjectModel::Boolean { value: *b },
            Object::ReturnValue(inner) => ObjectModel::ReturnValue { inner: Box::new(inner.model()) },
            Object::Function(f) => ObjectModel::Function {
                parameters: names_of(f.arguments@),
                body: f.body.model(),
                env: f.env.model(),
            },
            Object::Null => ObjectModel::Null,
        }
    }

    /// Whether the value counts as true in a condition.
    pub fn is_thruthy(&self) -> (res: bool)
        ensures
            res == self@.is_truthy(),
        decreases self,
    {
        match self {
            Object::Integer(_) => true,
            Object::Boolean(b) => *b,
            Object::Null => false,
            Object::ReturnValue(inner) => inner.is_thruthy(),
            Object::Function(_) => true,
        }
    }

    /// The text that stands for the value when it is shown.
    pub fn to_string(&self) -> (res: String)
        ensures
            res@ == self@.text(),
        decreases self,
    {
        match self {
            Object::Integer(value) => render_integer(*value),
            Object::Boolean(value) => {
                if *value {
                    String::from_str("true")
                } else {
                    String::from_str("false")
                }
            },
            Object::Null => String::from_str("null"),
            Object::ReturnValue(inner) => inner.to_string(),
            Object::Function(function) => {
                let mut text = String::from_str("fn(");
                let ghost names = names_of(function.arguments@);
                let mut i: usize = 0;
                while i < function.arguments.len()
                    invariant
                        i <= function.arguments.len(),
                        names == names_of(function.arguments@),
                        text@ == "fn("@ + joined(names, i as nat),
                    decreases function.arguments.len() - i,
                {
                    if i > 0 {
                        text.append(", ");
                    }
                    text.append(function.arguments[i].value.as_str());
                    proof {
                        let next = joined(names, (i + 1) as nat);
                        if i == 0 {
                            assert("fn("@ + Seq::<char>::empty() + names[0] =~= "fn("@ + next);
                        } else {
                            assert("fn("@ + joined(names, i as nat) + ", "@ + names[i as int]
                                =~= "fn("@ + next);
                        }
                    }
                    i += 1;
                }
                text.append(")\n{\n}");
                text
            },
        }
    }

    /// The kind of the value.
    pub fn kind(&self) -> (res: ObjectKind)
        ensures
            res == self@.kind(),
    {
        match self {
            Object::Integer(_) => ObjectKind::Integer,
            Object::Boolean(_) => ObjectKind::Boolean,
            Object::ReturnValue(_) => ObjectKind::Return,
            Object::Function(_) => ObjectKind::Function,
            Object::Null => ObjectKind::Null,
        }
    }

    /// The name of the value's kind, as error messages print it.
    pub fn type_val(&self) -> (res: &'static str)
        ensures
            res@ == self@.kind().name_spec(),
    {
        self.kind().name()
    }
}

/// The values of a list of objects, in order.
pub open spec fn objects_of(objects: Seq<Object>) -> Seq<ObjectModel> {
    Seq::new(objects.len(), |i: int| objects[i].model())
}

impl View for Object {
    type V = ObjectModel;

    open spec fn view(&self) -> ObjectModel {
        self.model()
    }
}

/// Copies a value with everything it holds.
pub(crate) fn clone_object(object: &Object) -> (res: Object)
    ensures
        res.model() == object.model(),
    decreases object,
{
    match object {
        Object::Integer(i) => Object::Integer(*i),
        Object::Boolean(b) => Object::Boolean(*b),
        Object::ReturnValue(inner) => Object::ReturnValue(Box::new(clone_object(&**inner))),
        Object::Function(f) => Object::Function(
            FunctionObj {
                arguments: copy_identifiers(&f.arguments),
                body: f.body.clone(),
                env: crate::environment::clone_environment(&f.env),
            },
        ),
        Object::Null => Object::Null,
    }
}

/// Whether two values are equal: of one kind, and equal in what they
/// hold. Functions are equal where parameters, body and captured
/// environment are.
pub(crate) fn object_eq(a: &Object, b: &Object) -> (res: bool)
    ensures
        res == (a.model() == b.model()),
    decreases a,
{
    match (a, b) {
        (Object::Integer(x), Object::Integer(y)) => *x == *y,
        (Object::Boolean(x), Object::Boolean(y)) => *x == *y,
        (Object::ReturnValue(x), Object::ReturnValue(y)) => object_eq(&**x, &**y),
        (Object::Function(f), Object::Function(g)) => {
            same_identifiers(&f.arguments, &g.arguments) && f.body == g.body
                && crate::environment::environment_eq(&f.env, &g.env)
        },
        (Object::Null, Object::Null) => true,
        _ => false,
    }
}

impl Clone for Object {
    fn clone(&self) -> (res: Self)
        ensures
            res@ == self@,
    {
        clone_object(self)
    }
}

impl PartialEq for Object {
    fn eq(&self, other: &Self) -> (res: bool) {
        object_eq(self, other)
    }
}

impl Eq for Object {}

impl PartialEqSpecImpl for Object {
    open spec fn obeys_eq_spec() -> bool {
        true
    }

    open spec fn eq_spec(&self, other: &Self) -> bool {
        self@ == other@
    }
}

impl Clone for FunctionObj {
    fn clone(&self) -> (res: Self)
        ensures
            Object::Function(res)@ == Object::Function(*self)@,
    {
        FunctionObj {
            arguments: copy_identifiers(&self.arguments),
            body: self.body.clone(),
            env: self.env.clone(),
        }
    }
}

impl PartialEq for FunctionObj {
    fn eq(&self, other: &Self) -> (res: bool) {
        same_identifiers(&self.arguments, &other.arguments) && self.body == other.body && self.env
            == other.env
    }
}

impl Eq for FunctionObj {}

impl PartialEqSpecImpl for FunctionObj {
    open spec fn obeys_eq_spec() -> bool {
        true
    }

    open spec fn eq_spec(&self, other: &Self) -> bool {
        Object::Function(*self)@ == Object::Function(*other)@
    }
}

} // verus!
