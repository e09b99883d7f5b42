//! The tree that parsing produces, and the mathematical trees that the
//! contracts of the parser and the evaluator speak of.

use vstd::prelude::*;
use vstd::std_specs::cmp::PartialEqSpecImpl;

use crate::token::TokenKind;

verus! {

/// The operators of the language. `Lparen` drives the precedence of call
/// expressions while parsing and never appears in a finished tree.
#[derive(Debug, PartialEq, Eq, Clone, Copy, Structural)]
pub enum Operator {
    Minus,
    Plus,
    Bang,
    Asterisk,
    Slash,
    Eq,
    NotEq,
    Lt,
    Gt,
    Lparen,
}

impl Operator {
    /// The printable form of the operator. Equality prints as a single `=`.
    pub open spec fn symbol_spec(self) -> Seq<char> {
        match self {
            Operator::Minus => "-"@,
            Operator::Plus => "+"@,
            Operator::Bang => "!"@,
            Operator::Asterisk => "*"@,
            Operator::Slash => "/"@,
            Operator::Eq => "="@,
            Operator::NotEq => "!="@,
            Operator::Lt => "<"@,
            Operator::Gt => ">"@,
            Operator::Lparen => "("@,
        }
    }

    /// The operator that a token of the given kind denotes, if any.
    pub open spec fn of_kind(kind: TokenKind) -> Option<Operator> {
        match kind {
            TokenKind::Plus => Some(Operator::Plus),
            TokenKind::Minus => Some(Operator::Minus),
            TokenKind::Bang => Some(Operator::Bang),
            TokenKind::Asterisk => Some(Operator::Asterisk),
            TokenKind::Slash => Some(Operator::Slash),
            TokenKind::Lt => Some(Operator::Lt),
            TokenKind::Gt => Some(Operator::Gt),
            TokenKind::Eq => Some(Operator::Eq),
            TokenKind::NotEq => Some(Operator::NotEq),
            TokenKind::Lparen => Some(Operator::Lparen),
            _ => None,
        }
    }

    /// The printable form of the operator, as error messages show it.
    pub fn symbol(&self) -> (res: &'static str)
        ensures
            res@ == self.symbol_spec(),
    {
        match self {
            Operator::Minus => "-",
            Operator::Plus => "+",
            Operator::Bang => "!",
            Operator::Asterisk => "*",
            Operator::Slash => "/",
            Operator::Eq => "=",
            Operator::NotEq => "!=",
            Operator::Lt => "<",
            Operator::Gt => ">",
            Operator::Lparen => "(",
        }
    }

    /// Converts a token kind into the operator it denotes; `None` for a kind
    /// that denotes no operator.
    pub fn from_kind(kind: TokenKind) -> (res: Option<Operator>)
        ensures
            res == Operator::of_kind(kind),
    {
        match kind {
            TokenKind::Plus => Some(Operator::Plus),
            TokenKind::Minus => Some(Operator::Minus),
            TokenKind::Bang => Some(Operator::Bang),
            TokenKind::Asterisk => Some(Operator::Asterisk),
            TokenKind::Slash => Some(Operator::Slash),
            TokenKind::Lt => Some(Operator::Lt),
            TokenKind::Gt => Some(Operator::Gt),
            TokenKind::Eq => Some(Operator::Eq),
            TokenKind::NotEq => Some(Operator::NotEq),
            TokenKind::Lparen => Some(Operator::Lparen),
            _ => None,
        }
    }
}

/// The mathematical value of a statement.
pub enum StmtModel {
    Let { name: Seq<char>, value: ExprModel },
    Return { value: ExprModel },
    Expression { expression: ExprModel },
    Block { statements: Seq<StmtModel> },
}

/// The mathematical value of something that can be called: a name or a
/// function literal.
pub enum CallableModel {
    Identifier { name: Seq<char> },
    FunctionLiteral { parameters: Seq<Seq<char>>, body: Seq<StmtModel> },
}

/// The mathematical value of an expression.
#[allow(inconsistent_fields)]
pub enum ExprModel {
    Callable { callable: CallableModel },
    IntegerLiteral { value: i64 },
    BooleanLiteral { value: bool },
    StringLiteral { value: Seq<char> },
    Prefix { operator: Operator, right: Box<ExprModel> },
    Infix { left: Box<ExprModel>, operator: Operator, right: Box<ExprModel> },
    If { condition: Box<ExprModel>, consequence: Seq<StmtModel>, alternative: Option<Seq<StmtModel>> },
    Call { func: CallableModel, arguments: Seq<ExprModel> },
}

/// The mathematical value of a parsed program: its statements in order and
/// the messages of the parse errors in order.
pub struct ProgramModel {
    pub statements: Seq<StmtModel>,
    pub errors: Seq<Seq<char>>,
}

/// The mathematical value of a node.
pub enum NodeModel {
    Program { program: ProgramModel },
    Statement { statement: StmtModel },
    Expression { expression: ExprModel },
}

/// The root of a parsed submission.
#[derive(Debug, Clone, PartialEq, Eq)]
pub struct Program {
    pub statments: Vec<Statement>,
    pub errors: Vec<String>,
}

/// A statement.
#[derive(Debug)]
pub enum Statement {
    Let(LetStatement),
    Return(ReturnStatement),
    Expression(ExpressionStatement),
    Block(BlockStatement),
}

/// An expression.
#[derive(Debug)]
pub enum Expression {
    Callable(CallableExpression),
    IntegerLiteral(IntegerLiteral),
    BooleanLiteral(BooleanLiteral),
    StringLiteral(StringLiteral),
    Prefix(PrefixExpression),
    Infix(InfixExpression),
    If(IfExpression),
    Call(CallExpression),
}

/// What can stand before the argument list of a call: a name or a function
/// literal.
#[derive(Debug, Clone, PartialEq, Eq)]
pub enum CallableExpression {
    Identifier(Identifier),
    FunctionLiteral(FunctionLiteral),
}

/// A call: what is called, and the arguments in order.
#[derive(Debug, Clone, PartialEq, Eq)]
pub struct CallExpression {
    pub func: CallableExpression,
    pub arguments: Vec<Expression>,
}

/// `let`: the name that is bound and the expression whose value it gets.
#[derive(Debug, Clone, PartialEq, Eq)]
pub struct LetStatement {
    pub name: Identifier,
    pub value: Expression,
}

/// `return`: the expression whose value is returned.
#[derive(Debug, Clone, PartialEq, Eq)]
pub struct ReturnStatement {
    pub value: Expression,
}

/// An expression that stands as a statement.
#[derive(Debug, Clone, PartialEq, Eq)]
pub struct ExpressionStatement {
    pub expression: Expression,
}

/// A block: statements in order.
#[derive(Debug)]
pub struct BlockStatement {
    pub statements: Vec<Statement>,
}

/// A name.
#[derive(Debug)]
pub struct Identifier {
    pub value: String,
}

/// An integer literal.
#[derive(Debug, Clone, Copy, PartialEq, Eq, Structural)]
pub struct IntegerLiteral {
    pub value: i64,
}

/// `true` or `false`.
#[derive(Debug, Clone, Copy, PartialEq, Eq, Structural)]
pub struct BooleanLiteral {
    pub value: bool,
}

/// A string literal.
#[derive(Debug, Clone, PartialEq, Eq)]
pub struct StringLiteral {
    pub value: String,
}

/// A function literal: the names of the parameters in order, and the body.
#[derive(Debug, Clone, PartialEq, Eq)]
pub struct FunctionLiteral {
    pub body: BlockStatement,
    pub parameters: Vec<Identifier>,
}

/// A unary operator before its operand. A parser puts only `!` and `-`
/// here.
#[derive(Debug, Clone, PartialEq, Eq)]
pub struct PrefixExpression {
    pub right: Box<Expression>,
    pub operator: Operator,
}

/// A binary operator between its operands.
#[derive(Debug, Clone, PartialEq, Eq)]
pub struct InfixExpression {
    pub left: Box<Expression>,
    pub right: Box<Expression>,
    pub operator: Operator,
}

/// `if`: the condition, the block for a true condition, and the block
/// behind `else` where there is one.
#[derive(Debug, Clone, PartialEq, Eq)]
pub struct IfExpression {
    pub condition: Box<Expression>,
    pub consequence: BlockStatement,
    pub alternative: Option<BlockStatement>,
}

/// Any node of the tree.
#[derive(Debug, Clone, PartialEq, Eq)]
pub enum Node {
    Program(Program),
    Statement(Statement),
    Expression(Expression),
}

/// The names that a list of identifiers holds, in order.
pub open spec fn names_of(identifiers: Seq<Identifier>) -> Seq<Seq<char>> {
    Seq::new(identifiers.len(), |i: int| identifiers[i].value@)
}

/// The values of a list of statements, in order.
pub open spec fn statements_of(statements: Seq<Statement>) -> Seq<StmtModel> {
    Seq::new(statements.len(), |i: int| statements[i].model())
}

/// The values of a list of expressions, in order.
pub open spec fn expressions_of(expressions: Seq<Expression>) -> Seq<ExprModel> {
    Seq::new(expressions.len(), |i: int| expressions[i].model())
}

/// The messages that a list of strings holds, in order.
pub open spec fn texts_of(strings: Seq<String>) -> Seq<Seq<char>> {
    Seq::new(strings.len(), |i: int| strings[i]@)
}

impl Statement {
    /// The mathematical value of the statement.
    pub open spec fn model(&self) -> StmtModel
        decreases self,
    {
        match self {
            Statement::Let(l) => StmtModel::Let { name: l.name.value@, value: l.value.model() },
            Statement::Return(r) => StmtModel::Return { value: r.value.model() },
            Statement::Expression(e) => StmtModel::Expression { expression: e.expression.model() },
            Statement::Block(b) => StmtModel::Block { statements: b.model() },
        }
    }
}

impl BlockStatement {
    /// The mathematical value of the block: the values of its statements in
    /// order.
    pub open spec fn model(&self) -> Seq<StmtModel>
        decreases self,
    {
        Seq::new(
            self.statements@.len(),
            |i: int|
                if 0 <= i < self.statements@.len() {
                    self.statements@[i].model()
                } else {
                    arbitrary()
                },
        )
    }
}

impl CallableExpression {
    /// The mathematical value of the name or function literal.
    pub open spec fn model(&self) -> CallableModel
        decreases self,
    {
        match self {
            CallableExpression::Identifier(i) => CallableModel::Identifier { name: i.value@ },
            CallableExpression::FunctionLiteral(f) => CallableModel::FunctionLiteral {
                parameters: names_of(f.parameters@),
                body: f.body.model(),
            },
        }
    }
}

impl Expression {
    /// The mathematical value of the expression.
    pub open spec fn model(&self) -> ExprModel
        decreases self,
    {
        match self {
            Expression::Callable(c) => ExprModel::Callable { callable: c.model() },
            Expression::IntegerLiteral(i) => ExprModel::IntegerLiteral { value: i.value },
            Expression::BooleanLiteral(b) => ExprModel::BooleanLiteral { value: b.value },
            Expression::StringLiteral(s) => ExprModel::StringLiteral { value: s.value@ },
            Expression::Prefix(p) => ExprModel::Prefix {
                operator: p.operator,
                right: Box::new(p.right.model()),
            },
            Expression::Infix(i) => ExprModel::Infix {
                left: Box::new(i.left.model()),
                operator: i.operator,
                right: Box::new(i.right.model()),
            },
            Expression::If(i) => ExprModel::If {
                condition: Box::new(i.condition.model()),
                consequence: i.consequence.model(),
                alternative: match i.alternative {
                    Some(b) => Some(b.model()),
                    None => None,
                },
            },
            Expression::Call(c) => ExprModel::Call {
                func: c.func.model(),
                arguments: Seq::new(
                    c.arguments@.len(),
                    |i: int|
                        if 0 <= i < c.arguments@.len() {
                            c.arguments@[i].model()
                        } else {
                            arbitrary()
                        },
                ),
            },
        }
    }
}

impl View for Identifier {
    type V = Seq<char>;

    open spec fn view(&self) -> Seq<char> {
        self.value@
    }
}

impl View for Statement {
    type V = StmtModel;

    open spec fn view(&self) -> StmtModel {
        self.model()
    }
}

impl View for BlockStatement {
    type V = Seq<StmtModel>;

    open spec fn view(&self) -> Seq<StmtModel> {
        self.model()
    }
}

impl View for CallableExpression {
    type V = CallableModel;

    open spec fn view(&self) -> CallableModel {
        self.model()
    }
}

impl View for Expression {
    type V = ExprModel;

    open spec fn view(&self) -> ExprModel {
        self.model()
    }
}

impl View for Program {
    type V = ProgramModel;

    open spec fn view(&self) -> ProgramModel {
        ProgramModel { statements: statements_of(self.statments@), errors: texts_of(self.errors@) }
    }
}

impl View for Node {
    type V = NodeModel;

    open spec fn view(&self) -> NodeModel {
        match self {
            Node::Program(p) => NodeModel::Program { program: p@ },
            Node::Statement(s) => NodeModel::Statement { statement: s@ },
            Node::Expression(e) => NodeModel::Expression { expression: e@ },
        }
    }
}

/// A block's value is the list of the values of its statements.
pub proof fn lemma_block_model(block: &BlockStatement)
    ensures
        block.model() == statements_of(block.statements@),
        block.model().len() == block.statements@.len(),
{
    assert(block.model() =~= statements_of(block.statements@));
}

/// A call's arguments have the values of the expressions in its list.
pub proof fn lemma_call_model(call: &CallExpression)
    ensures
        Expression::Call(*call).model() == (ExprModel::Call {
            func: call.func.model(),
            arguments: expressions_of(call.arguments@),
        }),
{
    assert(Expression::Call(*call).model()->Call_arguments =~= expressions_of(call.arguments@));
}

impl Program {
    /// An empty program: no statements and no errors.
    pub fn new() -> (res: Self)
        ensures
            res@.statements == Seq::<StmtModel>::empty(),
            res@.errors == Seq::<Seq<char>>::empty(),
    {
        let res = Program { statments: Vec::new(), errors: Vec::new() };
        assert(res@.statements =~= Seq::<StmtModel>::empty());
        assert(res@.errors =~= Seq::<Seq<char>>::empty());
        res
    }
}

impl Default for Program {
    fn default() -> (res: Self)
        ensures
            res@.statements == Seq::<StmtModel>::empty(),
            res@.errors == Seq::<Seq<char>>::empty(),
    {
        Program::new()
    }
}

/// Copies a list of identifiers; the copy holds the same names.
pub fn copy_identifiers(identifiers: &Vec<Identifier>) -> (res: Vec<Identifier>)
    ensures
        names_of(res@) == names_of(identifiers@),
{
    let mut out: Vec<Identifier> = Vec::new();
    let mut i: usize = 0;
    while i < identifiers.len()
        invariant
            i <= identifiers.len(),
            out@.len() == i,
            forall|j: int| 0 <= j < i ==> out@[j].value@ == identifiers@[j].value@,
        decreases identifiers.len() - i,
    {
        out.push(Identifier { value: identifiers[i].value.clone() });
        i += 1;
    }
    assert(names_of(out@) =~= names_of(identifiers@));
    out
}

/// Copies a list of expressions.
fn clone_expressions(expressions: &Vec<Expression>) -> (res: Vec<Expression>)
    ensures
        expressions_of(res@) == expressions_of(expressions@),
    decreases expressions,
{
    let mut out: Vec<Expression> = Vec::new();
    let mut i: usize = 0;
    while i < expressions.len()
        invariant
            i <= expressions.len(),
            out@.len() == i,
            forall|j: int| 0 <= j < i ==> out@[j].model() == expressions@[j].model(),
        decreases expressions.len() - i,
    {
        out.push(clone_expression(&expressions[i]));
        i += 1;
    }
    assert(expressions_of(out@) =~= expressions_of(expressions@));
    out
}

/// Copies a block.
fn clone_block(block: &BlockStatement) -> (res: BlockStatement)
    ensures
        res.model() == block.model(),
    decreases block,
{
    let mut out: Vec<Statement> = Vec::new();
    let mut i: usize = 0;
    while i < block.statements.len()
        invariant
            i <= block.statements.len(),
            out@.len() == i,
            forall|j: int| 0 <= j < i ==> out@[j].model() == block.statements@[j].model(),
        decreases block.statements.len() - i,
    {
        out.push(clone_statement(&block.statements[i]));
        i += 1;
    }
    let res = BlockStatement { statements: out };
    assert(res.model() =~= block.model());
    res
}

/// Copies a name or a function literal.
fn clone_callable(callable: &CallableExpression) -> (res: CallableExpression)
    ensures
        res.model() == callable.model(),
    decreases callable,
{
    match callable {
        CallableExpression::Identifier(i) => CallableExpression::Identifier(
            Identifier { value: i.value.clone() },
        ),
        CallableExpression::FunctionLiteral(f) => CallableExpression::FunctionLiteral(
            FunctionLiteral { body: clone_block(&f.body), parameters: copy_identifiers(&f.parameters) },
        ),
    }
}

/// Copies an expression.
fn clone_expression(expression: &Expression) -> (res: Expression)
    ensures
        res.model() == expression.model(),
    decreases expression,
{
    match expression {
        Expression::Callable(c) => Expression::Callable(clone_callable(c)),
        Expression::IntegerLiteral(i) => Expression::IntegerLiteral(IntegerLiteral { value: i.value }),
        Expression::BooleanLiteral(b) => Expression::BooleanLiteral(BooleanLiteral { value: b.value }),
        Expression::StringLiteral(s) => Expression::StringLiteral(
            StringLiteral { value: s.value.clone() },
        ),
        Expression::Prefix(p) => Expression::Prefix(
            PrefixExpression { right: Box::new(clone_expression(&*p.right)), operator: p.operator },
        ),
        Expression::Infix(i) => Expression::Infix(
            InfixExpression {
                left: Box::new(clone_expression(&*i.left)),
                right: Box::new(clone_expression(&*i.right)),
                operator: i.operator,
            },
        ),
        Expression::If(i) => Expression::If(
            IfExpression {
                condition: Box::new(clone_expression(&*i.condition)),
                consequence: clone_block(&i.consequence),
                alternative: match &i.alternative {
                    Some(b) => Some(clone_block(b)),
                    None => None,
                },
            },
        ),
        Expression::Call(c) => {
            let res = CallExpression {
                func: clone_callable(&c.func),
                arguments: clone_expressions(&c.arguments),
            };
            proof {
                lemma_call_model(c);
                lemma_call_model(&res);
            }
            Expression::Call(res)
        },
    }
}

/// Copies a statement.
fn clone_statement(statement: &Statement) -> (res: Statement)
    ensures
        res.model() == statement.model(),
    decreases statement,
{
    match statement {
        Statement::Let(l) => Statement::Let(
            LetStatement {
                name: Identifier { value: l.name.value.clone() },
                value: clone_expression(&l.value),
            },
        ),
        Statement::Return(r) => Statement::Return(
            ReturnStatement { value: clone_expression(&r.value) },
        ),
        Statement::Expression(e) => Statement::Expression(
            ExpressionStatement { expression: clone_expression(&e.expression) },
        ),
        Statement::Block(b) => Statement::Block(clone_block(b)),
    }
}

impl Clone for Identifier {
    fn clone(&self) -> (res: Self)
        ensures
            res@ == self@,
    {
        Identifier { value: self.value.clone() }
    }
}

impl Clone for Expression {
    fn clone(&self) -> (res: Self)
        ensures
            res@ == self@,
    {
        clone_expression(self)
    }
}

impl Clone for Statement {
    fn clone(&self) -> (res: Self)
        ensures
            res@ == self@,
    {
        clone_statement(self)
    }
}

impl Clone for BlockStatement {
    fn clone(&self) -> (res: Self)
        ensures
            res@ == self@,
    {
        clone_block(self)
    }
}

/// Whether two lists of identifiers hold the same names in the same order.
pub fn same_identifiers(a: &Vec<Identifier>, b: &Vec<Identifier>) -> (res: bool)
    ensures
        res == (names_of(a@) == names_of(b@)),
{
    if a.len() != b.len() {
        assert(names_of(a@).len() != names_of(b@).len());
        return false;
    }
    let mut i: usize = 0;
    while i < a.len()
        invariant
            i <= a.len(),
            a.len() == b.len(),
            forall|j: int| 0 <= j < i ==> a@[j].value@ == b@[j].value@,
        decreases a.len() - i,
    {
        if !(a[i].value == b[i].value) {
            assert(names_of(a@)[i as int] != names_of(b@)[i as int]);
            return false;
        }
        i += 1;
    }
    assert(names_of(a@) =~= names_of(b@));
    true
}

/// Whether two lists of expressions hold equal expressions in the same
/// order.
fn expressions_eq(a: &Vec<Expression>, b: &Vec<Expression>) -> (res: bool)
    ensures
        res == (expressions_of(a@) == expressions_of(b@)),
    decreases a,
{
    if a.len() != b.len() {
        assert(expressions_of(a@).len() != expressions_of(b@).len());
        return false;
    }
    let mut i: usize = 0;
    while i < a.len()
        invariant
            i <= a.len(),
            a.len() == b.len(),
            forall|j: int| 0 <= j < i ==> a@[j].model() == b@[j].model(),
        decreases a.len() - i,
    {
        if !expression_eq(&a[i], &b[i]) {
            assert(expressions_of(a@)[i as int] != expressions_of(b@)[i as int]);
            return false;
        }
        i += 1;
    }
    assert(expressions_of(a@) =~= expressions_of(b@));
    true
}

/// Whether two blocks hold equal statements in the same order.
fn block_eq(a: &BlockStatement, b: &BlockStatement) -> (res: bool)
    ensures
        res == (a.model() == b.model()),
    decreases a,
{
    if a.statements.len() != b.statements.len() {
        assert(a.model().len() != b.model().len());
        return false;
    }
    let mut i: usize = 0;
    while i < a.statements.len()
        invariant
            i <= a.statements.len(),
            a.statements.len() == b.statements.len(),
            forall|j: int| 0 <= j < i ==> a.statements@[j].model() == b.statements@[j].model(),
        decreases a.statements.len() - i,
    {
        if !statement_eq(&a.statements[i], &b.statements[i]) {
            assert(a.model()[i as int] != b.model()[i as int]);
            return false;
        }
        i += 1;
    }
    assert(a.model() =~= b.model());
    true
}

/// Whether two names, or two function literals, are equal.
fn callable_eq(a: &CallableExpression, b: &CallableExpression) -> (res: bool)
    ensures
        res == (a.model() == b.model()),
    decreases a,
{
    match (a, b) {
        (CallableExpression::Identifier(x), CallableExpression::Identifier(y)) => x.value
            == y.value,
        (CallableExpression::FunctionLiteral(x), CallableExpression::FunctionLiteral(y)) => {
            same_identifiers(&x.parameters, &y.parameters) && block_eq(&x.body, &y.body)
        },
        _ => false,
    }
}

/// Whether two expressions are equal.
fn expression_eq(a: &Expression, b: &Expression) -> (res: bool)
    ensures
        res == (a.model() == b.model()),
    decreases a,
{
    match (a, b) {
        (Expression::Callable(x), Expression::Callable(y)) => callable_eq(x, y),
        (Expression::IntegerLiteral(x), Expression::IntegerLiteral(y)) => x.value == y.value,
        (Expression::BooleanLiteral(x), Expression::BooleanLiteral(y)) => x.value == y.value,
        (Expression::StringLiteral(x), Expression::StringLiteral(y)) => x.value == y.value,
        (Expression::Prefix(x), Expression::Prefix(y)) => {
            x.operator == y.operator && expression_eq(&*x.right, &*y.right)
        },
        (Expression::Infix(x), Expression::Infix(y)) => {
            x.operator == y.operator && expression_eq(&*x.left, &*y.left) && expression_eq(
                &*x.right,
                &*y.right,
            )
        },
        (Expression::If(x), Expression::If(y)) => {
            expression_eq(&*x.condition, &*y.condition) && block_eq(
                &x.consequence,
                &y.consequence,
            ) && match (&x.alternative, &y.alternative) {
                (Some(p), Some(q)) => block_eq(p, q),
                (None, None) => true,
                _ => false,
            }
        },
        (Expression::Call(x), Expression::Call(y)) => {
            proof {
                lemma_call_model(x);
                lemma_call_model(y);
            }
            callable_eq(&x.func, &y.func) && expressions_eq(&x.arguments, &y.arguments)
        },
        _ => false,
    }
}

/// Whether two statements are equal.
fn statement_eq(a: &Statement, b: &Statement) -> (res: bool)
    ensures
        res == (a.model() == b.model()),
    decreases a,
{
    match (a, b) {
        (Statement::Let(x), Statement::Let(y)) => {
            x.name.value == y.name.value && expression_eq(&x.value, &y.value)
        },
        (Statement::Return(x), Statement::Return(y)) => expression_eq(&x.value, &y.value),
        (Statement::Expression(x), Statement::Expression(y)) => expression_eq(
            &x.expression,
            &y.expression,
        ),
        (Statement::Block(x), Statement::Block(y)) => block_eq(x, y),
        _ => false,
    }
}

impl PartialEq for Identifier {
    fn eq(&self, other: &Self) -> (res: bool) {
        self.value == other.value
    }
}

impl Eq for Identifier {}

impl PartialEqSpecImpl for Identifier {
    open spec fn obeys_eq_spec() -> bool {
        true
    }

    open spec fn eq_spec(&self, other: &Self) -> bool {
        self@ == other@
    }
}

impl PartialEq for Expression {
    fn eq(&self, other: &Self) -> (res: bool) {
        expression_eq(self, other)
    }
}

impl Eq for Expression {}

impl PartialEqSpecImpl for Expression {
    open spec fn obeys_eq_spec() -> bool {
        true
    }

    open spec fn eq_spec(&self, other: &Self) -> bool {
        self@ == other@
    }
}

impl PartialEq for Statement {
    fn eq(&self, other: &Self) -> (res: bool) {
        statement_eq(self, other)
    }
}

impl Eq for Statement {}

impl PartialEqSpecImpl for Statement {
    open spec fn obeys_eq_spec() -> bool {
        true
    }

    open spec fn eq_spec(&self, other: &Self) -> bool {
        self@ == other@
    }
}

impl PartialEq for BlockStatement {
    fn eq(&self, other: &Self) -> (res: bool) {
        block_eq(self, other)
    }
}

impl Eq for BlockStatement {}

impl PartialEqSpecImpl for BlockStatement {
    open spec fn obeys_eq_spec() -> bool {
        true
    }

    open spec fn eq_spec(&self, other: &Self) -> bool {
        self@ == other@
    }
}

} // verus!
