//! The parser: operator-precedence recursive descent over the tokens of a
//! lexer, with one token of lookahead.

use vstd::prelude::*;
use vstd::string::*;

use crate::ast::{
    expressions_of, lemma_block_model, lemma_call_model, names_of, statements_of,
    BlockStatement, BooleanLiteral, CallExpression, CallableExpression, CallableModel, ExprModel,
    Expression,
    ExpressionStatement, FunctionLiteral, Identifier, IfExpression, InfixExpression, IntegerLiteral,
    LetStatement, Operator, PrefixExpression, Program, ProgramModel, ReturnStatement, Statement,
    StmtModel, StringLiteral,
};
use crate::grammar;
use crate::grammar::{advance, current_is, peek_is, OperatorPrecedence, ParseError, Parsed};
use crate::lexer::Lexer;
use crate::text::parse_integer;
use crate::token::{Token, TokenKind, TokenModel};

verus! {

impl ParseError {
    /// The text of the error.
    pub fn message(&self) -> (res: String)
        ensures
            res@ == self.message_spec(),
    {
        match self {
            ParseError::ExpectedIdentifier => String::from_str("expected an identifier after let"),
            ParseError::ExpectedAssign => String::from_str("expected = after the name"),
            ParseError::MissingLeftParen => String::from_str("left parenthesis not found"),
            ParseError::MissingRightParen => String::from_str("right parenthesis not found"),
            ParseError::MissingLeftBrace => String::from_str("left brace not found"),
            ParseError::MissingParameter => String::from_str("identifier not found for parameters"),
            ParseError::NotCallable => String::from_str("expression is not callable"),
            ParseError::NoPrefixRule => String::from_str("no expression starts here"),
            ParseError::UnexpectedEnd => String::from_str("cannot parse expression"),
            ParseError::IntegerOutOfRange => String::from_str("integer literal out of range"),
        }
    }
}

impl OperatorPrecedence {
    /// The place of a precedence on the ladder.
    pub fn rank(&self) -> (res: u8)
        ensures
            res == self.level(),
    {
        match self {
            OperatorPrecedence::Lowest => 0,
            OperatorPrecedence::Equals => 1,
            OperatorPrecedence::LessGreater => 2,
            OperatorPrecedence::Sum => 3,
            OperatorPrecedence::Product => 4,
            OperatorPrecedence::Prefix => 5,
            OperatorPrecedence::Call => 6,
        }
    }

    /// The precedence with which an operator binds.
    pub fn of_operator(operator: &Operator) -> (res: OperatorPrecedence)
        ensures
            res == OperatorPrecedence::of(*operator),
    {
        match operator {
            Operator::Minus => OperatorPrecedence::Sum,
            Operator::Plus => OperatorPrecedence::Sum,
            Operator::Asterisk => OperatorPrecedence::Product,
            Operator::Slash => OperatorPrecedence::Product,
            Operator::Eq => OperatorPrecedence::Equals,
            Operator::NotEq => OperatorPrecedence::Equals,
            Operator::Lt => OperatorPrecedence::LessGreater,
            Operator::Gt => OperatorPrecedence::LessGreater,
            Operator::Lparen => OperatorPrecedence::Call,
            Operator::Bang => OperatorPrecedence::Lowest,
        }
    }
}

/// A list that was parsed in two parts: what the first part holds, before
/// what the second part gave.
pub open spec fn prepend<T>(done: Seq<T>, parsed: Parsed<Seq<T>>) -> Parsed<Seq<T>> {
    Parsed {
        result: match parsed.result {
            Ok(more) => Ok(done + more),
            Err(error) => Err(error),
        },
        rest: parsed.rest,
    }
}

/// A program that was parsed in two parts.
pub open spec fn join(done: ProgramModel, more: ProgramModel) -> ProgramModel {
    ProgramModel { statements: done.statements + more.statements, errors: done.errors + more.errors }
}

/// Prepending one item more is prepending a list that ends with it.
proof fn lemma_prepend_push<T>(done: Seq<T>, item: T, more: Parsed<Seq<T>>)
    ensures
        prepend(done, prepend(seq![item], more)) == prepend(done.push(item), more),
{
    if let Ok(items) = more.result {
        assert(done + (seq![item] + items) =~= done.push(item) + items);
    }
}

/// Prepending an empty list, or prepending to one, changes nothing.
proof fn lemma_prepend_nothing<T>(done: Seq<T>, rest: Seq<TokenModel>)
    ensures
        prepend(done, Parsed { result: Ok(Seq::<T>::empty()), rest }) == (Parsed {
            result: Ok(done),
            rest,
        }),
        prepend(Seq::<T>::empty(), Parsed { result: Ok(done), rest }) == (Parsed {
            result: Ok(done),
            rest,
        }),
{
    assert(done + Seq::<T>::empty() =~= done);
    assert(Seq::<T>::empty() + done =~= done);
}

/// A statement at the head of the second part can as well stand at the end
/// of the first.
proof fn lemma_join_statement(done: ProgramModel, statement: StmtModel, more: ProgramModel)
    ensures
        join(
            done,
            ProgramModel { statements: seq![statement] + more.statements, errors: more.errors },
        ) == join(
            ProgramModel { statements: done.statements.push(statement), errors: done.errors },
            more,
        ),
{
    assert(done.statements + (seq![statement] + more.statements) =~= done.statements.push(
        statement,
    ) + more.statements);
}

/// An error at the head of the second part can as well stand at the end of
/// the first.
proof fn lemma_join_error(done: ProgramModel, error: Seq<char>, more: ProgramModel)
    ensures
        join(
            done,
            ProgramModel { statements: more.statements, errors: seq![error] + more.errors },
        ) == join(
            ProgramModel { statements: done.statements, errors: done.errors.push(error) },
            more,
        ),
{
    assert(done.errors + (seq![error] + more.errors) =~= done.errors.push(error) + more.errors);
}

/// Joining with the empty program changes nothing.
proof fn lemma_join_nothing(done: ProgramModel)
    ensures
        join(done, ProgramModel { statements: Seq::empty(), errors: Seq::empty() }) == done,
        join(ProgramModel { statements: Seq::empty(), errors: Seq::empty() }, done) == done,
{
    assert(done.statements + Seq::<StmtModel>::empty() =~= done.statements);
    assert(done.errors + Seq::<Seq<char>>::empty() =~= done.errors);
    assert(Seq::<StmtModel>::empty() + done.statements =~= done.statements);
    assert(Seq::<Seq<char>>::empty() + done.errors =~= done.errors);
}

/// Whether an expression, or the error in its place, is what was to be
/// parsed.
pub open spec fn is_expression(res: Result<Expression, ParseError>, model: Result<ExprModel, ParseError>) -> bool {
    match res {
        Ok(expression) => model == Ok::<ExprModel, ParseError>(expression@),
        Err(error) => model == Err::<ExprModel, ParseError>(error),
    }
}

/// Whether a statement, or the error in its place, is what was to be parsed.
pub open spec fn is_statement(res: Result<Statement, ParseError>, model: Result<StmtModel, ParseError>) -> bool {
    match res {
        Ok(statement) => model == Ok::<StmtModel, ParseError>(statement@),
        Err(error) => model == Err::<StmtModel, ParseError>(error),
    }
}

/// Whether a block, or the error in its place, is what was to be parsed.
pub open spec fn is_block(res: Result<BlockStatement, ParseError>, model: Result<Seq<StmtModel>, ParseError>) -> bool {
    match res {
        Ok(block) => model == Ok::<Seq<StmtModel>, ParseError>(block@),
        Err(error) => model == Err::<Seq<StmtModel>, ParseError>(error),
    }
}

/// Whether a list of names, or the error in its place, is what was to be
/// parsed.
pub open spec fn is_names(res: Result<Vec<Identifier>, ParseError>, model: Result<Seq<Seq<char>>, ParseError>) -> bool {
    match res {
        Ok(identifiers) => model == Ok::<Seq<Seq<char>>, ParseError>(names_of(identifiers@)),
        Err(error) => model == Err::<Seq<Seq<char>>, ParseError>(error),
    }
}

/// Whether a list of expressions, or the error in its place, is what was to
/// be parsed.
pub open spec fn is_expressions(res: Result<Vec<Expression>, ParseError>, model: Result<Seq<ExprModel>, ParseError>) -> bool {
    match res {
        Ok(expressions) => model == Ok::<Seq<ExprModel>, ParseError>(expressions_of(expressions@)),
        Err(error) => model == Err::<Seq<ExprModel>, ParseError>(error),
    }
}

/// A parser over the tokens of one lexer. It holds the current token and
/// the one behind it.
pub struct Parser {
    lexer: Lexer,
    current_token: Option<Token>,
    peek_token: Option<Token>,
}

impl View for Parser {
    type V = Seq<TokenModel>;

    /// The tokens that are still to come, the current one first.
    closed spec fn view(&self) -> Seq<TokenModel> {
        match self.current_token {
            None => Seq::empty(),
            Some(current) => seq![current@] + (match self.peek_token {
                None => Seq::empty(),
                Some(peek) => seq![peek@] + self.lexer.remaining(),
            }),
        }
    }
}

impl Parser {
    /// A parser at the first token of the lexer's text.
    pub fn new(lexer: Lexer) -> (res: Parser)
        ensures
            res@ == lexer.remaining(),
    {
        let mut lexer = lexer;
        let ghost all = lexer.remaining();
        let current_token = lexer.next_token();
        let peek_token = lexer.next_token();
        let res = Parser { lexer, current_token, peek_token };
        assert(res@ =~= all);
        res
    }

    /// Steps to the next token. Behind the last token there is nothing to
    /// step to.
    fn next_token(&mut self)
        ensures
            final(self)@ == advance(old(self)@),
    {
        if self.current_token.is_some() {
            let next = self.lexer.next_token();
            self.current_token = self.peek_token.take();
            self.peek_token = next;
            assert(self@ =~= advance(old(self)@));
        }
    }

    /// The kind of the token behind the current one.
    pub fn peek_token_kind(&self) -> (res: Option<TokenKind>)
        ensures
            res == if self@.len() >= 2 {
                Some(self@[1].kind)
            } else {
                None::<TokenKind>
            },
    {
        match &self.current_token {
            None => None,
            Some(_) => match &self.peek_token {
                Some(token) => Some(token.kind),
                None => None,
            },
        }
    }

    /// The kind of the current token.
    pub fn current_token_kind(&self) -> (res: Option<TokenKind>)
        ensures
            res == if self@.len() >= 1 {
                Some(self@[0].kind)
            } else {
                None::<TokenKind>
            },
    {
        match &self.current_token {
            Some(token) => Some(token.kind),
            None => None,
        }
    }

    /// The text of the current token.
    fn current_text(&self) -> (res: String)
        requires
            self@.len() >= 1,
        ensures
            res@ == self@[0].val,
    {
        match &self.current_token {
            Some(token) => token.val.clone(),
            None => String::new(),
        }
    }

    /// Whether the token behind the current one is of the given kind.
    fn peek_kind_is(&self, kind: TokenKind) -> (res: bool)
        ensures
            res == peek_is(self@, kind),
    {
        match self.peek_token_kind() {
            Some(found) => found == kind,
            None => false,
        }
    }

    /// Whether the current token is of the given kind.
    fn current_kind_is(&self, kind: TokenKind) -> (res: bool)
        ensures
            res == current_is(self@, kind),
    {
        match self.current_token_kind() {
            Some(found) => found == kind,
            None => false,
        }
    }

    /// Steps behind the next `;`, the current token counted, or to the end
    /// of the text where no `;` is left.
    fn synchronize(&mut self)
        ensures
            final(self)@ == grammar::synchronize(old(self)@),
    {
        loop
            invariant
                grammar::synchronize(self@) == grammar::synchronize(old(self)@),
            decreases self@.len(),
        {
            match self.current_token_kind() {
                None => {
                    return ;
                },
                Some(kind) => {
                    self.next_token();
                    if kind == TokenKind::Semicolon {
                        return ;
                    }
                },
            }
        }
    }

    /// Steps over a `;` that follows the current token, if there is one.
    fn skip_terminator(&mut self)
        ensures
            final(self)@ == grammar::skip_terminator(old(self)@),
            final(self)@.len() <= old(self)@.len(),
    {
        if self.peek_kind_is(TokenKind::Semicolon) {
            self.next_token();
        }
    }

    /// Parses what the current token starts.
    fn prefix_parse(&mut self) -> (res: Result<Expression, ParseError>)
        requires
            old(self)@.len() >= 1,
        ensures
            final(self)@ == grammar::prefix_parse(old(self)@).rest,
            is_expression(res, grammar::prefix_parse(old(self)@).result),
            final(self)@.len() <= old(self)@.len(),
        decreases old(self)@.len(), 4nat,
    {
        let kind = match self.current_token_kind() {
            Some(kind) => kind,
            None => TokenKind::Illegal,
        };
        match kind {
            TokenKind::Ident => {
                let name = CallableExpression::Identifier(Identifier { value: self.current_text() });
                assert(name@ == CallableModel::Identifier { name: self@[0].val });
                Ok(Expression::Callable(name))
            },
            TokenKind::Bang => self.parse_prefix_operator(Operator::Bang),
            TokenKind::Minus => self.parse_prefix_operator(Operator::Minus),
            TokenKind::Int => {
                let text = self.current_text();
                match parse_integer(text.as_str()) {
                    Some(value) => Ok(Expression::IntegerLiteral(IntegerLiteral { value })),
                    None => Err(ParseError::IntegerOutOfRange),
                }
            },
            TokenKind::String => Ok(
                Expression::StringLiteral(StringLiteral { value: self.current_text() }),
            ),
            TokenKind::True => Ok(Expression::BooleanLiteral(BooleanLiteral { value: true })),
            TokenKind::False => Ok(Expression::BooleanLiteral(BooleanLiteral { value: false })),
            TokenKind::Lparen => self.parse_grouped(),
            TokenKind::Function => self.parse_function_literal(),
            TokenKind::If => self.parse_if(),
            _ => Err(ParseError::NoPrefixRule),
        }
    }

    /// Parses the operand of a unary operator, which is the current token.
    fn parse_prefix_operator(&mut self, operator: Operator) -> (res: Result<Expression, ParseError>)
        requires
            old(self)@.len() >= 1,
        ensures
            final(self)@ == grammar::parse_prefix_operator(old(self)@, operator).rest,
            is_expression(res, grammar::parse_prefix_operator(old(self)@, operator).result),
            final(self)@.len() <= old(self)@.len(),
        decreases old(self)@.len(), 3nat,
    {
        self.next_token();
        match self.parse_expression(OperatorPrecedence::Prefix) {
            Ok(right) => Ok(Expression::Prefix(PrefixExpression { right: Box::new(right), operator })),
            Err(error) => Err(error),
        }
    }

    /// Parses an expression in parentheses; the current token is the `(`.
    fn parse_grouped(&mut self) -> (res: Result<Expression, ParseError>)
        requires
            old(self)@.len() >= 1,
        ensures
            final(self)@ == grammar::parse_grouped(old(self)@).rest,
            is_expression(res, grammar::parse_grouped(old(self)@).result),
            final(self)@.len() <= old(self)@.len(),
        decreases old(self)@.len(), 3nat,
    {
        self.next_token();
        match self.parse_expression(OperatorPrecedence::Lowest) {
            Ok(exp) => {
                if self.peek_kind_is(TokenKind::Rparen) {
                    self.next_token();
                    Ok(exp)
                } else {
                    Err(ParseError::MissingRightParen)
                }
            },
            Err(error) => Err(error),
        }
    }

    /// Parses a function literal; the current token is `fn`.
    fn parse_function_literal(&mut self) -> (res: Result<Expression, ParseError>)
        requires
            old(self)@.len() >= 1,
        ensures
            final(self)@ == grammar::parse_function_literal(old(self)@).rest,
            is_expression(res, grammar::parse_function_literal(old(self)@).result),
            final(self)@.len() <= old(self)@.len(),
        decreases old(self)@.len(), 3nat,
    {
        if !self.peek_kind_is(TokenKind::Lparen) {
            return Err(ParseError::MissingLeftParen);
        }
        self.next_token();
        let parameters = match self.parse_func_params() {
            Ok(parameters) => parameters,
            Err(error) => {
                return Err(error);
            },
        };
        if !self.peek_kind_is(TokenKind::Lbrace) {
            return Err(ParseError::MissingLeftBrace);
        }
        self.next_token();
        match self.parse_block_statement() {
            Ok(body) => {
                let function = CallableExpression::FunctionLiteral(
                    FunctionLiteral { body, parameters },
                );
                assert(function@ == CallableModel::FunctionLiteral {
                    parameters: names_of(parameters@),
                    body: body@,
                });
                Ok(Expression::Callable(function))
            },
            Err(error) => Err(error),
        }
    }

    /// Parses an `if`; the current token is `if`.
    fn parse_if(&mut self) -> (res: Result<Expression, ParseError>)
        requires
            old(self)@.len() >= 1,
        ensures
            final(self)@ == grammar::parse_if(old(self)@).rest,
            is_expression(res, grammar::parse_if(old(self)@).result),
            final(self)@.len() <= old(self)@.len(),
        decreases old(self)@.len(), 3nat,
    {
        if !self.peek_kind_is(TokenKind::Lparen) {
            return Err(ParseError::MissingLeftParen);
        }
        self.next_token();
        let condition = match self.parse_expression(OperatorPrecedence::Lowest) {
            Ok(condition) => condition,
            Err(error) => {
                return Err(error);
            },
        };
        if !self.peek_kind_is(TokenKind::Lbrace) {
            return Err(ParseError::MissingLeftBrace);
        }
        self.next_token();
        let consequence = match self.parse_block_statement() {
            Ok(consequence) => consequence,
            Err(error) => {
                return Err(error);
            },
        };
        if self.peek_kind_is(TokenKind::Else) {
            self.next_token();
            if !self.peek_kind_is(TokenKind::Lbrace) {
                return Err(ParseError::MissingLeftBrace);
            }
            self.next_token();
            match self.parse_block_statement() {
                Ok(alternative) => Ok(
                    Expression::If(
                        IfExpression {
                            condition: Box::new(condition),
                            consequence,
                            alternative: Some(alternative),
                        },
                    ),
                ),
                Err(error) => Err(error),
            }
        } else {
            Ok(
                Expression::If(
                    IfExpression { condition: Box::new(condition), consequence, alternative: None },
                ),
            )
        }
    }

    /// Parses one continuation of `left`: the operator behind the current
    /// token and its right side, or the argument list of a call.
    fn infix_parse(&mut self, left: Expression, operator: Operator) -> (res: Result<
        Expression,
        ParseError,
    >)
        requires
            old(self)@.len() >= 2,
        ensures
            final(self)@ == grammar::infix_parse(left@, old(self)@, operator).rest,
            is_expression(res, grammar::infix_parse(left@, old(self)@, operator).result),
            final(self)@.len() <= old(self)@.len(),
            res is Ok && operator != Operator::Bang ==> final(self)@.len() < old(self)@.len(),
        decreases old(self)@.len(), 2nat,
    {
        match operator {
            Operator::Bang => Ok(left),
            Operator::Lparen => match left {
                Expression::Callable(callable) => {
                    self.next_token();
                    match self.parse_call_arguments() {
                        Ok(arguments) => {
                            let call = CallExpression { func: callable, arguments };
                            proof {
                                lemma_call_model(&call);
                            }
                            Ok(Expression::Call(call))
                        },
                        Err(error) => Err(error),
                    }
                },
                _ => Err(ParseError::NotCallable),
            },
            _ => {
                let precedence = OperatorPrecedence::of_operator(&operator);
                self.next_token();
                self.next_token();
                match self.parse_expression(precedence) {
                    Ok(right) => Ok(
                        Expression::Infix(
                            InfixExpression { left: Box::new(left), right: Box::new(right), operator },
                        ),
                    ),
                    Err(error) => Err(error),
                }
            },
        }
    }

    /// Parses a `let`; the current token is `let`.
    fn parse_let_statement(&mut self) -> (res: Result<Statement, ParseError>)
        ensures
            final(self)@ == grammar::parse_let_statement(old(self)@).rest,
            is_statement(res, grammar::parse_let_statement(old(self)@).result),
            final(self)@.len() <= old(self)@.len(),
        decreases old(self)@.len(), 7nat,
    {
        if !self.peek_kind_is(TokenKind::Ident) {
            return Err(ParseError::ExpectedIdentifier);
        }
        self.next_token();
        let name = Identifier { value: self.current_text() };
        if !self.peek_kind_is(TokenKind::Assign) {
            return Err(ParseError::ExpectedAssign);
        }
        self.next_token();
        self.next_token();
        match self.parse_expression(OperatorPrecedence::Lowest) {
            Ok(value) => {
                self.skip_terminator();
                Ok(Statement::Let(LetStatement { name, value }))
            },
            Err(error) => Err(error),
        }
    }

    /// Parses a `return`; the current token is `return`.
    fn parse_return_statement(&mut self) -> (res: Result<Statement, ParseError>)
        requires
            old(self)@.len() >= 1,
        ensures
            final(self)@ == grammar::parse_return_statement(old(self)@).rest,
            is_statement(res, grammar::parse_return_statement(old(self)@).result),
            final(self)@.len() <= old(self)@.len(),
        decreases old(self)@.len(), 7nat,
    {
        self.next_token();
        match self.parse_expression(OperatorPrecedence::Lowest) {
            Ok(value) => {
                self.skip_terminator();
                Ok(Statement::Return(ReturnStatement { value }))
            },
            Err(error) => Err(error),
        }
    }

    /// Parses a block; the current token is its `{`.
    fn parse_block_statement(&mut self) -> (res: Result<BlockStatement, ParseError>)
        requires
            old(self)@.len() >= 1,
        ensures
            final(self)@ == grammar::parse_block(old(self)@).rest,
            is_block(res, grammar::parse_block(old(self)@).result),
            final(self)@.len() <= old(self)@.len(),
        decreases old(self)@.len(), 10nat,
    {
        let mut statements: Vec<Statement> = Vec::new();
        self.next_token();
        let ghost goal = grammar::parse_block(old(self)@);
        proof {
            assert(statements_of(statements@) =~= Seq::empty());
            let first = grammar::parse_block_statements(self@);
            if let Ok(items) = first.result {
                lemma_prepend_nothing(items, first.rest);
            }
        }
        loop
            invariant
                self@.len() < old(self)@.len(),
                goal == prepend(statements_of(statements@), grammar::parse_block_statements(self@)),
                goal == grammar::parse_block(old(self)@),
            decreases self@.len(),
        {
            let ghost done = statements_of(statements@);
            let at_end = match self.current_token_kind() {
                None => true,
                Some(kind) => kind == TokenKind::Rbrace,
            };
            if at_end {
                let block = BlockStatement { statements };
                proof {
                    lemma_block_model(&block);
                    lemma_prepend_nothing(done, self@);
                }
                return Ok(block);
            }
            let ghost rest = grammar::parse_block_statements(
                advance(grammar::parse_statement(self@).rest),
            );
            match self.parse_statement() {
                Ok(stmt) => {
                    statements.push(stmt);
                    self.next_token();
                    proof {
                        assert(statements_of(statements@) =~= done.push(stmt@));
                        lemma_prepend_push(done, stmt@, rest);
                    }
                },
                Err(error) => {
                    return Err(error);
                },
            }
        }
    }

    /// Parses a parameter list; the current token is its `(`.
    fn parse_func_params(&mut self) -> (res: Result<Vec<Identifier>, ParseError>)
        requires
            old(self)@.len() >= 1,
        ensures
            final(self)@ == grammar::parse_func_params(old(self)@).rest,
            is_names(res, grammar::parse_func_params(old(self)@).result),
            final(self)@.len() <= old(self)@.len(),
    {
        let mut identifiers: Vec<Identifier> = Vec::new();
        let ghost goal = grammar::parse_func_params(old(self)@);
        self.next_token();
        match self.current_token_kind() {
            Some(TokenKind::Rparen) => {
                assert(names_of(identifiers@) =~= Seq::empty());
                return Ok(identifiers);
            },
            Some(TokenKind::Ident) => {
                identifiers.push(Identifier { value: self.current_text() });
                assert(names_of(identifiers@) =~= seq![self@[0].val]);
            },
            _ => {
                return Err(ParseError::MissingParameter);
            },
        }
        loop
            invariant
                self@.len() < old(self)@.len(),
                goal == prepend(names_of(identifiers@), grammar::parse_more_params(self@)),
                goal == grammar::parse_func_params(old(self)@),
            decreases self@.len(),
        {
            let ghost done = names_of(identifiers@);
            if self.peek_kind_is(TokenKind::Comma) {
                self.next_token();
                self.next_token();
                if self.current_kind_is(TokenKind::Ident) {
                    identifiers.push(Identifier { value: self.current_text() });
                    proof {
                        let name = self@[0].val;
                        assert(names_of(identifiers@) =~= done.push(name));
                        let more = grammar::parse_more_params(self@);
                        assert(more.result matches Ok(s) ==> done + (seq![name] + s) =~= done.push(
                            name,
                        ) + s);
                    }
                } else {
                    return Err(ParseError::MissingParameter);
                }
            } else if self.peek_kind_is(TokenKind::Rparen) {
                self.next_token();
                assert(names_of(identifiers@) + Seq::<Seq<char>>::empty() =~= names_of(
                    identifiers@,
                ));
                return Ok(identifiers);
            } else {
                return Err(ParseError::MissingRightParen);
            }
        }
    }

    /// Parses an argument list; the current token is its `(`.
    fn parse_call_arguments(&mut self) -> (res: Result<Vec<Expression>, ParseError>)
        requires
            old(self)@.len() >= 1,
        ensures
            final(self)@ == grammar::parse_call_arguments(old(self)@).rest,
            is_expressions(res, grammar::parse_call_arguments(old(self)@).result),
            final(self)@.len() < old(self)@.len(),
        decreases old(self)@.len(), 1nat,
    {
        let mut expressions: Vec<Expression> = Vec::new();
        let ghost goal = grammar::parse_call_arguments(old(self)@);
        self.next_token();
        if self.current_kind_is(TokenKind::Rparen) {
            assert(expressions_of(expressions@) =~= Seq::empty());
            return Ok(expressions);
        }
        match self.parse_expression(OperatorPrecedence::Lowest) {
            Ok(expression) => {
                expressions.push(expression);
                assert(expressions_of(expressions@) =~= seq![expression@]);
            },
            Err(error) => {
                return Err(error);
            },
        }
        loop
            invariant
                self@.len() < old(self)@.len(),
                goal == prepend(expressions_of(expressions@), grammar::parse_more_arguments(self@)),
                goal == grammar::parse_call_arguments(old(self)@),
            decreases self@.len(),
        {
            let ghost done = expressions_of(expressions@);
            if self.peek_kind_is(TokenKind::Comma) {
                self.next_token();
                self.next_token();
                match self.parse_expression(OperatorPrecedence::Lowest) {
                    Ok(expression) => {
                        expressions.push(expression);
                        proof {
                            assert(expressions_of(expressions@) =~= done.push(expression@));
                            let more = grammar::parse_more_arguments(self@);
                            assert(more.result matches Ok(s) ==> done + (seq![expression@] + s)
                                =~= done.push(expression@) + s);
                        }
                    },
                    Err(error) => {
                        return Err(error);
                    },
                }
            } else if self.peek_kind_is(TokenKind::Rparen) {
                self.next_token();
                assert(expressions_of(expressions@) + Seq::<ExprModel>::empty() =~= expressions_of(
                    expressions@,
                ));
                return Ok(expressions);
            } else {
                return Err(ParseError::MissingRightParen);
            }
        }
    }

    /// Parses an expression that binds tighter than `precedence`.
    fn parse_expression(&mut self, precedence: OperatorPrecedence) -> (res: Result<
        Expression,
        ParseError,
    >)
        ensures
            final(self)@ == grammar::parse_expression(old(self)@, precedence).rest,
            is_expression(res, grammar::parse_expression(old(self)@, precedence).result),
            final(self)@.len() <= old(self)@.len(),
        decreases old(self)@.len(), 5nat,
    {
        if self.current_token_kind().is_none() {
            return Err(ParseError::UnexpectedEnd);
        }
        let ghost goal = grammar::parse_expression(old(self)@, precedence);
        let mut left = match self.prefix_parse() {
            Ok(expression) => expression,
            Err(error) => {
                return Err(error);
            },
        };
        loop
            invariant
                self@.len() <= old(self)@.len(),
                goal == grammar::parse_infixes(left@, self@, precedence),
                goal == grammar::parse_expression(old(self)@, precedence),
            decreases self@.len(),
        {
            let operator = match self.peek_token_kind() {
                Some(kind) => Operator::from_kind(kind),
                None => None,
            };
            match operator {
                None => {
                    return Ok(left);
                },
                Some(operator) => {
                    if OperatorPrecedence::of_operator(&operator).rank() <= precedence.rank() {
                        return Ok(left);
                    }
                    match self.infix_parse(left, operator) {
                        Ok(expression) => {
                            left = expression;
                        },
                        Err(error) => {
                            return Err(error);
                        },
                    }
                },
            }
        }
    }

    /// Parses an expression that stands as a statement.
    fn parse_expression_statement(&mut self) -> (res: Result<Statement, ParseError>)
        ensures
            final(self)@ == grammar::parse_expression_statement(old(self)@).rest,
            is_statement(res, grammar::parse_expression_statement(old(self)@).result),
            final(self)@.len() <= old(self)@.len(),
        decreases old(self)@.len(), 7nat,
    {
        match self.parse_expression(OperatorPrecedence::Lowest) {
            Ok(expression) => {
                self.skip_terminator();
                Ok(Statement::Expression(ExpressionStatement { expression }))
            },
            Err(error) => Err(error),
        }
    }

    /// Parses a statement.
    fn parse_statement(&mut self) -> (res: Result<Statement, ParseError>)
        ensures
            final(self)@ == grammar::parse_statement(old(self)@).rest,
            is_statement(res, grammar::parse_statement(old(self)@).result),
            final(self)@.len() <= old(self)@.len(),
        decreases old(self)@.len(), 8nat,
    {
        match self.current_token_kind() {
            Some(TokenKind::Let) => self.parse_let_statement(),
            Some(TokenKind::Return) => self.parse_return_statement(),
            _ => self.parse_expression_statement(),
        }
    }

    /// Parses the whole text. Every statement that parses is in the
    /// program, in order. A statement that fails leaves one message, and
    /// parsing goes on behind the next `;` from where it failed, or ends
    /// where no `;` is left.
    pub fn parse_program(self) -> (res: Program)
        ensures
            res@ == grammar::parse_program(self@),
    {
        let mut parser = self;
        let mut p = Program::new();
        let ghost goal = grammar::parse_program(self@);
        proof {
            lemma_join_nothing(goal);
            assert(p@ == ProgramModel { statements: Seq::empty(), errors: Seq::empty() });
        }
        while parser.current_token_kind().is_some()
            invariant
                goal == join(p@, grammar::parse_program(parser@)),
            decreases parser@.len(),
        {
            let ghost done = p@;
            let ghost before = parser@;
            let ghost more = grammar::parse_program(grammar::resume(before));
            proof {
                grammar::lemma_resume_shorter(before);
            }
            match parser.parse_statement() {
                Ok(stmt) => {
                    p.statments.push(stmt);
                    proof {
                        assert(p@.statements =~= done.statements.push(stmt@));
                        assert(p@.errors =~= done.errors);
                        lemma_join_statement(done, stmt@, more);
                    }
                    parser.next_token();
                    assert(parser@ == grammar::resume(before));
                },
                Err(err) => {
                    p.errors.push(err.message());
                    proof {
                        assert(p@.statements =~= done.statements);
                        assert(p@.errors =~= done.errors.push(err.message_spec()));
                        lemma_join_error(done, err.message_spec(), more);
                    }
                    parser.synchronize();
                    assert(parser@ == grammar::resume(before));
                },
            }
        }
        proof {
            lemma_join_nothing(p@);
        }
        p
    }
}

} // verus!
