//! What parsing means: functions from the tokens that are still to come to
//! a tree, or an error, and the tokens that are left.
//!
//! A list of tokens stands for the state of a parser: its first token is
//! the current one, its second the one looked ahead at. Every function
//! leaves the last token of what it parsed as the current one.

use vstd::prelude::*;

use crate::ast::{CallableModel, ExprModel, Operator, ProgramModel, StmtModel};
use crate::text::integer_of;
use crate::token::{TokenKind, TokenModel};

verus! {

/// The ways in which a statement can fail to parse.
#[derive(Debug, PartialEq, Eq, Clone, Copy, Structural)]
pub enum ParseError {
    /// `let` is not followed by an identifier.
    ExpectedIdentifier,
    /// The name of a `let` is not followed by `=`.
    ExpectedAssign,
    /// `fn` or `if` is not followed by `(`.
    MissingLeftParen,
    /// A `(` has no matching `)`.
    MissingRightParen,
    /// A block does not start with `{`.
    MissingLeftBrace,
    /// A parameter list holds something that is no identifier.
    MissingParameter,
    /// A `(` follows an expression that cannot be called.
    NotCallable,
    /// No expression starts with the current token.
    NoPrefixRule,
    /// The text ends where an expression has to start.
    UnexpectedEnd,
    /// An integer literal does not fit in 64 bits.
    IntegerOutOfRange,
}

impl ParseError {
    /// The text of the error.
    pub open spec fn message_spec(self) -> Seq<char> {
        match self {
            ParseError::ExpectedIdentifier => "expected an identifier after let"@,
            ParseError::ExpectedAssign => "expected = after the name"@,
            ParseError::MissingLeftParen => "left parenthesis not found"@,
            ParseError::MissingRightParen => "right parenthesis not found"@,
            ParseError::MissingLeftBrace => "left brace not found"@,
            ParseError::MissingParameter => "identifier not found for parameters"@,
            ParseError::NotCallable => "expression is not callable"@,
            ParseError::NoPrefixRule => "no expression starts here"@,
            ParseError::UnexpectedEnd => "cannot parse expression"@,
            ParseError::IntegerOutOfRange => "integer literal out of range"@,
        }
    }
}

/// How tightly an operator binds, from loosest to tightest.
#[derive(Debug, PartialEq, Eq, Clone, Copy, Structural)]
pub enum OperatorPrecedence {
    Lowest,
    Equals,
    LessGreater,
    Sum,
    Product,
    Prefix,
    Call,
}

impl OperatorPrecedence {
    /// The place of a precedence on the ladder.
    pub open spec fn level(self) -> nat {
        match self {
            OperatorPrecedence::Lowest => 0,
            OperatorPrecedence::Equals => 1,
            OperatorPrecedence::LessGreater => 2,
            OperatorPrecedence::Sum => 3,
            OperatorPrecedence::Product => 4,
            OperatorPrecedence::Prefix => 5,
            OperatorPrecedence::Call => 6,
        }
    }

    /// The precedence with which an operator binds what stands on its
    /// left and right.
    pub open spec fn of(operator: Operator) -> OperatorPrecedence {
        match operator {
            Operator::Minus => OperatorPrecedence::Sum,
            Operator::Plus => OperatorPrecedence::Sum,
            Operator::Asterisk => OperatorPrecedence::Product,
            Operator::Slash => OperatorPrecedence::Product,
            Operator::Eq => OperatorPrecedence::Equals,
            Operator::NotEq => OperatorPrecedence::Equals,
            Operator::Lt => OperatorPrecedence::LessGreater,
            Operator::Gt => OperatorPrecedence::LessGreater,
            Operator::Lparen => OperatorPrecedence::Call,
            Operator::Bang => OperatorPrecedence::Lowest,
        }
    }
}

/// What a parsing step leaves behind: what it parsed, or why it failed, and
/// the tokens that are left.
pub struct Parsed<T> {
    pub result: Result<T, ParseError>,
    pub rest: Seq<TokenModel>,
}

/// The tokens after the current one was dropped. At the end of the text
/// nothing changes.
pub open spec fn advance(tokens: Seq<TokenModel>) -> Seq<TokenModel> {
    if tokens.len() > 0 {
        tokens.drop_first()
    } else {
        tokens
    }
}

/// Whether the current token is of the given kind.
pub open spec fn current_is(tokens: Seq<TokenModel>, kind: TokenKind) -> bool {
    tokens.len() >= 1 && tokens[0].kind == kind
}

/// Whether the token looked ahead at is of the given kind.
pub open spec fn peek_is(tokens: Seq<TokenModel>, kind: TokenKind) -> bool {
    tokens.len() >= 2 && tokens[1].kind == kind
}

/// Steps over a `;` that follows the current token, if there is one.
pub open spec fn skip_terminator(tokens: Seq<TokenModel>) -> Seq<TokenModel> {
    if peek_is(tokens, TokenKind::Semicolon) {
        advance(tokens)
    } else {
        tokens
    }
}

/// Whether fewer tokens are left than there were. Parsing never adds
/// tokens, so wherever the functions below ask this of what a step left,
/// the answer is yes; they ask because their recursion rests on it.
pub open spec fn shorter(rest: Seq<TokenModel>, tokens: Seq<TokenModel>) -> bool {
    rest.len() < tokens.len()
}

/// Whether more tokens are left than there were, which never happens.
pub open spec fn longer(rest: Seq<TokenModel>, tokens: Seq<TokenModel>) -> bool {
    rest.len() > tokens.len()
}

/// A failure that leaves the tokens where they are.
pub open spec fn failure<T>(error: ParseError, rest: Seq<TokenModel>) -> Parsed<T> {
    Parsed { result: Err(error), rest }
}

/// A parameter list after its first name: any number of `,` and a name, and
/// then `)`.
pub open spec fn parse_more_params(tokens: Seq<TokenModel>) -> Parsed<Seq<Seq<char>>>
    decreases tokens.len(),
{
    if peek_is(tokens, TokenKind::Comma) {
        let at_name = advance(advance(tokens));
        if current_is(at_name, TokenKind::Ident) {
            let more = parse_more_params(at_name);
            match more.result {
                Ok(names) => Parsed { result: Ok(seq![at_name[0].val] + names), rest: more.rest },
                Err(error) => failure(error, more.rest),
            }
        } else {
            failure(ParseError::MissingParameter, at_name)
        }
    } else if peek_is(tokens, TokenKind::Rparen) {
        Parsed { result: Ok(Seq::empty()), rest: advance(tokens) }
    } else {
        failure(ParseError::MissingRightParen, tokens)
    }
}

/// A parameter list, from its `(` to its `)`: identifiers separated by `,`.
pub open spec fn parse_func_params(tokens: Seq<TokenModel>) -> Parsed<Seq<Seq<char>>> {
    let inside = advance(tokens);
    if current_is(inside, TokenKind::Rparen) {
        Parsed { result: Ok(Seq::empty()), rest: inside }
    } else if current_is(inside, TokenKind::Ident) {
        let more = parse_more_params(inside);
        match more.result {
            Ok(names) => Parsed { result: Ok(seq![inside[0].val] + names), rest: more.rest },
            Err(error) => failure(error, more.rest),
        }
    } else {
        failure(ParseError::MissingParameter, inside)
    }
}

/// An expression that binds tighter than `precedence`: what the current
/// token starts, continued by every operator and call that binds tighter
/// than `precedence`.
pub open spec fn parse_expression(tokens: Seq<TokenModel>, precedence: OperatorPrecedence) -> Parsed<
    ExprModel,
>
    decreases tokens.len(), 5nat,
{
    if tokens.len() == 0 {
        failure(ParseError::UnexpectedEnd, tokens)
    } else {
        let left = prefix_parse(tokens);
        match left.result {
            Err(_) => left,
            Ok(expression) => if longer(left.rest, tokens) {
                left
            } else {
                parse_infixes(expression, left.rest, precedence)
            },
        }
    }
}

/// What the current token starts: a literal, a name, a unary operator and
/// its operand, a parenthesised expression, a function literal or an `if`.
pub open spec fn prefix_parse(tokens: Seq<TokenModel>) -> Parsed<ExprModel>
    recommends
        tokens.len() > 0,
    decreases tokens.len(), 4nat,
{
    if tokens.len() == 0 {
        failure(ParseError::UnexpectedEnd, tokens)
    } else {
        let token = tokens[0];
        match token.kind {
            TokenKind::Ident => Parsed {
                result: Ok(
                    ExprModel::Callable {
                        callable: CallableModel::Identifier { name: token.val },
                    },
                ),
                rest: tokens,
            },
            TokenKind::Int => match integer_of(token.val) {
                Some(value) => Parsed { result: Ok(ExprModel::IntegerLiteral { value }), rest: tokens },
                None => failure(ParseError::IntegerOutOfRange, tokens),
            },
            TokenKind::String => Parsed {
                result: Ok(ExprModel::StringLiteral { value: token.val }),
                rest: tokens,
            },
            TokenKind::True => Parsed {
                result: Ok(ExprModel::BooleanLiteral { value: true }),
                rest: tokens,
            },
            TokenKind::False => Parsed {
                result: Ok(ExprModel::BooleanLiteral { value: false }),
                rest: tokens,
            },
            TokenKind::Bang => parse_prefix_operator(tokens, Operator::Bang),
            TokenKind::Minus => parse_prefix_operator(tokens, Operator::Minus),
            TokenKind::Lparen => parse_grouped(tokens),
            TokenKind::Function => parse_function_literal(tokens),
            TokenKind::If => parse_if(tokens),
            _ => failure(ParseError::NoPrefixRule, tokens),
        }
    }
}

/// A unary operator and its operand, which binds tighter than any binary
/// operator.
pub open spec fn parse_prefix_operator(tokens: Seq<TokenModel>, operator: Operator) -> Parsed<
    ExprModel,
>
    recommends
        tokens.len() > 0,
    decreases tokens.len(), 3nat,
{
    if tokens.len() == 0 {
        failure(ParseError::UnexpectedEnd, tokens)
    } else {
        let operand = parse_expression(advance(tokens), OperatorPrecedence::Prefix);
        match operand.result {
            Err(_) => operand,
            Ok(right) => Parsed {
                result: Ok(ExprModel::Prefix { operator, right: Box::new(right) }),
                rest: operand.rest,
            },
        }
    }
}

/// An expression between `(` and `)`. Where the expression fails, that is
/// the error; where it parses and no `)` follows, the missing `)` is.
pub open spec fn parse_grouped(tokens: Seq<TokenModel>) -> Parsed<ExprModel>
    recommends
        tokens.len() > 0,
    decreases tokens.len(), 3nat,
{
    if tokens.len() == 0 {
        failure(ParseError::UnexpectedEnd, tokens)
    } else {
        let inner = parse_expression(advance(tokens), OperatorPrecedence::Lowest);
        match inner.result {
            Err(_) => inner,
            Ok(expression) => if peek_is(inner.rest, TokenKind::Rparen) {
                Parsed { result: Ok(expression), rest: advance(inner.rest) }
            } else {
                failure(ParseError::MissingRightParen, inner.rest)
            },
        }
    }
}

/// A function literal: `fn`, a parameter list and a block.
pub open spec fn parse_function_literal(tokens: Seq<TokenModel>) -> Parsed<ExprModel>
    decreases tokens.len(), 3nat,
{
    if !peek_is(tokens, TokenKind::Lparen) {
        failure(ParseError::MissingLeftParen, tokens)
    } else {
        let params = parse_func_params(advance(tokens));
        match params.result {
            Err(error) => failure(error, params.rest),
            Ok(parameters) => if !peek_is(params.rest, TokenKind::Lbrace) || !shorter(
                advance(params.rest),
                tokens,
            ) {
                failure(ParseError::MissingLeftBrace, params.rest)
            } else {
                let block = parse_block(advance(params.rest));
                match block.result {
                    Err(error) => failure(error, block.rest),
                    Ok(body) => Parsed {
                        result: Ok(
                            ExprModel::Callable {
                                callable: CallableModel::FunctionLiteral { parameters, body },
                            },
                        ),
                        rest: block.rest,
                    },
                }
            },
        }
    }
}

/// An `if`: a condition that starts with `(`, a block, and after `else`
/// another block.
pub open spec fn parse_if(tokens: Seq<TokenModel>) -> Parsed<ExprModel>
    decreases tokens.len(), 3nat,
{
    if !peek_is(tokens, TokenKind::Lparen) {
        failure(ParseError::MissingLeftParen, tokens)
    } else {
        let test = parse_expression(advance(tokens), OperatorPrecedence::Lowest);
        match test.result {
            Err(_) => test,
            Ok(condition) => if !peek_is(test.rest, TokenKind::Lbrace) || !shorter(
                advance(test.rest),
                tokens,
            ) {
                failure(ParseError::MissingLeftBrace, test.rest)
            } else {
                let first = parse_block(advance(test.rest));
                match first.result {
                    Err(error) => failure(error, first.rest),
                    Ok(consequence) => if !peek_is(first.rest, TokenKind::Else) {
                        Parsed {
                            result: Ok(
                                ExprModel::If {
                                    condition: Box::new(condition),
                                    consequence,
                                    alternative: None,
                                },
                            ),
                            rest: first.rest,
                        }
                    } else if !peek_is(advance(first.rest), TokenKind::Lbrace) || !shorter(
                        advance(advance(first.rest)),
                        tokens,
                    ) {
                        failure(ParseError::MissingLeftBrace, advance(first.rest))
                    } else {
                        let second = parse_block(advance(advance(first.rest)));
                        match second.result {
                            Err(error) => failure(error, second.rest),
                            Ok(alternative) => Parsed {
                                result: Ok(
                                    ExprModel::If {
                                        condition: Box::new(condition),
                                        consequence,
                                        alternative: Some(alternative),
                                    },
                                ),
                                rest: second.rest,
                            },
                        }
                    },
                }
            },
        }
    }
}

/// The continuation of an expression: as long as the token looked ahead at
/// is an operator or the `(` of a call that binds tighter than
/// `precedence`, it and its right side are taken into the expression.
pub open spec fn parse_infixes(
    left: ExprModel,
    tokens: Seq<TokenModel>,
    precedence: OperatorPrecedence,
) -> Parsed<ExprModel>
    decreases tokens.len(), 3nat,
{
    if tokens.len() < 2 {
        Parsed { result: Ok(left), rest: tokens }
    } else {
        match Operator::of_kind(tokens[1].kind) {
            None => Parsed { result: Ok(left), rest: tokens },
            Some(operator) => if OperatorPrecedence::of(operator).level() <= precedence.level() {
                Parsed { result: Ok(left), rest: tokens }
            } else {
                let next = infix_parse(left, tokens, operator);
                match next.result {
                    Err(_) => next,
                    Ok(expression) => if shorter(next.rest, tokens) {
                        parse_infixes(expression, next.rest, precedence)
                    } else {
                        next
                    },
                }
            },
        }
    }
}

/// One continuation of an expression: a binary operator and its right
/// side, or the argument list of a call.
pub open spec fn infix_parse(left: ExprModel, tokens: Seq<TokenModel>, operator: Operator) -> Parsed<
    ExprModel,
>
    recommends
        tokens.len() >= 2,
    decreases tokens.len(), 2nat,
{
    if tokens.len() < 2 {
        Parsed { result: Ok(left), rest: tokens }
    } else {
        match operator {
            Operator::Bang => Parsed { result: Ok(left), rest: tokens },
            Operator::Lparen => match left {
                ExprModel::Callable { callable } => {
                    let list = parse_call_arguments(advance(tokens));
                    match list.result {
                        Err(error) => failure(error, list.rest),
                        Ok(arguments) => Parsed {
                            result: Ok(ExprModel::Call { func: callable, arguments }),
                            rest: list.rest,
                        },
                    }
                },
                _ => failure(ParseError::NotCallable, tokens),
            },
            _ => {
                let operand = parse_expression(
                    advance(advance(tokens)),
                    OperatorPrecedence::of(operator),
                );
                match operand.result {
                    Err(_) => operand,
                    Ok(right) => Parsed {
                        result: Ok(
                            ExprModel::Infix { left: Box::new(left), operator, right: Box::new(right) },
                        ),
                        rest: operand.rest,
                    },
                }
            },
        }
    }
}

/// An argument list, from its `(` to its `)`: expressions separated by `,`.
pub open spec fn parse_call_arguments(tokens: Seq<TokenModel>) -> Parsed<Seq<ExprModel>>
    decreases tokens.len(), 1nat,
{
    let inside = advance(tokens);
    if current_is(inside, TokenKind::Rparen) {
        Parsed { result: Ok(Seq::empty()), rest: inside }
    } else if !shorter(inside, tokens) {
        failure(ParseError::UnexpectedEnd, inside)
    } else {
        let first = parse_expression(inside, OperatorPrecedence::Lowest);
        match first.result {
            Err(error) => failure(error, first.rest),
            Ok(argument) => if !shorter(first.rest, tokens) {
                failure(ParseError::MissingRightParen, first.rest)
            } else {
                let more = parse_more_arguments(first.rest);
                match more.result {
                    Ok(arguments) => Parsed { result: Ok(seq![argument] + arguments), rest: more.rest },
                    Err(error) => failure(error, more.rest),
                }
            },
        }
    }
}

/// An argument list after its first expression: any number of `,` and an
/// expression, and then `)`.
pub open spec fn parse_more_arguments(tokens: Seq<TokenModel>) -> Parsed<Seq<ExprModel>>
    decreases tokens.len(), 0nat,
{
    if peek_is(tokens, TokenKind::Comma) {
        let next = parse_expression(advance(advance(tokens)), OperatorPrecedence::Lowest);
        match next.result {
            Err(error) => failure(error, next.rest),
            Ok(argument) => if !shorter(next.rest, tokens) {
                failure(ParseError::MissingRightParen, next.rest)
            } else {
                let more = parse_more_arguments(next.rest);
                match more.result {
                    Ok(arguments) => Parsed { result: Ok(seq![argument] + arguments), rest: more.rest },
                    Err(error) => failure(error, more.rest),
                }
            },
        }
    } else if peek_is(tokens, TokenKind::Rparen) {
        Parsed { result: Ok(Seq::empty()), rest: advance(tokens) }
    } else {
        failure(ParseError::MissingRightParen, tokens)
    }
}

/// A block, from its `{` to its `}` or to the end of the text.
pub open spec fn parse_block(tokens: Seq<TokenModel>) -> Parsed<Seq<StmtModel>>
    decreases tokens.len(), 10nat,
{
    parse_block_statements(advance(tokens))
}

/// The statements of a block from the current token on, up to `}` or to
/// the end of the text. The first statement that fails ends the block.
pub open spec fn parse_block_statements(tokens: Seq<TokenModel>) -> Parsed<Seq<StmtModel>>
    decreases tokens.len(), 9nat,
{
    if tokens.len() == 0 || tokens[0].kind == TokenKind::Rbrace {
        Parsed { result: Ok(Seq::empty()), rest: tokens }
    } else {
        let first = parse_statement(tokens);
        match first.result {
            Err(error) => failure(error, first.rest),
            Ok(statement) => if !shorter(advance(first.rest), tokens) {
                Parsed { result: Ok(seq![statement]), rest: advance(first.rest) }
            } else {
                let more = parse_block_statements(advance(first.rest));
                match more.result {
                    Ok(statements) => Parsed {
                        result: Ok(seq![statement] + statements),
                        rest: more.rest,
                    },
                    Err(error) => failure(error, more.rest),
                }
            },
        }
    }
}

/// A statement: `let`, `return`, or an expression.
pub open spec fn parse_statement(tokens: Seq<TokenModel>) -> Parsed<StmtModel>
    decreases tokens.len(), 8nat,
{
    if current_is(tokens, TokenKind::Let) {
        parse_let_statement(tokens)
    } else if current_is(tokens, TokenKind::Return) {
        parse_return_statement(tokens)
    } else {
        parse_expression_statement(tokens)
    }
}

/// `let`, a name, `=`, an expression, and a `;` if one follows.
pub open spec fn parse_let_statement(tokens: Seq<TokenModel>) -> Parsed<StmtModel>
    decreases tokens.len(), 7nat,
{
    if !peek_is(tokens, TokenKind::Ident) {
        failure(ParseError::ExpectedIdentifier, tokens)
    } else if !peek_is(advance(tokens), TokenKind::Assign) {
        failure(ParseError::ExpectedAssign, advance(tokens))
    } else {
        let bound = parse_expression(advance(advance(advance(tokens))), OperatorPrecedence::Lowest);
        match bound.result {
            Err(error) => failure(error, bound.rest),
            Ok(value) => Parsed {
                result: Ok(StmtModel::Let { name: tokens[1].val, value }),
                rest: skip_terminator(bound.rest),
            },
        }
    }
}

/// `return`, an expression, and a `;` if one follows.
pub open spec fn parse_return_statement(tokens: Seq<TokenModel>) -> Parsed<StmtModel>
    decreases tokens.len(), 7nat,
{
    if tokens.len() == 0 {
        failure(ParseError::UnexpectedEnd, tokens)
    } else {
        let returned = parse_expression(advance(tokens), OperatorPrecedence::Lowest);
        match returned.result {
            Err(error) => failure(error, returned.rest),
            Ok(value) => Parsed {
                result: Ok(StmtModel::Return { value }),
                rest: skip_terminator(returned.rest),
            },
        }
    }
}

/// An expression, and a `;` if one follows.
pub open spec fn parse_expression_statement(tokens: Seq<TokenModel>) -> Parsed<StmtModel>
    decreases tokens.len(), 7nat,
{
    let parsed = parse_expression(tokens, OperatorPrecedence::Lowest);
    match parsed.result {
        Err(error) => failure(error, parsed.rest),
        Ok(expression) => Parsed {
            result: Ok(StmtModel::Expression { expression }),
            rest: skip_terminator(parsed.rest),
        },
    }
}

/// The tokens behind the next `;`, the current token counted; none where no
/// `;` is left.
pub open spec fn synchronize(tokens: Seq<TokenModel>) -> Seq<TokenModel>
    decreases tokens.len(),
{
    if tokens.len() == 0 {
        tokens
    } else if tokens[0].kind == TokenKind::Semicolon {
        tokens.drop_first()
    } else {
        synchronize(tokens.drop_first())
    }
}

/// Where parsing goes on after the statement at the head of the tokens.
/// After a statement that parsed, that is one token behind its last token.
/// After a statement that failed, that is behind the next `;` from where it
/// failed, or the end of the text: what stands before belongs to the
/// statement that failed.
pub open spec fn resume(tokens: Seq<TokenModel>) -> Seq<TokenModel> {
    let first = parse_statement(tokens);
    match first.result {
        Ok(_) => advance(first.rest),
        Err(_) => synchronize(first.rest),
    }
}

/// A program: statements up to the end of the text. A statement that fails
/// leaves one error in place of a statement, and parsing goes on behind it.
pub open spec fn parse_program(tokens: Seq<TokenModel>) -> ProgramModel
    decreases tokens.len(),
{
    if tokens.len() == 0 {
        ProgramModel { statements: Seq::empty(), errors: Seq::empty() }
    } else {
        let first = parse_statement(tokens);
        let more = if shorter(resume(tokens), tokens) {
            parse_program(resume(tokens))
        } else {
            ProgramModel { statements: Seq::empty(), errors: Seq::empty() }
        };
        match first.result {
            Ok(statement) => ProgramModel {
                statements: seq![statement] + more.statements,
                errors: more.errors,
            },
            Err(error) => ProgramModel {
                statements: more.statements,
                errors: seq![error.message_spec()] + more.errors,
            },
        }
    }
}

/// Reading a parameter list adds no tokens.
pub proof fn lemma_more_params_bounded(tokens: Seq<TokenModel>)
    ensures
        parse_more_params(tokens).rest.len() <= tokens.len(),
    decreases tokens.len(),
{
    if peek_is(tokens, TokenKind::Comma) {
        let at_name = advance(advance(tokens));
        if current_is(at_name, TokenKind::Ident) {
            lemma_more_params_bounded(at_name);
        }
    }
}

/// Reading a parameter list adds no tokens.
pub proof fn lemma_func_params_bounded(tokens: Seq<TokenModel>)
    ensures
        parse_func_params(tokens).rest.len() <= tokens.len(),
{
    lemma_more_params_bounded(advance(tokens));
}

/// Parsing an expression adds no tokens.
pub proof fn lemma_expression_bounded(tokens: Seq<TokenModel>, precedence: OperatorPrecedence)
    ensures
        parse_expression(tokens, precedence).rest.len() <= tokens.len(),
    decreases tokens.len(), 5nat,
{
    if tokens.len() > 0 {
        lemma_prefix_bounded(tokens);
        let left = prefix_parse(tokens);
        if let Ok(expression) = left.result {
            lemma_infixes_bounded(expression, left.rest, precedence);
        }
    }
}

/// Parsing what the current token starts adds no tokens.
pub proof fn lemma_prefix_bounded(tokens: Seq<TokenModel>)
    ensures
        prefix_parse(tokens).rest.len() <= tokens.len(),
    decreases tokens.len(), 4nat,
{
    if tokens.len() > 0 {
        match tokens[0].kind {
            TokenKind::Bang => lemma_prefix_operator_bounded(tokens, Operator::Bang),
            TokenKind::Minus => lemma_prefix_operator_bounded(tokens, Operator::Minus),
            TokenKind::Lparen => lemma_grouped_bounded(tokens),
            TokenKind::Function => lemma_function_literal_bounded(tokens),
            TokenKind::If => lemma_if_bounded(tokens),
            _ => {},
        }
    }
}

/// Parsing a unary operator and its operand adds no tokens.
pub proof fn lemma_prefix_operator_bounded(tokens: Seq<TokenModel>, operator: Operator)
    ensures
        parse_prefix_operator(tokens, operator).rest.len() <= tokens.len(),
    decreases tokens.len(), 3nat,
{
    if tokens.len() > 0 {
        lemma_expression_bounded(advance(tokens), OperatorPrecedence::Prefix);
    }
}

/// Parsing a parenthesised expression adds no tokens.
pub proof fn lemma_grouped_bounded(tokens: Seq<TokenModel>)
    ensures
        parse_grouped(tokens).rest.len() <= tokens.len(),
    decreases tokens.len(), 3nat,
{
    if tokens.len() > 0 {
        lemma_expression_bounded(advance(tokens), OperatorPrecedence::Lowest);
    }
}

/// Parsing a function literal adds no tokens.
pub proof fn lemma_function_literal_bounded(tokens: Seq<TokenModel>)
    ensures
        parse_function_literal(tokens).rest.len() <= tokens.len(),
    decreases tokens.len(), 3nat,
{
    if peek_is(tokens, TokenKind::Lparen) {
        lemma_func_params_bounded(advance(tokens));
        let params = parse_func_params(advance(tokens));
        if params.result is Ok && peek_is(params.rest, TokenKind::Lbrace) {
            lemma_block_bounded(advance(params.rest));
        }
    }
}

/// Parsing an `if` adds no tokens.
pub proof fn lemma_if_bounded(tokens: Seq<TokenModel>)
    ensures
        parse_if(tokens).rest.len() <= tokens.len(),
    decreases tokens.len(), 3nat,
{
    if peek_is(tokens, TokenKind::Lparen) {
        lemma_expression_bounded(advance(tokens), OperatorPrecedence::Lowest);
        let test = parse_expression(advance(tokens), OperatorPrecedence::Lowest);
        if test.result is Ok && peek_is(test.rest, TokenKind::Lbrace) {
            lemma_block_bounded(advance(test.rest));
            let first = parse_block(advance(test.rest));
            if first.result is Ok && peek_is(first.rest, TokenKind::Else) && peek_is(
                advance(first.rest),
                TokenKind::Lbrace,
            ) {
                lemma_block_bounded(advance(advance(first.rest)));
            }
        }
    }
}

/// Continuing an expression adds no tokens.
pub proof fn lemma_infixes_bounded(
    left: ExprModel,
    tokens: Seq<TokenModel>,
    precedence: OperatorPrecedence,
)
    ensures
        parse_infixes(left, tokens, precedence).rest.len() <= tokens.len(),
    decreases tokens.len(), 3nat,
{
    if tokens.len() >= 2 {
        if let Some(operator) = Operator::of_kind(tokens[1].kind) {
            if OperatorPrecedence::of(operator).level() > precedence.level() {
                lemma_infix_bounded(left, tokens, operator);
                let next = infix_parse(left, tokens, operator);
                if let Ok(expression) = next.result {
                    if shorter(next.rest, tokens) {
                        lemma_infixes_bounded(expression, next.rest, precedence);
                    }
                }
            }
        }
    }
}

/// One continuation of an expression adds no tokens, and takes at least one
/// where it is a binary operator or a call.
pub proof fn lemma_infix_bounded(left: ExprModel, tokens: Seq<TokenModel>, operator: Operator)
    ensures
        infix_parse(left, tokens, operator).rest.len() <= tokens.len(),
        tokens.len() >= 2 && operator != Operator::Bang && infix_parse(
            left,
            tokens,
            operator,
        ).result is Ok ==> shorter(infix_parse(left, tokens, operator).rest, tokens),
    decreases tokens.len(), 2nat,
{
    if tokens.len() >= 2 {
        match operator {
            Operator::Bang => {},
            Operator::Lparen => {
                if left is Callable {
                    lemma_call_arguments_bounded(advance(tokens));
                }
            },
            _ => {
                lemma_expression_bounded(advance(advance(tokens)), OperatorPrecedence::of(operator));
            },
        }
    }
}

/// Parsing an argument list adds no tokens.
pub proof fn lemma_call_arguments_bounded(tokens: Seq<TokenModel>)
    ensures
        parse_call_arguments(tokens).rest.len() <= tokens.len(),
    decreases tokens.len(), 1nat,
{
    let inside = advance(tokens);
    if !current_is(inside, TokenKind::Rparen) && shorter(inside, tokens) {
        lemma_expression_bounded(inside, OperatorPrecedence::Lowest);
        let first = parse_expression(inside, OperatorPrecedence::Lowest);
        if first.result is Ok && shorter(first.rest, tokens) {
            lemma_more_arguments_bounded(first.rest);
        }
    }
}

/// Parsing the rest of an argument list adds no tokens.
pub proof fn lemma_more_arguments_bounded(tokens: Seq<TokenModel>)
    ensures
        parse_more_arguments(tokens).rest.len() <= tokens.len(),
    decreases tokens.len(), 0nat,
{
    if peek_is(tokens, TokenKind::Comma) {
        lemma_expression_bounded(advance(advance(tokens)), OperatorPrecedence::Lowest);
        let next = parse_expression(advance(advance(tokens)), OperatorPrecedence::Lowest);
        if next.result is Ok && shorter(next.rest, tokens) {
            lemma_more_arguments_bounded(next.rest);
        }
    }
}

/// Parsing a block adds no tokens.
pub proof fn lemma_block_bounded(tokens: Seq<TokenModel>)
    ensures
        parse_block(tokens).rest.len() <= tokens.len(),
    decreases tokens.len(), 10nat,
{
    lemma_block_statements_bounded(advance(tokens));
}

/// Parsing the statements of a block adds no tokens.
pub proof fn lemma_block_statements_bounded(tokens: Seq<TokenModel>)
    ensures
        parse_block_statements(tokens).rest.len() <= tokens.len(),
    decreases tokens.len(), 9nat,
{
    if !(tokens.len() == 0 || tokens[0].kind == TokenKind::Rbrace) {
        lemma_statement_bounded(tokens);
        let first = parse_statement(tokens);
        if first.result is Ok && shorter(advance(first.rest), tokens) {
            lemma_block_statements_bounded(advance(first.rest));
        }
    }
}

/// Parsing a statement adds no tokens.
pub proof fn lemma_statement_bounded(tokens: Seq<TokenModel>)
    ensures
        parse_statement(tokens).rest.len() <= tokens.len(),
    decreases tokens.len(), 8nat,
{
    if current_is(tokens, TokenKind::Let) {
        if peek_is(tokens, TokenKind::Ident) && peek_is(advance(tokens), TokenKind::Assign) {
            lemma_expression_bounded(advance(advance(advance(tokens))), OperatorPrecedence::Lowest);
        }
    } else if current_is(tokens, TokenKind::Return) {
        lemma_expression_bounded(advance(tokens), OperatorPrecedence::Lowest);
    } else {
        lemma_expression_bounded(tokens, OperatorPrecedence::Lowest);
    }
}

/// Stepping behind the next `;` adds no tokens, and takes at least one where
/// there is one.
pub proof fn lemma_synchronize_shorter(tokens: Seq<TokenModel>)
    ensures
        synchronize(tokens).len() <= tokens.len(),
        tokens.len() > 0 ==> shorter(synchronize(tokens), tokens),
    decreases tokens.len(),
{
    if tokens.len() > 0 && tokens[0].kind != TokenKind::Semicolon {
        lemma_synchronize_shorter(tokens.drop_first());
    }
}

/// After a statement, parsed or failed, parsing goes on with fewer tokens.
pub proof fn lemma_resume_shorter(tokens: Seq<TokenModel>)
    requires
        tokens.len() > 0,
    ensures
        shorter(resume(tokens), tokens),
{
    lemma_statement_bounded(tokens);
    lemma_synchronize_shorter(parse_statement(tokens).rest);
}

} // verus!
