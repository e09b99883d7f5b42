//! How far a statement reaches: a statement without a block never takes a
//! token behind the next `;`, whether it parses or fails.

use vstd::prelude::*;

use crate::ast::{ExprModel, Operator};
use crate::grammar::{
    advance, current_is, infix_parse, parse_call_arguments, parse_expression, parse_func_params,
    parse_function_literal, parse_grouped, parse_if, parse_infixes, parse_more_arguments,
    parse_more_params, parse_prefix_operator, parse_statement, peek_is, prefix_parse, shorter,
    skip_terminator, OperatorPrecedence,
};
use crate::token::{TokenKind, TokenModel};

verus! {

/// The number of tokens before the first `;`: all of them where there is
/// no `;`.
pub open spec fn reach(tokens: Seq<TokenModel>) -> nat
    decreases tokens.len(),
{
    if tokens.len() == 0 || tokens[0].kind == TokenKind::Semicolon {
        0
    } else {
        1 + reach(tokens.drop_first())
    }
}

/// Whether no `{` stands before the first `;`.
pub open spec fn flat(tokens: Seq<TokenModel>) -> bool {
    forall|i: int| 0 <= i < reach(tokens) ==> (#[trigger] tokens[i]).kind != TokenKind::Lbrace
}

/// Whether the current token is there and is no `;`.
pub open spec fn live(tokens: Seq<TokenModel>) -> bool {
    tokens.len() > 0 && tokens[0].kind != TokenKind::Semicolon
}

/// Whether `rest` is what is left of `tokens` after some of the tokens
/// before the first `;` were taken.
pub open spec fn within(rest: Seq<TokenModel>, tokens: Seq<TokenModel>) -> bool {
    &&& rest.len() <= tokens.len()
    &&& tokens.len() - rest.len() <= reach(tokens)
    &&& rest == tokens.skip(tokens.len() - rest.len())
}

/// Before the first `;` stands no `;`, and at its place stands one.
pub proof fn lemma_reach(tokens: Seq<TokenModel>)
    ensures
        reach(tokens) <= tokens.len(),
        forall|i: int| 0 <= i < reach(tokens) ==> (#[trigger] tokens[i]).kind != TokenKind::Semicolon,
        reach(tokens) < tokens.len() ==> tokens[reach(tokens) as int].kind == TokenKind::Semicolon,
    decreases tokens.len(),
{
    if !(tokens.len() == 0 || tokens[0].kind == TokenKind::Semicolon) {
        let tail = tokens.drop_first();
        lemma_reach(tail);
        assert forall|i: int| 0 <= i < reach(tokens) implies (#[trigger] tokens[i]).kind
            != TokenKind::Semicolon by {
            if i > 0 {
                assert(tokens[i] == tail[i - 1]);
            }
        }
        if reach(tokens) < tokens.len() {
            assert(tokens[reach(tokens) as int] == tail[reach(tail) as int]);
        }
    }
}

/// The place of the first `;` is the one place with no `;` before it and
/// one at it.
pub proof fn lemma_reach_is(tokens: Seq<TokenModel>, k: nat)
    requires
        k <= tokens.len(),
        forall|i: int| 0 <= i < k ==> (#[trigger] tokens[i]).kind != TokenKind::Semicolon,
        k < tokens.len() ==> tokens[k as int].kind == TokenKind::Semicolon,
    ensures
        reach(tokens) == k,
    decreases k,
{
    if k > 0 {
        let tail = tokens.drop_first();
        assert(tokens[0].kind != TokenKind::Semicolon);
        assert forall|i: int| 0 <= i < k - 1 implies (#[trigger] tail[i]).kind
            != TokenKind::Semicolon by {
            assert(tail[i] == tokens[i + 1]);
        }
        if k - 1 < tail.len() {
            assert(tail[k - 1] == tokens[k as int]);
        }
        lemma_reach_is(tail, (k - 1) as nat);
    }
}

/// Taking tokens before the first `;` brings it nearer by as many.
pub proof fn lemma_reach_skip(tokens: Seq<TokenModel>, taken: nat)
    requires
        taken <= reach(tokens),
    ensures
        reach(tokens.skip(taken as int)) == reach(tokens) - taken,
{
    lemma_reach(tokens);
    let rest = tokens.skip(taken as int);
    let k = (reach(tokens) - taken) as nat;
    assert forall|i: int| 0 <= i < k implies (#[trigger] rest[i]).kind != TokenKind::Semicolon by {
        assert(rest[i] == tokens[taken + i]);
    }
    if k < rest.len() {
        assert(rest[k as int] == tokens[reach(tokens) as int]);
    }
    lemma_reach_is(rest, k);
}

/// What is left of what is left is left.
pub proof fn lemma_within_chain(tokens: Seq<TokenModel>, mid: Seq<TokenModel>, rest: Seq<TokenModel>)
    requires
        within(mid, tokens),
        within(rest, mid),
    ensures
        within(rest, tokens),
{
    let first = (tokens.len() - mid.len()) as nat;
    let second = (mid.len() - rest.len()) as nat;
    lemma_reach_skip(tokens, first);
    assert(tokens.skip(first as int).skip(second as int) =~= tokens.skip((first + second) as int));
}

/// What is left holds no `{` before the first `;` either.
pub proof fn lemma_within_flat(tokens: Seq<TokenModel>, rest: Seq<TokenModel>)
    requires
        flat(tokens),
        within(rest, tokens),
    ensures
        flat(rest),
{
    let taken = (tokens.len() - rest.len()) as nat;
    lemma_reach_skip(tokens, taken);
    lemma_reach(tokens);
    assert forall|i: int| 0 <= i < reach(rest) implies (#[trigger] rest[i]).kind
        != TokenKind::Lbrace by {
        assert(rest[i] == tokens[taken + i]);
    }
}

/// Nothing taken is within.
pub proof fn lemma_within_self(tokens: Seq<TokenModel>)
    ensures
        within(tokens, tokens),
{
    assert(tokens.skip(0) =~= tokens);
}

/// A step from a token that is no `;` stays within, and finds no `{` where
/// none stands before the first `;`.
pub proof fn lemma_within_advance(tokens: Seq<TokenModel>)
    requires
        live(tokens),
    ensures
        within(advance(tokens), tokens),
        flat(tokens) ==> flat(advance(tokens)) && !current_is(advance(tokens), TokenKind::Lbrace)
            && tokens[0].kind != TokenKind::Lbrace,
{
    assert(tokens.drop_first() =~= tokens.skip(1));
    if flat(tokens) {
        lemma_within_flat(tokens, advance(tokens));
        lemma_reach(tokens);
        lemma_reach(advance(tokens));
        assert(tokens[0].kind != TokenKind::Lbrace);
        if advance(tokens).len() > 0 {
            assert(advance(tokens)[0] == tokens[1]);
            if reach(tokens) >= 2 {
                assert(tokens[1].kind != TokenKind::Lbrace);
            } else {
                assert(tokens[reach(tokens) as int].kind == TokenKind::Semicolon);
            }
        }
    }
}

/// Two steps from tokens that are no `;` stay within.
pub proof fn lemma_within_two(tokens: Seq<TokenModel>)
    requires
        live(tokens),
        tokens.len() >= 2,
        tokens[1].kind != TokenKind::Semicolon,
    ensures
        within(advance(advance(tokens)), tokens),
        flat(tokens) ==> flat(advance(advance(tokens))),
{
    let one = advance(tokens);
    lemma_within_advance(tokens);
    assert(one[0] == tokens[1]);
    lemma_within_advance(one);
    lemma_within_chain(tokens, one, advance(one));
}

/// Whether a step of the parser took no token behind the first `;` and,
/// where it parsed, left a token that is no `;` as the current one.
pub open spec fn stays<T>(parsed: crate::grammar::Parsed<T>, tokens: Seq<TokenModel>) -> bool {
    &&& within(parsed.rest, tokens)
    &&& parsed.result is Ok ==> live(parsed.rest)
}

/// The rest of a parameter list stays before the first `;`.
pub proof fn lemma_more_params_stays(tokens: Seq<TokenModel>)
    requires
        flat(tokens),
        live(tokens),
    ensures
        stays(parse_more_params(tokens), tokens),
    decreases tokens.len(),
{
    lemma_within_self(tokens);
    lemma_within_advance(tokens);
    if peek_is(tokens, TokenKind::Comma) {
        lemma_within_two(tokens);
        let at_name = advance(advance(tokens));
        if current_is(at_name, TokenKind::Ident) {
            lemma_more_params_stays(at_name);
            lemma_within_chain(tokens, at_name, parse_more_params(at_name).rest);
        }
    } else if peek_is(tokens, TokenKind::Rparen) {
        assert(advance(tokens)[0] == tokens[1]);
    }
}

/// A parameter list stays before the first `;`.
pub proof fn lemma_func_params_stays(tokens: Seq<TokenModel>)
    requires
        flat(tokens),
        live(tokens),
    ensures
        stays(parse_func_params(tokens), tokens),
{
    lemma_within_advance(tokens);
    let inside = advance(tokens);
    if !current_is(inside, TokenKind::Rparen) && current_is(inside, TokenKind::Ident) {
        lemma_more_params_stays(inside);
        lemma_within_chain(tokens, inside, parse_more_params(inside).rest);
    }
}

/// An expression stays before the first `;`.
pub proof fn lemma_expression_stays(tokens: Seq<TokenModel>, precedence: OperatorPrecedence)
    requires
        flat(tokens),
    ensures
        stays(parse_expression(tokens, precedence), tokens),
    decreases tokens.len(), 5nat,
{
    lemma_within_self(tokens);
    if tokens.len() > 0 {
        lemma_prefix_stays(tokens);
        let left = prefix_parse(tokens);
        if let Ok(expression) = left.result {
            lemma_within_flat(tokens, left.rest);
            lemma_infixes_stays(expression, left.rest, precedence);
            lemma_within_chain(
                tokens,
                left.rest,
                parse_infixes(expression, left.rest, precedence).rest,
            );
        }
    }
}

/// What the current token starts stays before the first `;`.
pub proof fn lemma_prefix_stays(tokens: Seq<TokenModel>)
    requires
        flat(tokens),
        tokens.len() > 0,
    ensures
        stays(prefix_parse(tokens), tokens),
    decreases tokens.len(), 4nat,
{
    lemma_within_self(tokens);
    match tokens[0].kind {
        TokenKind::Bang => lemma_prefix_operator_stays(tokens, Operator::Bang),
        TokenKind::Minus => lemma_prefix_operator_stays(tokens, Operator::Minus),
        TokenKind::Lparen => lemma_grouped_stays(tokens),
        TokenKind::Function => lemma_function_literal_stays(tokens),
        TokenKind::If => lemma_if_stays(tokens),
        _ => {},
    }
}

/// A unary operator and its operand stay before the first `;`.
pub proof fn lemma_prefix_operator_stays(tokens: Seq<TokenModel>, operator: Operator)
    requires
        flat(tokens),
        live(tokens),
    ensures
        stays(parse_prefix_operator(tokens, operator), tokens),
    decreases tokens.len(), 3nat,
{
    lemma_within_advance(tokens);
    lemma_expression_stays(advance(tokens), OperatorPrecedence::Prefix);
    lemma_within_chain(
        tokens,
        advance(tokens),
        parse_expression(advance(tokens), OperatorPrecedence::Prefix).rest,
    );
}

/// An expression in parentheses stays before the first `;`.
pub proof fn lemma_grouped_stays(tokens: Seq<TokenModel>)
    requires
        flat(tokens),
        live(tokens),
    ensures
        stays(parse_grouped(tokens), tokens),
    decreases tokens.len(), 3nat,
{
    lemma_within_advance(tokens);
    lemma_expression_stays(advance(tokens), OperatorPrecedence::Lowest);
    let inner = parse_expression(advance(tokens), OperatorPrecedence::Lowest);
    lemma_within_chain(tokens, advance(tokens), inner.rest);
    if inner.result is Ok && peek_is(inner.rest, TokenKind::Rparen) {
        lemma_within_advance(inner.rest);
        lemma_within_chain(tokens, inner.rest, advance(inner.rest));
        assert(advance(inner.rest)[0] == inner.rest[1]);
    }
}

/// Without a `{` before the first `;` a function literal fails before it.
pub proof fn lemma_function_literal_stays(tokens: Seq<TokenModel>)
    requires
        flat(tokens),
        live(tokens),
    ensures
        stays(parse_function_literal(tokens), tokens),
        parse_function_literal(tokens).result is Err,
    decreases tokens.len(), 3nat,
{
    lemma_within_self(tokens);
    if peek_is(tokens, TokenKind::Lparen) {
        lemma_within_advance(tokens);
        let inside = advance(tokens);
        assert(inside[0] == tokens[1]);
        lemma_func_params_stays(inside);
        let params = parse_func_params(inside);
        lemma_within_chain(tokens, inside, params.rest);
        if params.result is Ok {
            lemma_within_flat(tokens, params.rest);
            lemma_within_advance(params.rest);
        }
    }
}

/// Without a `{` before the first `;` an `if` fails before it.
pub proof fn lemma_if_stays(tokens: Seq<TokenModel>)
    requires
        flat(tokens),
        live(tokens),
    ensures
        stays(parse_if(tokens), tokens),
        parse_if(tokens).result is Err,
    decreases tokens.len(), 3nat,
{
    lemma_within_self(tokens);
    if peek_is(tokens, TokenKind::Lparen) {
        lemma_within_advance(tokens);
        let inside = advance(tokens);
        lemma_expression_stays(inside, OperatorPrecedence::Lowest);
        let test = parse_expression(inside, OperatorPrecedence::Lowest);
        lemma_within_chain(tokens, inside, test.rest);
        if test.result is Ok {
            lemma_within_flat(tokens, test.rest);
            lemma_within_advance(test.rest);
        }
    }
}

/// The continuation of an expression stays before the first `;`.
pub proof fn lemma_infixes_stays(
    left: ExprModel,
    tokens: Seq<TokenModel>,
    precedence: OperatorPrecedence,
)
    requires
        flat(tokens),
        live(tokens),
    ensures
        stays(parse_infixes(left, tokens, precedence), tokens),
    decreases tokens.len(), 3nat,
{
    lemma_within_self(tokens);
    if tokens.len() >= 2 {
        if let Some(operator) = Operator::of_kind(tokens[1].kind) {
            if OperatorPrecedence::of(operator).level() > precedence.level() {
                lemma_infix_stays(left, tokens, operator);
                let next = infix_parse(left, tokens, operator);
                if let Ok(expression) = next.result {
                    if shorter(next.rest, tokens) {
                        lemma_within_flat(tokens, next.rest);
                        lemma_infixes_stays(expression, next.rest, precedence);
                        lemma_within_chain(
                            tokens,
                            next.rest,
                            parse_infixes(expression, next.rest, precedence).rest,
                        );
                    }
                }
            }
        }
    }
}

/// One continuation of an expression stays before the first `;`.
pub proof fn lemma_infix_stays(left: ExprModel, tokens: Seq<TokenModel>, operator: Operator)
    requires
        flat(tokens),
        live(tokens),
        tokens.len() >= 2,
        Operator::of_kind(tokens[1].kind) == Some(operator),
    ensures
        stays(infix_parse(left, tokens, operator), tokens),
    decreases tokens.len(), 2nat,
{
    lemma_within_self(tokens);
    lemma_within_advance(tokens);
    match operator {
        Operator::Bang => {},
        Operator::Lparen => {
            if left is Callable {
                let inside = advance(tokens);
                assert(inside[0] == tokens[1]);
                lemma_call_arguments_stays(inside);
                lemma_within_chain(tokens, inside, parse_call_arguments(inside).rest);
            }
        },
        _ => {
            lemma_within_two(tokens);
            let operand = advance(advance(tokens));
            lemma_expression_stays(operand, OperatorPrecedence::of(operator));
            lemma_within_chain(
                tokens,
                operand,
                parse_expression(operand, OperatorPrecedence::of(operator)).rest,
            );
        },
    }
}

/// An argument list stays before the first `;`.
pub proof fn lemma_call_arguments_stays(tokens: Seq<TokenModel>)
    requires
        flat(tokens),
        live(tokens),
    ensures
        stays(parse_call_arguments(tokens), tokens),
    decreases tokens.len(), 1nat,
{
    lemma_within_advance(tokens);
    let inside = advance(tokens);
    if !current_is(inside, TokenKind::Rparen) && shorter(inside, tokens) {
        lemma_expression_stays(inside, OperatorPrecedence::Lowest);
        let first = parse_expression(inside, OperatorPrecedence::Lowest);
        lemma_within_chain(tokens, inside, first.rest);
        if first.result is Ok && shorter(first.rest, tokens) {
            lemma_within_flat(tokens, first.rest);
            lemma_more_arguments_stays(first.rest);
            lemma_within_chain(tokens, first.rest, parse_more_arguments(first.rest).rest);
        }
    }
}

/// The rest of an argument list stays before the first `;`.
pub proof fn lemma_more_arguments_stays(tokens: Seq<TokenModel>)
    requires
        flat(tokens),
        live(tokens),
    ensures
        stays(parse_more_arguments(tokens), tokens),
    decreases tokens.len(), 0nat,
{
    lemma_within_self(tokens);
    lemma_within_advance(tokens);
    if peek_is(tokens, TokenKind::Comma) {
        lemma_within_two(tokens);
        let operand = advance(advance(tokens));
        lemma_expression_stays(operand, OperatorPrecedence::Lowest);
        let next = parse_expression(operand, OperatorPrecedence::Lowest);
        lemma_within_chain(tokens, operand, next.rest);
        if next.result is Ok && shorter(next.rest, tokens) {
            lemma_within_flat(tokens, next.rest);
            lemma_more_arguments_stays(next.rest);
            lemma_within_chain(tokens, next.rest, parse_more_arguments(next.rest).rest);
        }
    } else if peek_is(tokens, TokenKind::Rparen) {
        assert(advance(tokens)[0] == tokens[1]);
    }
}

/// Behind an expression, a step over the `;` that follows stays within.
pub proof fn lemma_terminator_stays(tokens: Seq<TokenModel>, rest: Seq<TokenModel>)
    requires
        within(rest, tokens),
        live(rest),
    ensures
        within(skip_terminator(rest), tokens),
{
    if peek_is(rest, TokenKind::Semicolon) {
        lemma_within_advance(rest);
        lemma_within_chain(tokens, rest, advance(rest));
    }
}

/// A statement without a `{` before the first `;` takes no token behind
/// that `;`, whether it parses or fails.
pub proof fn lemma_statement_stays(tokens: Seq<TokenModel>)
    requires
        flat(tokens),
    ensures
        within(parse_statement(tokens).rest, tokens),
{
    lemma_within_self(tokens);
    let lowest = OperatorPrecedence::Lowest;
    if current_is(tokens, TokenKind::Let) {
        lemma_within_advance(tokens);
        if peek_is(tokens, TokenKind::Ident) && peek_is(advance(tokens), TokenKind::Assign) {
            let one = advance(tokens);
            assert(one[0] == tokens[1]);
            lemma_within_two(one);
            let value = advance(advance(one));
            lemma_within_chain(tokens, one, value);
            lemma_within_flat(tokens, value);
            lemma_expression_stays(value, lowest);
            let bound = parse_expression(value, lowest);
            lemma_within_chain(tokens, value, bound.rest);
            if bound.result is Ok {
                lemma_terminator_stays(tokens, bound.rest);
            }
        }
    } else if current_is(tokens, TokenKind::Return) {
        lemma_within_advance(tokens);
        let value = advance(tokens);
        lemma_expression_stays(value, lowest);
        let returned = parse_expression(value, lowest);
        lemma_within_chain(tokens, value, returned.rest);
        if returned.result is Ok {
            lemma_terminator_stays(tokens, returned.rest);
        }
    } else {
        lemma_expression_stays(tokens, lowest);
        let parsed = parse_expression(tokens, lowest);
        if parsed.result is Ok {
            lemma_terminator_stays(tokens, parsed.rest);
        }
    }
}

} // verus!
