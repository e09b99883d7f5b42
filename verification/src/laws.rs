//! What holds of the whole pipeline, from source text to result.

use vstd::prelude::*;

use crate::ast::{CallableModel, ExprModel, Operator, ProgramModel, StmtModel};
use crate::environment::EnvModel;
use crate::error::EvalErrorModel;
use crate::grammar::{
    advance, infix_parse, lemma_resume_shorter, parse_expression, parse_expression_statement,
    parse_infixes,
    parse_prefix_operator, parse_program, parse_statement, prefix_parse, resume, shorter,
    skip_terminator, synchronize, OperatorPrecedence, ParseError,
};
use crate::lexer::{
    digits_end, is_alphabetic, is_space, lemma_run_bounds, letters_end, skip_spaces, token_at,
    token_end, token_kind, tokens, tokens_from, word_kind,
};
use crate::object::ObjectModel;
use crate::recovery::{lemma_reach_is, lemma_statement_stays, reach};
use crate::repl::run;
use crate::semantics::{
    eval_arguments, eval_block, eval_expression, eval_program, eval_sequence, eval_statement,
    Outcome,
};
use crate::text::{
    all_digits, decimal, decimal_nat, digit_char, digit_value, digits_value, integer_of,
    is_decimal_digit,
};
use crate::token::{TokenKind, TokenModel};

verus! {

/// The program without statements and errors.
pub open spec fn nothing() -> ProgramModel {
    ProgramModel { statements: Seq::empty(), errors: Seq::empty() }
}

/// The digits of a natural number are at least one, are digits, and stand
/// for the number.
pub proof fn lemma_decimal_digits(n: nat)
    ensures
        decimal_nat(n).len() > 0,
        all_digits(decimal_nat(n)),
        digits_value(decimal_nat(n)) == n,
    decreases n,
{
    if n < 10 {
        let s = decimal_nat(n);
        assert(s.drop_last() =~= Seq::<char>::empty());
        assert(digits_value(s.drop_last()) == 0);
        assert(digit_value(s.last()) == n);
    } else {
        lemma_decimal_digits(n / 10);
        let s = decimal_nat(n);
        let head = decimal_nat(n / 10);
        assert(s.drop_last() =~= head);
        assert(s.last() == digit_char(n % 10));
        assert forall|i: int| 0 <= i < s.len() implies is_decimal_digit(#[trigger] s[i]) by {
            if i < head.len() {
                assert(s[i] == head[i]);
            }
        }
    }
}

/// A run of digits that reaches the end of the text ends there.
proof fn lemma_digits_run(s: Seq<char>, pos: nat)
    requires
        pos <= s.len(),
        forall|i: int| pos <= i < s.len() ==> is_decimal_digit(#[trigger] s[i]),
    ensures
        digits_end(s, pos) == s.len(),
    decreases s.len() - pos,
{
    if pos < s.len() {
        lemma_digits_run(s, pos + 1);
    }
}

/// What stands within a run of digits is a digit.
proof fn lemma_digits_within(s: Seq<char>, pos: nat, i: int)
    requires
        pos <= i < digits_end(s, pos),
    ensures
        i < s.len(),
        is_decimal_digit(s[i]),
    decreases s.len() - pos,
{
    if pos < s.len() && is_decimal_digit(s[pos as int]) && i > pos {
        lemma_digits_within(s, pos + 1, i);
    }
}

/// What stands within a run of alphabetic characters is alphabetic.
proof fn lemma_letters_within(s: Seq<char>, pos: nat, i: int)
    requires
        pos <= i < letters_end(s, pos),
    ensures
        i < s.len(),
        is_alphabetic(s[i]),
    decreases s.len() - pos,
{
    if pos < s.len() && is_alphabetic(s[pos as int]) && i > pos {
        lemma_letters_within(s, pos + 1, i);
    }
}

/// Whether a kind is that of a word: an identifier or one of the keywords.
pub open spec fn is_word(kind: TokenKind) -> bool {
    ||| kind == TokenKind::Ident
    ||| kind == TokenKind::Let
    ||| kind == TokenKind::Function
    ||| kind == TokenKind::True
    ||| kind == TokenKind::False
    ||| kind == TokenKind::If
    ||| kind == TokenKind::Else
    ||| kind == TokenKind::Return
}

/// The text of a token is never empty, and no token marks a string or the
/// end of the text. The text of an integer consists of digits, so that the
/// only integer literal that fails to parse is one that is too large; the
/// text of a word consists of alphabetic characters, and is an identifier
/// unless it is one of the keywords.
pub proof fn law_token_texts(s: Seq<char>, pos: nat)
    requires
        pos < s.len(),
    ensures
        token_at(s, pos).val.len() > 0,
        token_at(s, pos).kind != TokenKind::String,
        token_at(s, pos).kind != TokenKind::Eof,
        token_at(s, pos).kind == TokenKind::Int ==> all_digits(token_at(s, pos).val) && (
        integer_of(token_at(s, pos).val) is None ==> digits_value(token_at(s, pos).val)
            > i64::MAX),
        is_word(token_at(s, pos).kind) ==> token_at(s, pos).kind == word_kind(token_at(s, pos).val)
            && forall|i: int|
            0 <= i < token_at(s, pos).val.len() ==> is_alphabetic(
                #[trigger] token_at(s, pos).val[i],
            ),
{
    lemma_run_bounds(s, pos);
    let token = token_at(s, pos);
    if token.kind == TokenKind::Int {
        assert forall|i: int| 0 <= i < token.val.len() implies is_decimal_digit(
            #[trigger] token.val[i],
        ) by {
            lemma_digits_within(s, pos, pos + i);
        }
    }
    if is_word(token.kind) {
        assert forall|i: int| 0 <= i < token.val.len() implies is_alphabetic(
            #[trigger] token.val[i],
        ) by {
            lemma_letters_within(s, pos, pos + i);
        }
    }
}

/// A run of digits that reaches the end of the text is one token, an
/// integer.
pub proof fn lemma_lex_number(s: Seq<char>, pos: nat)
    requires
        pos < s.len(),
        forall|i: int| pos <= i < s.len() ==> is_decimal_digit(#[trigger] s[i]),
    ensures
        tokens_from(s, pos) == seq![
            TokenModel { kind: TokenKind::Int, val: s.subrange(pos as int, s.len() as int) },
        ],
{
    lemma_digits_run(s, pos);
    assert(is_decimal_digit(s[pos as int]));
    assert(skip_spaces(s, pos) == pos);
    assert(token_kind(s, pos) == TokenKind::Int);
    assert(token_end(s, pos) == s.len());
    assert(skip_spaces(s, s.len()) == s.len());
    assert(tokens_from(s, s.len()) =~= Seq::<TokenModel>::empty());
    assert(tokens_from(s, pos) =~= seq![token_at(s, pos)]);
}

/// A text of separators alone holds no token.
pub proof fn lemma_lex_blank(s: Seq<char>, pos: nat)
    requires
        pos <= s.len(),
        forall|i: int| pos <= i < s.len() ==> is_space(#[trigger] s[i]),
    ensures
        skip_spaces(s, pos) == s.len(),
        tokens_from(s, pos) == Seq::<TokenModel>::empty(),
    decreases s.len() - pos,
{
    if pos < s.len() {
        lemma_lex_blank(s, pos + 1);
    }
}

/// A single integer literal is a program of one statement.
pub proof fn lemma_parse_number(digits: Seq<char>, value: i64)
    requires
        integer_of(digits) == Some(value),
    ensures
        parse_program(seq![TokenModel { kind: TokenKind::Int, val: digits }]) == (ProgramModel {
            statements: seq![
                StmtModel::Expression { expression: ExprModel::IntegerLiteral { value } },
            ],
            errors: Seq::empty(),
        }),
{
    let tokens = seq![TokenModel { kind: TokenKind::Int, val: digits }];
    let literal = ExprModel::IntegerLiteral { value };
    assert(prefix_parse(tokens).result == Ok::<ExprModel, ParseError>(literal));
    assert(prefix_parse(tokens).rest == tokens);
    assert(parse_infixes(literal, tokens, OperatorPrecedence::Lowest).rest == tokens);
    assert(parse_expression(tokens, OperatorPrecedence::Lowest).rest == tokens);
    assert(skip_terminator(tokens) == tokens);
    assert(parse_statement(tokens).rest == tokens);
    assert(resume(tokens) =~= Seq::<TokenModel>::empty());
    assert(parse_program(resume(tokens)) == nothing());
    let program = parse_program(tokens);
    assert(program.statements =~= seq![StmtModel::Expression { expression: literal }]);
    assert(program.errors =~= Seq::<Seq<char>>::empty());
}

/// A minus sign before an integer literal is a program of one statement.
pub proof fn lemma_parse_negative_number(sign: Seq<char>, digits: Seq<char>, value: i64)
    requires
        integer_of(digits) == Some(value),
    ensures
        parse_program(
            seq![
                TokenModel { kind: TokenKind::Minus, val: sign },
                TokenModel { kind: TokenKind::Int, val: digits },
            ],
        ) == (ProgramModel {
            statements: seq![
                StmtModel::Expression {
                    expression: ExprModel::Prefix {
                        operator: Operator::Minus,
                        right: Box::new(ExprModel::IntegerLiteral { value }),
                    },
                },
            ],
            errors: Seq::empty(),
        }),
{
    let number = TokenModel { kind: TokenKind::Int, val: digits };
    let tokens = seq![TokenModel { kind: TokenKind::Minus, val: sign }, number];
    let inner = seq![number];
    let literal = ExprModel::IntegerLiteral { value };
    let negated = ExprModel::Prefix { operator: Operator::Minus, right: Box::new(literal) };
    assert(advance(tokens) =~= inner);
    assert(prefix_parse(inner).result == Ok::<ExprModel, ParseError>(literal));
    assert(prefix_parse(inner).rest == inner);
    assert(parse_infixes(literal, inner, OperatorPrecedence::Prefix).rest == inner);
    assert(parse_expression(inner, OperatorPrecedence::Prefix).rest == inner);
    assert(parse_expression(inner, OperatorPrecedence::Prefix).result == Ok::<
        ExprModel,
        ParseError,
    >(literal));
    assert(parse_prefix_operator(tokens, Operator::Minus).rest == inner);
    assert(prefix_parse(tokens).rest == inner);
    assert(prefix_parse(tokens).result == Ok::<ExprModel, ParseError>(negated));
    assert(parse_infixes(negated, inner, OperatorPrecedence::Lowest).rest == inner);
    assert(parse_expression(tokens, OperatorPrecedence::Lowest).rest == inner);
    assert(skip_terminator(inner) == inner);
    assert(parse_expression_statement(tokens).rest == inner);
    assert(parse_statement(tokens).rest == inner);
    assert(resume(tokens) =~= Seq::<TokenModel>::empty());
    assert(parse_program(resume(tokens)) == nothing());
    let program = parse_program(tokens);
    assert(program.statements =~= seq![StmtModel::Expression { expression: negated }]);
    assert(program.errors =~= Seq::<Seq<char>>::empty());
}

/// Evaluating the decimal literal of a 64-bit integer yields that integer,
/// in any environment, which it leaves as it was. The least 64-bit integer
/// is left out: its digits alone stand for a number that does not fit.
pub proof fn law_integer_literal(n: i64, env: EnvModel, depth: nat)
    requires
        n != i64::MIN,
    ensures
        parse_program(tokens(decimal(n as int))).errors.len() == 0,
        run(decimal(n as int), env, depth) == (Outcome {
            result: Ok(ObjectModel::Integer { value: n }),
            env,
        }),
{
    let source = decimal(n as int);
    if n >= 0 {
        lemma_decimal_digits(n as nat);
        lemma_lex_number(source, 0);
        assert(source.subrange(0, source.len() as int) =~= source);
        lemma_parse_number(source, n);
        let program = parse_program(tokens(source));
        let statement = StmtModel::Expression {
            expression: ExprModel::IntegerLiteral { value: n },
        };
        assert(program.statements[0] == statement);
        assert(eval_sequence(program.statements, 0, env, depth) == eval_statement(
            statement,
            env,
            depth,
        ));
    } else {
        let magnitude = (-n) as nat;
        let digits = decimal_nat(magnitude);
        lemma_decimal_digits(magnitude);
        assert(source =~= seq!['-'] + digits);
        assert(source[0] == '-');
        assert forall|i: int| 1 <= i < source.len() implies is_decimal_digit(#[trigger] source[i]) by {
            assert(source[i] == digits[i - 1]);
        }
        lemma_lex_number(source, 1);
        assert(source.subrange(1, source.len() as int) =~= digits);
        assert(skip_spaces(source, 0) == 0);
        assert(token_kind(source, 0) == TokenKind::Minus);
        assert(token_end(source, 0) == 1);
        let sign = source.subrange(0, 1);
        assert(tokens(source) =~= seq![
            TokenModel { kind: TokenKind::Minus, val: sign },
            TokenModel { kind: TokenKind::Int, val: digits },
        ]);
        lemma_parse_negative_number(sign, digits, magnitude as i64);
        let program = parse_program(tokens(source));
        let literal = ExprModel::IntegerLiteral { value: magnitude as i64 };
        let statement = StmtModel::Expression {
            expression: ExprModel::Prefix { operator: Operator::Minus, right: Box::new(literal) },
        };
        assert(program.statements[0] == statement);
        assert(eval_expression(literal, env, depth).result == Ok::<ObjectModel, EvalErrorModel>(
            ObjectModel::Integer { value: magnitude as i64 },
        ));
        assert(eval_sequence(program.statements, 0, env, depth) == eval_statement(
            statement,
            env,
            depth,
        ));
    }
}

/// A submission without any token parses without errors to a program
/// without statements, and that program fails to evaluate with the error
/// for empty statements, in any environment.
pub proof fn law_blank_submission(source: Seq<char>, env: EnvModel, depth: nat)
    requires
        forall|i: int| 0 <= i < source.len() ==> is_space(#[trigger] source[i]),
    ensures
        parse_program(tokens(source)) == nothing(),
        run(source, env, depth) == (Outcome { result: Err(EvalErrorModel::EmptyStatements), env }),
        EvalErrorModel::EmptyStatements.message() == "empty statements"@,
{
    lemma_lex_blank(source, 0);
}

/// Whether none of the tokens is a `;`.
pub open spec fn no_terminator(tokens: Seq<TokenModel>) -> bool {
    forall|i: int| 0 <= i < tokens.len() ==> (#[trigger] tokens[i]).kind != TokenKind::Semicolon
}

/// Behind tokens without a `;` and the `;` that follows them.
pub proof fn lemma_synchronize(gap: Seq<TokenModel>, terminator: TokenModel, behind: Seq<TokenModel>)
    requires
        no_terminator(gap),
        terminator.kind == TokenKind::Semicolon,
    ensures
        synchronize(gap + seq![terminator] + behind) == behind,
    decreases gap.len(),
{
    let tokens = gap + seq![terminator] + behind;
    if gap.len() == 0 {
        assert(tokens[0] == terminator);
        assert(tokens.drop_first() =~= behind);
    } else {
        assert(tokens[0] == gap[0]);
        assert(tokens.drop_first() =~= gap.drop_first() + seq![terminator] + behind);
        assert forall|i: int| 0 <= i < gap.drop_first().len() implies (
        #[trigger] gap.drop_first()[i]).kind != TokenKind::Semicolon by {
            assert(gap.drop_first()[i] == gap[i + 1]);
        }
        lemma_synchronize(gap.drop_first(), terminator, behind);
    }
}

/// A statement that fails costs one error and nothing else: where it fails
/// with a `;` still to come, the program is that error and the program of
/// what stands behind the `;`.
pub proof fn law_recovery_step(
    tokens: Seq<TokenModel>,
    gap: Seq<TokenModel>,
    terminator: TokenModel,
    behind: Seq<TokenModel>,
)
    requires
        tokens.len() > 0,
        parse_statement(tokens).result is Err,
        parse_statement(tokens).rest == gap + seq![terminator] + behind,
        no_terminator(gap),
        terminator.kind == TokenKind::Semicolon,
    ensures
        parse_program(tokens).statements == parse_program(behind).statements,
        parse_program(tokens).errors == seq![
            parse_statement(tokens).result->Err_0.message_spec(),
        ] + parse_program(behind).errors,
{
    lemma_resume_shorter(tokens);
    lemma_synchronize(gap, terminator, behind);
    assert(resume(tokens) == behind);
}

/// One malformed statement, a `;`, and one well-formed statement that ends
/// the text: the program holds exactly one error, that of the malformed
/// statement, and exactly the well-formed statement. Here the malformed
/// statement may hold blocks, and with them a `;`: it is told from what
/// follows by where it fails, which is at the `at`-th token of `malformed`,
/// or at the `;` behind it, with no `;` between.
pub proof fn law_recovery_at(
    malformed: Seq<TokenModel>,
    terminator: TokenModel,
    wellformed: Seq<TokenModel>,
    at: int,
)
    requires
        terminator.kind == TokenKind::Semicolon,
        0 <= at <= malformed.len(),
        no_terminator(malformed.skip(at)),
        parse_statement(malformed + seq![terminator] + wellformed).result is Err,
        parse_statement(malformed + seq![terminator] + wellformed).rest == malformed.skip(at)
            + seq![terminator] + wellformed,
        parse_statement(wellformed).result is Ok,
        resume(wellformed).len() == 0,
    ensures
        parse_program(malformed + seq![terminator] + wellformed).errors == seq![
            parse_statement(
                malformed + seq![terminator] + wellformed,
            ).result->Err_0.message_spec(),
        ],
        parse_program(malformed + seq![terminator] + wellformed).statements == seq![
            parse_statement(wellformed).result->Ok_0,
        ],
{
    let tokens = malformed + seq![terminator] + wellformed;
    law_recovery_step(tokens, malformed.skip(at), terminator, wellformed);
    assert(wellformed.len() > 0);
    lemma_resume_shorter(wellformed);
    assert(parse_program(resume(wellformed)) == nothing());
    let tail = parse_program(wellformed);
    assert(tail.statements =~= seq![parse_statement(wellformed).result->Ok_0]);
    assert(tail.errors =~= Seq::<Seq<char>>::empty());
    assert(parse_program(tokens).errors =~= seq![
        parse_statement(tokens).result->Err_0.message_spec(),
    ]);
}

/// Whether none of the tokens is a `;` or a `{`: whether the tokens can be
/// one statement without a block.
pub open spec fn plain(tokens: Seq<TokenModel>) -> bool {
    forall|i: int|
        0 <= i < tokens.len() ==> (#[trigger] tokens[i]).kind != TokenKind::Semicolon
            && tokens[i].kind != TokenKind::Lbrace
}

/// A malformed statement without a block, a `;`, and anything behind it:
/// the program is the one error of the malformed statement and the program
/// of what stands behind the `;`. So where a well-formed statement stands
/// there and ends the text, the program holds exactly one error and exactly
/// that statement.
pub proof fn law_recovery(
    malformed: Seq<TokenModel>,
    terminator: TokenModel,
    behind: Seq<TokenModel>,
)
    requires
        plain(malformed),
        terminator.kind == TokenKind::Semicolon,
        parse_statement(malformed + seq![terminator] + behind).result is Err,
    ensures
        parse_program(malformed + seq![terminator] + behind).statements == parse_program(
            behind,
        ).statements,
        parse_program(malformed + seq![terminator] + behind).errors == seq![
            parse_statement(malformed + seq![terminator] + behind).result->Err_0.message_spec(),
        ] + parse_program(behind).errors,
        parse_statement(behind).result is Ok && resume(behind).len() == 0 ==> {
            &&& parse_program(malformed + seq![terminator] + behind).errors.len() == 1
            &&& parse_program(malformed + seq![terminator] + behind).statements == seq![
                parse_statement(behind).result->Ok_0,
            ]
        },
{
    let tokens = malformed + seq![terminator] + behind;
    let split = malformed.len();
    assert forall|i: int| 0 <= i < split implies (#[trigger] tokens[i]).kind
        != TokenKind::Semicolon by {
        assert(tokens[i] == malformed[i]);
    }
    assert(tokens[split as int] == terminator);
    lemma_reach_is(tokens, split);
    assert forall|i: int| 0 <= i < reach(tokens) implies (#[trigger] tokens[i]).kind
        != TokenKind::Lbrace by {
        assert(tokens[i] == malformed[i]);
    }
    lemma_statement_stays(tokens);
    let rest = parse_statement(tokens).rest;
    let at = tokens.len() - rest.len();
    assert(rest =~= malformed.skip(at) + seq![terminator] + behind);
    assert forall|i: int| 0 <= i < malformed.skip(at).len() implies (
    #[trigger] malformed.skip(at)[i]).kind != TokenKind::Semicolon by {
        assert(malformed.skip(at)[i] == malformed[at + i]);
    }
    law_recovery_step(tokens, malformed.skip(at), terminator, behind);
    if parse_statement(behind).result is Ok && resume(behind).len() == 0 {
        law_recovery_at(malformed, terminator, behind, at);
    }
}

/// Every token is the start of at most one statement or error: a program
/// holds no more statements and errors than there were tokens.
pub proof fn law_program_size(tokens: Seq<TokenModel>)
    ensures
        parse_program(tokens).statements.len() + parse_program(tokens).errors.len()
            <= tokens.len(),
    decreases tokens.len(),
{
    if tokens.len() > 0 {
        lemma_resume_shorter(tokens);
        law_program_size(resume(tokens));
    }
}

/// A name that was bound resolves to what it was bound to, and every other
/// name resolves as before. A binding in a scope shadows the enclosing
/// scopes and leaves them as they were; a fresh scope resolves every name
/// as the scope that encloses it.
pub proof fn law_scopes(env: EnvModel, name: Seq<char>, value: ObjectModel, other: Seq<char>)
    ensures
        env.bind(name, value).lookup(name) == Some(value),
        other != name ==> env.bind(name, value).lookup(other) == env.lookup(other),
        env.bind(name, value).outer == env.outer,
        EnvModel::child_of(env).lookup(other) == env.lookup(other),
        EnvModel::child_of(env).bind(name, value).outer == Some(Box::new(env)),
        EnvModel::empty().lookup(other) is None,
{
    reveal_with_fuel(EnvModel::lookup, 2);
}

/// Whether a token is an operand by itself: a name, a boolean, or an
/// integer that fits.
pub open spec fn is_atom(token: TokenModel) -> bool {
    ||| token.kind == TokenKind::Ident
    ||| token.kind == TokenKind::True
    ||| token.kind == TokenKind::False
    ||| token.kind == TokenKind::Int && integer_of(token.val) is Some
}

/// The expression that an operand by itself is.
pub open spec fn atom(token: TokenModel) -> ExprModel
    recommends
        is_atom(token),
{
    if token.kind == TokenKind::Ident {
        ExprModel::Callable { callable: CallableModel::Identifier { name: token.val } }
    } else if token.kind == TokenKind::Int {
        ExprModel::IntegerLiteral { value: integer_of(token.val).unwrap() }
    } else {
        ExprModel::BooleanLiteral { value: token.kind == TokenKind::True }
    }
}

/// The binary operator that a token is, if it is one.
pub open spec fn binary(token: TokenModel) -> Option<Operator> {
    match Operator::of_kind(token.kind) {
        Some(Operator::Bang) => None,
        Some(Operator::Lparen) => None,
        other => other,
    }
}

/// An expression of two operands and one operator.
pub open spec fn pair(left: ExprModel, operator: Operator, right: ExprModel) -> ExprModel {
    ExprModel::Infix { left: Box::new(left), operator, right: Box::new(right) }
}

/// A single operand is an expression by itself.
proof fn lemma_parse_last_atom(token: TokenModel, precedence: OperatorPrecedence)
    requires
        is_atom(token),
    ensures
        parse_expression(seq![token], precedence).result == Ok::<
            ExprModel,
            ParseError,
        >(atom(token)),
        parse_expression(seq![token], precedence).rest == seq![token],
{
    let tokens = seq![token];
    assert(prefix_parse(tokens).result == Ok::<ExprModel, ParseError>(atom(token)));
    assert(prefix_parse(tokens).rest == tokens);
    assert(parse_infixes(atom(token), tokens, precedence).rest == tokens);
}

/// An operator and a last operand continue an expression where the
/// operator binds tighter than what the expression is parsed for.
proof fn lemma_parse_last_pair(
    left: ExprModel,
    a: TokenModel,
    sign: TokenModel,
    b: TokenModel,
    precedence: OperatorPrecedence,
)
    requires
        is_atom(b),
        binary(sign) is Some,
        OperatorPrecedence::of(binary(sign).unwrap()).level() > precedence.level(),
    ensures
        parse_infixes(left, seq![a, sign, b], precedence).result == Ok::<
            ExprModel,
            ParseError,
        >(pair(left, binary(sign).unwrap(), atom(b))),
        parse_infixes(left, seq![a, sign, b], precedence).rest == seq![b],
{
    let tokens = seq![a, sign, b];
    let operator = binary(sign).unwrap();
    assert(advance(advance(tokens)) =~= seq![b]);
    lemma_parse_last_atom(b, OperatorPrecedence::of(operator));
    let next = infix_parse(left, tokens, operator);
    assert(next.result == Ok::<ExprModel, ParseError>(
        pair(left, operator, atom(b)),
    ));
    assert(next.rest == seq![b]);
    assert(shorter(next.rest, tokens));
    assert(parse_infixes(pair(left, operator, atom(b)), seq![b], precedence).rest == seq![b]);
}

/// Of two binary operators between three operands, the second takes the
/// operand in the middle where it binds tighter than the first; where it
/// does not, the first takes it, so that operators of one precedence group
/// to the left.
pub proof fn law_precedence(
    a: TokenModel,
    first: TokenModel,
    b: TokenModel,
    second: TokenModel,
    c: TokenModel,
)
    requires
        is_atom(a),
        is_atom(b),
        is_atom(c),
        binary(first) is Some,
        binary(second) is Some,
    ensures
        parse_expression(seq![a, first, b, second, c], OperatorPrecedence::Lowest).result == Ok::<
            ExprModel,
            ParseError,
        >(
            if OperatorPrecedence::of(binary(second).unwrap()).level() > OperatorPrecedence::of(
                binary(first).unwrap(),
            ).level() {
                pair(
                    atom(a),
                    binary(first).unwrap(),
                    pair(atom(b), binary(second).unwrap(), atom(c)),
                )
            } else {
                pair(
                    pair(atom(a), binary(first).unwrap(), atom(b)),
                    binary(second).unwrap(),
                    atom(c),
                )
            },
        ),
{
    let tokens = seq![a, first, b, second, c];
    let tail = seq![b, second, c];
    let one = binary(first).unwrap();
    let two = binary(second).unwrap();
    let lowest = OperatorPrecedence::Lowest;
    assert(advance(advance(tokens)) =~= tail);
    assert(prefix_parse(tokens).result == Ok::<ExprModel, ParseError>(atom(a)));
    assert(prefix_parse(tokens).rest == tokens);
    assert(prefix_parse(tail).result == Ok::<ExprModel, ParseError>(atom(b)));
    assert(prefix_parse(tail).rest == tail);
    if OperatorPrecedence::of(two).level() > OperatorPrecedence::of(one).level() {
        lemma_parse_last_pair(atom(b), b, second, c, OperatorPrecedence::of(one));
        let inner = pair(atom(b), two, atom(c));
        assert(parse_expression(tail, OperatorPrecedence::of(one)).result == Ok::<
            ExprModel,
            ParseError,
        >(inner));
        assert(parse_expression(tail, OperatorPrecedence::of(one)).rest == seq![c]);
        let whole = pair(atom(a), one, inner);
        let next = infix_parse(atom(a), tokens, one);
        assert(next.result == Ok::<ExprModel, ParseError>(whole));
        assert(next.rest == seq![c]);
        assert(shorter(next.rest, tokens));
        assert(parse_infixes(whole, seq![c], lowest).rest == seq![c]);
        assert(parse_infixes(atom(a), tokens, lowest).result == Ok::<
            ExprModel,
            ParseError,
        >(whole));
    } else {
        assert(parse_infixes(atom(b), tail, OperatorPrecedence::of(one)).rest == tail);
        assert(parse_expression(tail, OperatorPrecedence::of(one)).result == Ok::<
            ExprModel,
            ParseError,
        >(atom(b)));
        assert(parse_expression(tail, OperatorPrecedence::of(one)).rest == tail);
        let inner = pair(atom(a), one, atom(b));
        let next = infix_parse(atom(a), tokens, one);
        assert(next.result == Ok::<ExprModel, ParseError>(inner));
        assert(next.rest == tail);
        assert(shorter(next.rest, tokens));
        lemma_parse_last_pair(inner, b, second, c, lowest);
        assert(parse_infixes(atom(a), tokens, lowest).result == Ok::<
            ExprModel,
            ParseError,
        >(pair(inner, two, atom(c))));
    }
}

/// Whether the evaluation of an expression can bind a name in the
/// environment it runs in: whether a `let` stands in it, outside the bodies
/// of function literals, which run in a frame of their own.
pub open spec fn expression_binds(expression: ExprModel) -> bool
    decreases expression,
{
    match expression {
        ExprModel::Prefix { right, .. } => expression_binds(*right),
        ExprModel::Infix { left, right, .. } => expression_binds(*left) || expression_binds(*right),
        ExprModel::If { condition, consequence, alternative } => {
            ||| expression_binds(*condition)
            ||| statements_bind(consequence)
            ||| match alternative {
                Some(statements) => statements_bind(statements),
                None => false,
            }
        },
        ExprModel::Call { arguments, .. } => exists|i: int|
            0 <= i < arguments.len() && expression_binds(#[trigger] arguments[i]),
        _ => false,
    }
}

/// Whether the evaluation of a statement can bind a name.
pub open spec fn statement_binds(statement: StmtModel) -> bool
    decreases statement,
{
    match statement {
        StmtModel::Let { .. } => true,
        StmtModel::Return { value } => expression_binds(value),
        StmtModel::Expression { expression } => expression_binds(expression),
        StmtModel::Block { statements } => statements_bind(statements),
    }
}

/// Whether the evaluation of one of the statements can bind a name.
pub open spec fn statements_bind(statements: Seq<StmtModel>) -> bool
    decreases statements,
{
    exists|i: int| 0 <= i < statements.len() && statement_binds(#[trigger] statements[i])
}

/// An expression without `let` leaves the environment as it was.
pub proof fn lemma_expression_keeps(expression: ExprModel, env: EnvModel, depth: nat)
    requires
        !expression_binds(expression),
    ensures
        eval_expression(expression, env, depth).env == env,
    decreases depth, expression, 0nat,
{
    match expression {
        ExprModel::Prefix { right, .. } => {
            lemma_expression_keeps(*right, env, depth);
        },
        ExprModel::Infix { left, right, .. } => {
            lemma_expression_keeps(*left, env, depth);
            lemma_expression_keeps(*right, env, depth);
        },
        ExprModel::If { condition, consequence, alternative } => {
            lemma_expression_keeps(*condition, env, depth);
            lemma_block_keeps(consequence, env, depth);
            if let Some(statements) = alternative {
                lemma_block_keeps(statements, env, depth);
            }
        },
        ExprModel::Call { arguments, .. } => {
            lemma_arguments_keep(arguments, 0, Seq::empty(), env, depth);
        },
        _ => {},
    }
}

/// Arguments without `let` leave the environment as it was.
pub proof fn lemma_arguments_keep(
    arguments: Seq<ExprModel>,
    from: nat,
    done: Seq<ObjectModel>,
    env: EnvModel,
    depth: nat,
)
    requires
        forall|i: int| 0 <= i < arguments.len() ==> !expression_binds(#[trigger] arguments[i]),
    ensures
        eval_arguments(arguments, from, done, env, depth).env == env,
    decreases depth, arguments, arguments.len() - from,
{
    if from < arguments.len() {
        lemma_expression_keeps(arguments[from as int], env, depth);
        let first = eval_expression(arguments[from as int], env, depth);
        if let Ok(value) = first.result {
            lemma_arguments_keep(arguments, from + 1, done.push(value), env, depth);
        }
    }
}

/// A statement without `let` leaves the environment as it was.
pub proof fn lemma_statement_keeps(statement: StmtModel, env: EnvModel, depth: nat)
    requires
        !statement_binds(statement),
    ensures
        eval_statement(statement, env, depth).env == env,
    decreases depth, statement, 0nat,
{
    match statement {
        StmtModel::Let { .. } => {},
        StmtModel::Return { value } => {
            lemma_expression_keeps(value, env, depth);
        },
        StmtModel::Expression { expression } => {
            lemma_expression_keeps(expression, env, depth);
        },
        StmtModel::Block { statements } => {
            lemma_block_keeps(statements, env, depth);
        },
    }
}

/// Statements without `let` leave the environment as it was.
pub proof fn lemma_sequence_keeps(statements: Seq<StmtModel>, from: nat, env: EnvModel, depth: nat)
    requires
        !statements_bind(statements),
    ensures
        eval_sequence(statements, from, env, depth).env == env,
    decreases depth, statements, statements.len() - from,
{
    if from < statements.len() {
        lemma_statement_keeps(statements[from as int], env, depth);
        let first = eval_statement(statements[from as int], env, depth);
        if let Ok(value) = first.result {
            if !(value is ReturnValue || from + 1 >= statements.len()) {
                lemma_sequence_keeps(statements, from + 1, env, depth);
            }
        }
    }
}

/// A block without `let` leaves the environment as it was.
pub proof fn lemma_block_keeps(statements: Seq<StmtModel>, env: EnvModel, depth: nat)
    requires
        !statements_bind(statements),
    ensures
        eval_block(statements, env, depth).env == env,
    decreases depth, statements, statements.len() + 1,
{
    lemma_sequence_keeps(statements, 0, env, depth);
}

/// A program without `let` leaves the environment as it was, so that a
/// second evaluation, against what the first one left or against another
/// environment with the same bindings, yields the same result as the first.
pub proof fn law_idempotence(program: ProgramModel, env: EnvModel, depth: nat)
    requires
        !statements_bind(program.statements),
    ensures
        eval_program(program, env, depth).env == env,
        eval_program(program, eval_program(program, env, depth).env, depth) == eval_program(
            program,
            env,
            depth,
        ),
{
    lemma_block_keeps(program.statements, env, depth);
}

} // verus!
