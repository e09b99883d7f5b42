//! One step of an interactive session: what a submitted line leads to.
//! Reading the line and printing the reply are the caller's part.

use vstd::prelude::*;
use vstd::string::*;

use crate::ast::texts_of;
use crate::environment::{EnvModel, Environment};
use crate::error::{EvalError, EvalErrorModel};
use crate::evaluator::{Evaluator, MAX_CALL_DEPTH};
use crate::grammar::parse_program;
use crate::lexer::{tokens, Lexer};
use crate::parser::Parser;
use crate::semantics::{eval_program, Outcome};

verus! {

/// The mathematical value of a reply.
pub enum ReplyModel {
    ParseErrors { lines: Seq<Seq<char>> },
    Value { text: Seq<char> },
    Failure { error: EvalErrorModel },
}

/// What a session does with a submitted line.
#[derive(Debug)]
pub enum Reply {
    /// The line did not parse: one line to print for each error. Nothing
    /// was evaluated.
    ParseErrors(Vec<String>),
    /// The line was evaluated: the text of its value, to print.
    Value(String),
    /// The evaluation failed, which ends the session.
    Failure(EvalError),
}

impl View for Reply {
    type V = ReplyModel;

    open spec fn view(&self) -> ReplyModel {
        match self {
            Reply::ParseErrors(lines) => ReplyModel::ParseErrors { lines: texts_of(lines@) },
            Reply::Value(text) => ReplyModel::Value { text: text@ },
            Reply::Failure(error) => ReplyModel::Failure { error: error@ },
        }
    }
}

/// The lines that report parse errors: each message behind the word
/// `Error`.
pub open spec fn error_lines(errors: Seq<Seq<char>>) -> Seq<Seq<char>> {
    Seq::new(errors.len(), |i: int| "Error "@ + errors[i])
}

/// The result of evaluating a source text: lexing, parsing, and evaluation
/// of the program with calls nested at most `depth` deep.
pub open spec fn run(source: Seq<char>, env: EnvModel, depth: nat) -> Outcome {
    eval_program(parse_program(tokens(source)), env, depth)
}

/// The reply to a line. A line with parse errors is not evaluated.
pub open spec fn reply_to(source: Seq<char>, env: EnvModel, depth: nat) -> ReplyModel {
    let program = parse_program(tokens(source));
    if program.errors.len() > 0 {
        ReplyModel::ParseErrors { lines: error_lines(program.errors) }
    } else {
        match run(source, env, depth).result {
            Ok(value) => ReplyModel::Value { text: value.text() },
            Err(error) => ReplyModel::Failure { error },
        }
    }
}

/// The environment after a line. A line with parse errors leaves it as it
/// was; any other line leaves every binding that its evaluation made.
pub open spec fn env_after(source: Seq<char>, env: EnvModel, depth: nat) -> EnvModel {
    let program = parse_program(tokens(source));
    if program.errors.len() > 0 {
        env
    } else {
        run(source, env, depth).env
    }
}

/// Lexes, parses and evaluates one line against the environment of the
/// session.
pub fn submit(line: &str, env: &mut Environment) -> (reply: Reply)
    ensures
        reply@ == reply_to(line@, old(env)@, MAX_CALL_DEPTH as nat),
        final(env)@ == env_after(line@, old(env)@, MAX_CALL_DEPTH as nat),
{
    let lexer = Lexer::new(line);
    let parser = Parser::new(lexer);
    let program = parser.parse_program();
    if program.errors.len() > 0 {
        let mut lines: Vec<String> = Vec::new();
        let mut i: usize = 0;
        while i < program.errors.len()
            invariant
                i <= program.errors.len(),
                lines@.len() == i,
                forall|j: int| 0 <= j < i ==> lines@[j]@ == "Error "@ + program.errors@[j]@,
            decreases program.errors.len() - i,
        {
            let mut text = String::from_str("Error ");
            text.append(program.errors[i].as_str());
            lines.push(text);
            i += 1;
        }
        assert(texts_of(lines@) =~= error_lines(program@.errors));
        Reply::ParseErrors(lines)
    } else {
        match Evaluator::eval(program, env) {
            Ok(object) => Reply::Value(object.to_string()),
            Err(error) => Reply::Failure(error),
        }
    }
}

} // verus!
