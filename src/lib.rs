//! An interpreter for a small line-oriented scripting language whose
//! commands (`READ`, `WRITE`, `PRINT`, `APPEND`) move text between files
//! and string variables.
//!
//! Text is lexed into tokens, tokens are parsed into statements, and an
//! `Interpreter` steps through the statements. The file reads and writes
//! and the printing that statements call for are handed back as effects
//! for the caller to perform.
pub mod lexer;
pub mod parser;
pub mod interpreter;

use vstd::prelude::*;
use crate::lexer::{lex, fault_message};
use crate::parser::{Statement, SpecStatement, parse_tokens, parse_message, view_statements};
use crate::interpreter::{InterpreterError, SpecEffect, step_spec, resolve, is_quoted};

verus! {

/// The source text of a script.
pub struct Script {
    source: String,
}

impl View for Script {
    type V = Seq<char>;

    closed spec fn view(&self) -> Seq<char> {
        self.source@
    }
}

/// The statements of a script text, or the message of the first lexing or
/// parsing error.
pub open spec fn compile(s: Seq<char>) -> Result<Seq<SpecStatement>, Seq<char>> {
    match lex(s) {
        Err(e) => Err(fault_message(e)),
        Ok(ts) => match parse_tokens(ts) {
            Ok(ss) => Ok(ss),
            Err(e) => Err(parse_message(e)),
        },
    }
}

impl Script {
    /// A script with the given source text.
    pub fn from(source: &str) -> (r: Script)
        ensures
            r@ == source@,
    {
        Script { source: String::from_str(source) }
    }

    /// Lexes and parses the script: the statements to run, in order, or the
    /// first error, as a `RuntimeError` with its message.
    pub fn run(&self) -> (r: Result<Vec<Statement>, InterpreterError>)
        ensures
            match compile(self@) {
                Ok(ss) => r is Ok && view_statements(r->Ok_0@) == ss,
                Err(m) => r is Err && r->Err_0 is RuntimeError && r->Err_0->RuntimeError_0@ == m,
            },
    {
        match lexer::tokenize(self.source.as_str()) {
            Err(m) => Err(InterpreterError::RuntimeError(m)),
            Ok(tokens) => match parser::parse(tokens) {
                Err(m) => Err(InterpreterError::RuntimeError(m)),
                Ok(statements) => Ok(statements),
            },
        }
    }
}

/// Running is deterministic: equal script texts give equal tokens and equal
/// statements (or equal errors), and equal variables facing equal statements
/// give equal new variables and equal effects.
pub proof fn lemma_deterministic(
    a: Seq<char>,
    b: Seq<char>,
    env_a: Map<Seq<char>, Seq<char>>,
    env_b: Map<Seq<char>, Seq<char>>,
    s_a: SpecStatement,
    s_b: SpecStatement,
)
    requires
        a == b,
        env_a == env_b,
        s_a == s_b,
    ensures
        lex(a) == lex(b),
        compile(a) == compile(b),
        step_spec(env_a, s_a) == step_spec(env_b, s_b),
{
}

/// Printing a name that was never assigned prints the name itself.
pub proof fn lemma_unassigned_prints_itself(env: Map<Seq<char>, Seq<char>>, name: Seq<char>)
    requires
        !env.contains_key(name),
        !is_quoted(name),
    ensures
        step_spec(env, SpecStatement::Print(name)) == (env, Some(SpecEffect::PrintLine(name))),
{
}

/// `APPEND` joins texts: the destination gets the left operand's value
/// followed by the right operand's, and no other variable changes.
pub proof fn lemma_append_concatenates(
    env: Map<Seq<char>, Seq<char>>,
    a: Seq<char>,
    b: Seq<char>,
    dest: Seq<char>,
)
    ensures
        step_spec(env, SpecStatement::Append(a, b, dest)).0[dest] == resolve(env, a) + resolve(env, b),
        step_spec(env, SpecStatement::Append(a, b, dest)).0.remove(dest) == env.remove(dest),
        step_spec(env, SpecStatement::Append(a, b, dest)).1 is None,
{
    assert(step_spec(env, SpecStatement::Append(a, b, dest)).0.remove(dest) =~= env.remove(dest));
}

} // verus!
