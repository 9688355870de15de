use vstd::prelude::*;
use crate::parser::{Statement, SpecStatement};

verus! {

/// Runs statements against a flat environment of string variables.
///
/// Statements that touch the outside world (reading or writing a file,
/// printing) are not carried out here: `step` hands back the `Effect` to
/// perform, and the text of a file that was read comes back by `assign`.
pub struct Interpreter {
    variables: Vec<(String, String)>,
}

/// std::io::Error, carried through unopened: what an I/O failure was.
#[verifier::external_type_specification]
#[verifier::external_body]
pub struct ExIoError(std::io::Error);

/// A failure while running a script.
#[derive(Debug)]
pub enum InterpreterError {
    /// A file could not be read or written.
    IoError(std::io::Error),
    /// The script could not be lexed or parsed; the message says why.
    RuntimeError(String),
}

impl From<std::io::Error> for InterpreterError {
    fn from(error: std::io::Error) -> (r: Self)
        ensures
            r == InterpreterError::IoError(error),
    {
        InterpreterError::IoError(error)
    }
}

impl vstd::std_specs::convert::FromSpecImpl<std::io::Error> for InterpreterError {
    open spec fn obeys_from_spec() -> bool {
        true
    }

    open spec fn from_spec(error: std::io::Error) -> InterpreterError {
        InterpreterError::IoError(error)
    }
}

impl From<String> for InterpreterError {
    fn from(message: String) -> (r: Self)
        ensures
            r == InterpreterError::RuntimeError(message),
    {
        InterpreterError::RuntimeError(message)
    }
}

impl vstd::std_specs::convert::FromSpecImpl<String> for InterpreterError {
    open spec fn obeys_from_spec() -> bool {
        true
    }

    open spec fn from_spec(message: String) -> InterpreterError {
        InterpreterError::RuntimeError(message)
    }
}

/// What the world has to do for a statement.
#[derive(Debug, Clone, PartialEq)]
pub enum Effect {
    /// Read the whole file at the path (first) and `assign` its text to the
    /// variable (second).
    ReadFile(String, String),
    /// Write the text (second) to the file at the path (first), replacing it.
    WriteFile(String, String),
    /// Print the text followed by a newline.
    PrintLine(String),
}

/// The mathematical value of an `Effect`.
pub enum SpecEffect {
    ReadFile(Seq<char>, Seq<char>),
    WriteFile(Seq<char>, Seq<char>),
    PrintLine(Seq<char>),
}

impl View for Effect {
    type V = SpecEffect;

    open spec fn view(&self) -> SpecEffect {
        match self {
            Effect::ReadFile(p, d) => SpecEffect::ReadFile(p@, d@),
            Effect::WriteFile(p, t) => SpecEffect::WriteFile(p@, t@),
            Effect::PrintLine(t) => SpecEffect::PrintLine(t@),
        }
    }
}

pub open spec fn effect_view(e: Option<Effect>) -> Option<SpecEffect> {
    match e {
        Some(e) => Some(e@),
        None => None,
    }
}

/// Whether `key` is wrapped in a pair of double quotes.
pub open spec fn is_quoted(key: Seq<char>) -> bool {
    key.len() >= 2 && key[0] == '"' && key[key.len() - 1] == '"'
}

/// The value of an operand: the inside of a quoted text; else the
/// variable's value; else, for a name never assigned, the name itself.
pub open spec fn resolve(env: Map<Seq<char>, Seq<char>>, key: Seq<char>) -> Seq<char> {
    if is_quoted(key) {
        key.subrange(1, key.len() - 1)
    } else if env.contains_key(key) {
        env[key]
    } else {
        key
    }
}

/// The environment after a statement, and the effect the world performs
/// for it (none for `Append`, which works in memory). A `Read` changes
/// the environment only once its text comes back.
pub open spec fn step_spec(env: Map<Seq<char>, Seq<char>>, s: SpecStatement) -> (
    Map<Seq<char>, Seq<char>>,
    Option<SpecEffect>,
) {
    match s {
        SpecStatement::Read(path, dest) => (env, Some(SpecEffect::ReadFile(path, dest))),
        SpecStatement::Write(path, content) => (
            env,
            Some(SpecEffect::WriteFile(path, resolve(env, content))),
        ),
        SpecStatement::Print(content) => (env, Some(SpecEffect::PrintLine(resolve(env, content)))),
        SpecStatement::Append(a, b, dest) => (
            env.insert(dest, resolve(env, a) + resolve(env, b)),
            None,
        ),
    }
}

impl View for Interpreter {
    type V = Map<Seq<char>, Seq<char>>;

    closed spec fn view(&self) -> Map<Seq<char>, Seq<char>> {
        Map::new(
            |k: Seq<char>| exists|i: int| 0 <= i < self.variables@.len() && #[trigger] self.variables@[i].0@ == k,
            |k: Seq<char>|
                self.variables@[choose|i: int|
                    0 <= i < self.variables@.len() && #[trigger] self.variables@[i].0@ == k].1@,
        )
    }
}

impl Interpreter {
    /// Each variable is held once.
    pub closed spec fn wf(&self) -> bool {
        forall|i: int, j: int|
            0 <= i < self.variables@.len() && 0 <= j < self.variables@.len()
                && #[trigger] self.variables@[i].0@ == #[trigger] self.variables@[j].0@ ==> i == j
    }

    proof fn lemma_entry(&self, k: int)
        requires
            self.wf(),
            0 <= k < self.variables@.len(),
        ensures
            self@.contains_key(self.variables@[k].0@),
            self@[self.variables@[k].0@] == self.variables@[k].1@,
    {
        let key = self.variables@[k].0@;
        assert(self@.contains_key(key));
        let i = choose|i: int| 0 <= i < self.variables@.len() && #[trigger] self.variables@[i].0@ == key;
        assert(i == k);
    }

    /// An interpreter with no variables.
    pub fn new() -> (r: Self)
        ensures
            r.wf(),
            r@ == Map::<Seq<char>, Seq<char>>::empty(),
    {
        let r = Interpreter { variables: Vec::new() };
        assert(r@ =~= Map::<Seq<char>, Seq<char>>::empty());
        r
    }

    /// Where the variable `name` is held, if it is.
    fn position(&self, name: &String) -> (r: Option<usize>)
        requires
            self.wf(),
        ensures
            r is None ==> !self@.contains_key(name@),
            r is Some ==> r->0 < self.variables@.len() && self.variables@[r->0 as int].0@ == name@,
    {
        let mut k: usize = 0;
        while k < self.variables.len()
            invariant
                k <= self.variables@.len(),
                forall|i: int| 0 <= i < k ==> #[trigger] self.variables@[i].0@ != name@,
            decreases self.variables@.len() - k,
        {
            if self.variables[k].0 == *name {
                return Some(k);
            }
            k = k + 1;
        }
        None
    }

    /// The value of an operand: the inside of a quoted text; else the
    /// variable's value; else, for a name never assigned, the name itself.
    pub fn get_var_or_literal(&self, key: &str) -> (r: String)
        requires
            self.wf(),
        ensures
            r@ == resolve(self@, key@),
    {
        let n = key.unicode_len();
        if n >= 2 && key.get_char(0) == '"' && key.get_char(n - 1) == '"' {
            String::from_str(key.substring_char(1, n - 1))
        } else {
            let name = String::from_str(key);
            match self.position(&name) {
                Some(k) => {
                    proof {
                        self.lemma_entry(k as int);
                    }
                    self.variables[k].1.clone()
                },
                None => name,
            }
        }
    }

    /// Binds the variable `name` to `value`, replacing any earlier value.
    pub fn assign(&mut self, name: String, value: String)
        requires
            old(self).wf(),
        ensures
            final(self).wf(),
            final(self)@ == old(self)@.insert(name@, value@),
    {
        let ghost before = *self;
        match self.position(&name) {
            Some(k) => {
                self.variables.set(k, (name, value));
                proof {
                    assert forall|key: Seq<char>| #[trigger] self@.contains_key(key) <==> before@.insert(name@, value@).contains_key(key) by {
                        if key != name@ && self@.contains_key(key) {
                            let i = choose|i: int| 0 <= i < self.variables@.len() && #[trigger] self.variables@[i].0@ == key;
                            assert(before.variables@[i].0@ == key);
                        }
                        if key != name@ && before@.contains_key(key) {
                            let i = choose|i: int| 0 <= i < before.variables@.len() && #[trigger] before.variables@[i].0@ == key;
                            assert(self.variables@[i].0@ == key);
                        }
                        if key == name@ {
                            assert(self.variables@[k as int].0@ == key);
                        }
                    }
                    assert forall|key: Seq<char>| #[trigger] self@.contains_key(key) implies self@[key] == before@.insert(name@, value@)[key] by {
                        let i = choose|i: int| 0 <= i < self.variables@.len() && #[trigger] self.variables@[i].0@ == key;
                        self.lemma_entry(i);
                        if key != name@ {
                            assert(before.variables@[i].0@ == key);
                            before.lemma_entry(i);
                        }
                    }
                    assert(self@ =~= before@.insert(name@, value@));
                }
            },
            None => {
                self.variables.push((name, value));
                proof {
                    let last = self.variables@.len() - 1;
                    assert forall|key: Seq<char>| #[trigger] self@.contains_key(key) <==> before@.insert(name@, value@).contains_key(key) by {
                        if key != name@ && self@.contains_key(key) {
                            let i = choose|i: int| 0 <= i < self.variables@.len() && #[trigger] self.variables@[i].0@ == key;
                            assert(before.variables@[i].0@ == key);
                        }
                        if key != name@ && before@.contains_key(key) {
                            let i = choose|i: int| 0 <= i < before.variables@.len() && #[trigger] before.variables@[i].0@ == key;
                            assert(self.variables@[i].0@ == key);
                        }
                        if key == name@ {
                            assert(self.variables@[last].0@ == key);
                        }
                    }
                    assert forall|key: Seq<char>| #[trigger] self@.contains_key(key) implies self@[key] == before@.insert(name@, value@)[key] by {
                        let i = choose|i: int| 0 <= i < self.variables@.len() && #[trigger] self.variables@[i].0@ == key;
                        self.lemma_entry(i);
                        if key != name@ {
                            assert(before.variables@[i].0@ == key);
                            before.lemma_entry(i);
                        }
                    }
                    assert(self@ =~= before@.insert(name@, value@));
                }
            },
        }
    }

    /// Carries out one statement on the variables, and gives the effect the
    /// world has to perform for it, if any: the file to read (whose text then
    /// comes back by `assign`), the text to write or to print.
    pub fn step(&mut self, stmt: &Statement) -> (r: Option<Effect>)
        requires
            old(self).wf(),
        ensures
            final(self).wf(),
            (final(self)@, effect_view(r)) == step_spec(old(self)@, stmt@),
    {
        match stmt {
            Statement::Read(path, dest) => Some(Effect::ReadFile(path.clone(), dest.clone())),
            Statement::Write(path, content) => {
                let text = self.get_var_or_literal(content.as_str());
                Some(Effect::WriteFile(path.clone(), text))
            },
            Statement::Print(content) => Some(Effect::PrintLine(self.get_var_or_literal(content.as_str()))),
            Statement::Append(a, b, dest) => {
                let left = self.get_var_or_literal(a.as_str());
                let right = self.get_var_or_literal(b.as_str());
                let joined = left.concat(right.as_str());
                self.assign(dest.clone(), joined);
                None
            },
        }
    }
}

impl Default for Interpreter {
    fn default() -> (r: Self)
        ensures
            r.wf(),
            r@ == Map::<Seq<char>, Seq<char>>::empty(),
    {
        Interpreter::new()
    }
}

} // verus!
