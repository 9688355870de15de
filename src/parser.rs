use vstd::prelude::*;
use crate::lexer::{Token, SpecToken, view_tokens};

verus! {

/// One instruction of a script. Operands are kept as written: a string
/// literal's decoded text or an identifier's name.
#[derive(Debug, Clone, PartialEq)]
pub enum Statement {
    Read(String, String),
    Write(String, String),
    Print(String),
    Append(String, String, String),
}

/// The mathematical value of a `Statement`.
pub enum SpecStatement {
    Read(Seq<char>, Seq<char>),
    Write(Seq<char>, Seq<char>),
    Print(Seq<char>),
    Append(Seq<char>, Seq<char>, Seq<char>),
}

impl View for Statement {
    type V = SpecStatement;

    open spec fn view(&self) -> SpecStatement {
        match self {
            Statement::Read(a, b) => SpecStatement::Read(a@, b@),
            Statement::Write(a, b) => SpecStatement::Write(a@, b@),
            Statement::Print(a) => SpecStatement::Print(a@),
            Statement::Append(a, b, c) => SpecStatement::Append(a@, b@, c@),
        }
    }
}

pub open spec fn view_statements(ss: Seq<Statement>) -> Seq<SpecStatement> {
    ss.map_values(|s: Statement| s@)
}

/// Why parsing stopped.
pub enum ParseFault {
    /// An identifier was expected and something else (or nothing) came.
    ExpectedIdentifier,
    /// A string literal or an identifier was expected; what came instead.
    ExpectedOperand(Option<SpecToken>),
    /// A line starts with a token that begins no statement.
    UnexpectedToken,
}

/// The name of a token's kind, as error messages give it.
pub open spec fn kind_name(t: SpecToken) -> Seq<char> {
    match t {
        SpecToken::Read => "Read"@,
        SpecToken::Write => "Write"@,
        SpecToken::Print => "Print"@,
        SpecToken::Append => "Append"@,
        SpecToken::Identifier(_) => "Identifier"@,
        SpecToken::StringLiteral(_) => "StringLiteral"@,
        SpecToken::IntLiteral(_) => "IntLiteral"@,
        SpecToken::FloatLiteral(_) => "FloatLiteral"@,
        SpecToken::Arrow => "Arrow"@,
        SpecToken::Eol => "Eol"@,
    }
}

pub open spec fn parse_message(f: ParseFault) -> Seq<char> {
    match f {
        ParseFault::ExpectedIdentifier => "Expected an identifier."@,
        ParseFault::ExpectedOperand(Some(t)) => "Expected a string literal, got "@ + kind_name(t),
        ParseFault::ExpectedOperand(None) => "Expected a string literal."@,
        ParseFault::UnexpectedToken => "Unexpected token."@,
    }
}

/// The name held by the identifier at `k`.
pub open spec fn ident_at(t: Seq<SpecToken>, k: int) -> Result<Seq<char>, ParseFault> {
    if 0 <= k < t.len() && t[k] is Identifier {
        Ok(t[k]->Identifier_0)
    } else {
        Err(ParseFault::ExpectedIdentifier)
    }
}

/// The content operand at `k`: a string literal's text or an identifier's name.
pub open spec fn operand_at(t: Seq<SpecToken>, k: int) -> Result<Seq<char>, ParseFault> {
    if 0 <= k < t.len() {
        match t[k] {
            SpecToken::StringLiteral(s) => Ok(s),
            SpecToken::Identifier(s) => Ok(s),
            other => Err(ParseFault::ExpectedOperand(Some(other))),
        }
    } else {
        Err(ParseFault::ExpectedOperand(None))
    }
}

/// The statement that starts at `i` (`0 <= i < t.len()`), if any, and
/// where the next one starts. The token after each operand group (the
/// arrow, the line end) is passed over whatever it is.
pub open spec fn statement_at(t: Seq<SpecToken>, i: int) -> Result<
    (Option<SpecStatement>, int),
    ParseFault,
> {
    match t[i] {
        SpecToken::Eol => Ok((None, i + 1)),
        SpecToken::Read => match (ident_at(t, i + 1), ident_at(t, i + 3)) {
            (Err(e), _) => Err(e),
            (Ok(_), Err(e)) => Err(e),
            (Ok(src), Ok(dest)) => Ok((Some(SpecStatement::Read(src, dest)), i + 5)),
        },
        SpecToken::Write => match (ident_at(t, i + 1), operand_at(t, i + 2)) {
            (Err(e), _) => Err(e),
            (Ok(_), Err(e)) => Err(e),
            (Ok(path), Ok(content)) => Ok((Some(SpecStatement::Write(path, content)), i + 4)),
        },
        SpecToken::Print => match operand_at(t, i + 1) {
            Err(e) => Err(e),
            Ok(content) => Ok((Some(SpecStatement::Print(content)), i + 3)),
        },
        SpecToken::Append => match (ident_at(t, i + 1), operand_at(t, i + 2), ident_at(t, i + 4)) {
            (Err(e), _, _) => Err(e),
            (Ok(_), Err(e), _) => Err(e),
            (Ok(_), Ok(_), Err(e)) => Err(e),
            (Ok(a), Ok(b), Ok(dest)) => Ok((Some(SpecStatement::Append(a, b, dest)), i + 6)),
        },
        _ => Err(ParseFault::UnexpectedToken),
    }
}

pub open spec fn opt_statement(s: Option<SpecStatement>) -> Seq<SpecStatement> {
    match s {
        Some(s) => seq![s],
        None => seq![],
    }
}

/// Parsing from `i` on, `acc` being the statements before `i`.
pub open spec fn parse_from(t: Seq<SpecToken>, i: int, acc: Seq<SpecStatement>) -> Result<
    Seq<SpecStatement>,
    ParseFault,
>
    // a statement spans at most six tokens
    decreases t.len() + 6 - i,
{
    if i < 0 || i >= t.len() {
        Ok(acc)
    } else {
        match statement_at(t, i) {
            Ok((s, j)) => parse_from(t, j, acc + opt_statement(s)),
            Err(e) => Err(e),
        }
    }
}

/// The statements of a token sequence, or why there are none.
pub open spec fn parse_tokens(t: Seq<SpecToken>) -> Result<Seq<SpecStatement>, ParseFault> {
    parse_from(t, 0, seq![])
}

fn expected_identifier() -> (r: String)
    ensures
        r@ == parse_message(ParseFault::ExpectedIdentifier),
{
    String::from_str("Expected an identifier.")
}

fn kind_text(t: &Token) -> (r: String)
    ensures
        r@ == kind_name(t@),
{
    match t {
        Token::Read => String::from_str("Read"),
        Token::Write => String::from_str("Write"),
        Token::Print => String::from_str("Print"),
        Token::Append => String::from_str("Append"),
        Token::Identifier(_) => String::from_str("Identifier"),
        Token::StringLiteral(_) => String::from_str("StringLiteral"),
        Token::IntLiteral(_) => String::from_str("IntLiteral"),
        Token::FloatLiteral(_) => String::from_str("FloatLiteral"),
        Token::Arrow => String::from_str("Arrow"),
        Token::Eol => String::from_str("Eol"),
    }
}

/// The name held by the identifier at `pos`.
pub fn get_identifier(tokens: &Vec<Token>, pos: usize) -> (r: Result<String, String>)
    ensures
        match ident_at(view_tokens(tokens@), pos as int) {
            Ok(name) => r is Ok && r->Ok_0@ == name,
            Err(e) => r is Err && r->Err_0@ == parse_message(e),
        },
{
    if pos < tokens.len() {
        match &tokens[pos] {
            Token::Identifier(s) => Ok(s.clone()),
            _ => Err(expected_identifier()),
        }
    } else {
        Err(expected_identifier())
    }
}

/// The content operand at `pos`: a string literal's text or an identifier's name.
fn get_operand(tokens: &Vec<Token>, pos: usize) -> (r: Result<String, String>)
    ensures
        match operand_at(view_tokens(tokens@), pos as int) {
            Ok(text) => r is Ok && r->Ok_0@ == text,
            Err(e) => r is Err && r->Err_0@ == parse_message(e),
        },
{
    if pos < tokens.len() {
        match &tokens[pos] {
            Token::StringLiteral(s) => Ok(s.clone()),
            Token::Identifier(s) => Ok(s.clone()),
            other => {
                let mut m = String::from_str("Expected a string literal, got ");
                let k = kind_text(other);
                m.append(k.as_str());
                Err(m)
            },
        }
    } else {
        Err(String::from_str("Expected a string literal."))
    }
}

pub open spec fn opt_view(s: Option<Statement>) -> Option<SpecStatement> {
    match s {
        Some(s) => Some(s@),
        None => None,
    }
}

/// The position `k` tokens after `i`, or the end where that lies beyond it.
fn ahead(i: usize, k: usize, n: usize) -> (r: usize)
    requires
        i < n,
    ensures
        r == if i + k < n {
            i + k
        } else {
            n as int
        },
{
    if k < n - i {
        i + k
    } else {
        n
    }
}

/// The statement that starts at `i`, if any, and where the next one starts
/// (the end of the tokens where it would lie beyond them).
fn statement(tokens: &Vec<Token>, i: usize) -> (r: Result<(Option<Statement>, usize), String>)
    requires
        i < tokens@.len(),
    ensures
        match statement_at(view_tokens(tokens@), i as int) {
            Ok((s, j)) => r is Ok && s == opt_view(r->Ok_0.0) && r->Ok_0.1 == if j < tokens@.len() {
                j
            } else {
                tokens@.len() as int
            },
            Err(e) => r is Err && r->Err_0@ == parse_message(e),
        },
{
    let ghost t = view_tokens(tokens@);
    assert(t[i as int] == tokens@[i as int]@);
    let n = tokens.len();
    match &tokens[i] {
        Token::Eol => Ok((None, ahead(i, 1, n))),
        Token::Read => {
            let src = get_identifier(tokens, ahead(i, 1, n))?;
            let dest = get_identifier(tokens, ahead(i, 3, n))?;
            Ok((Some(Statement::Read(src, dest)), ahead(i, 5, n)))
        },
        Token::Write => {
            let path = get_identifier(tokens, ahead(i, 1, n))?;
            let content = get_operand(tokens, ahead(i, 2, n))?;
            Ok((Some(Statement::Write(path, content)), ahead(i, 4, n)))
        },
        Token::Print => {
            let content = get_operand(tokens, ahead(i, 1, n))?;
            Ok((Some(Statement::Print(content)), ahead(i, 3, n)))
        },
        Token::Append => {
            let a = get_identifier(tokens, ahead(i, 1, n))?;
            let b = get_operand(tokens, ahead(i, 2, n))?;
            let dest = get_identifier(tokens, ahead(i, 4, n))?;
            Ok((Some(Statement::Append(a, b, dest)), ahead(i, 6, n)))
        },
        _ => Err(String::from_str("Unexpected token.")),
    }
}

/// Builds the statements of a token sequence, one per line; blank lines
/// give none. Fails with a message at the first token out of place.
pub fn parse(tokens: Vec<Token>) -> (r: Result<Vec<Statement>, String>)
    ensures
        match parse_tokens(view_tokens(tokens@)) {
            Ok(ss) => r is Ok && view_statements(r->Ok_0@) == ss,
            Err(e) => r is Err && r->Err_0@ == parse_message(e),
        },
{
    let mut statements: Vec<Statement> = Vec::new();
    let mut i: usize = 0;
    assert(view_statements(statements@) =~= Seq::<SpecStatement>::empty());
    while i < tokens.len()
        invariant
            i <= tokens@.len(),
            parse_tokens(view_tokens(tokens@)) == parse_from(
                view_tokens(tokens@),
                i as int,
                view_statements(statements@),
            ),
        decreases tokens@.len() - i,
    {
        match statement(&tokens, i) {
            Ok((s, j)) => {
                let ghost before = statements@;
                match s {
                    Some(s) => {
                        statements.push(s);
                    },
                    None => {},
                }
                assert(view_statements(statements@) =~= view_statements(before) + opt_statement(
                    opt_view(s),
                ));
                proof {
                    let t = view_tokens(tokens@);
                    let acc = view_statements(statements@);
                    let k = statement_at(t, i as int)->Ok_0.1;
                    if k >= t.len() {
                        assert(parse_from(t, k, acc) == Ok::<Seq<SpecStatement>, ParseFault>(acc));
                    }
                }
                i = j;
            },
            Err(m) => {
                return Err(m);
            },
        }
    }
    Ok(statements)
}

} // verus!
