use vstd::prelude::*;

verus! {

/// A lexical unit of a script.
///
/// A float literal keeps the text it was written with (digits and a `.`):
/// no statement reads its value.
#[derive(Debug, Clone, PartialEq)]
pub enum Token {
    Read,
    Write,
    Print,
    Append,
    Identifier(String),
    StringLiteral(String),
    IntLiteral(i64),
    FloatLiteral(String),
    Arrow,
    Eol,
}

/// The mathematical value of a `Token`.
pub enum SpecToken {
    Read,
    Write,
    Print,
    Append,
    Identifier(Seq<char>),
    StringLiteral(Seq<char>),
    IntLiteral(i64),
    FloatLiteral(Seq<char>),
    Arrow,
    Eol,
}

impl View for Token {
    type V = SpecToken;

    open spec fn view(&self) -> SpecToken {
        match self {
            Token::Read => SpecToken::Read,
            Token::Write => SpecToken::Write,
            Token::Print => SpecToken::Print,
            Token::Append => SpecToken::Append,
            Token::Identifier(s) => SpecToken::Identifier(s@),
            Token::StringLiteral(s) => SpecToken::StringLiteral(s@),
            Token::IntLiteral(n) => SpecToken::IntLiteral(*n),
            Token::FloatLiteral(s) => SpecToken::FloatLiteral(s@),
            Token::Arrow => SpecToken::Arrow,
            Token::Eol => SpecToken::Eol,
        }
    }
}

pub open spec fn view_tokens(ts: Seq<Token>) -> Seq<SpecToken> {
    ts.map_values(|t: Token| t@)
}

/// Why lexing stopped.
pub enum LexFault {
    UnexpectedChar(char),
    UnexpectedEnd,
    InvalidEscape(char),
    InvalidNumber(Seq<char>),
}

pub open spec fn is_digit(c: char) -> bool {
    '0' <= c && c <= '9'
}

pub open spec fn starts_word(c: char) -> bool {
    ('a' <= c && c <= 'z') || ('A' <= c && c <= 'Z') || c == '_'
}

/// Whether `char::is_alphanumeric` holds of `c` (Unicode letters and numbers).
pub uninterp spec fn alphanumeric(c: char) -> bool;

pub open spec fn continues_word(c: char) -> bool {
    alphanumeric(c) || c == '_' || c == '.'
}

/// The end of the run of digits that starts at `i`.
pub open spec fn digits_end(s: Seq<char>, i: int) -> int
    decreases s.len() - i,
{
    if 0 <= i < s.len() && is_digit(s[i]) {
        digits_end(s, i + 1)
    } else {
        i
    }
}

/// The end of the run of word characters that starts at `i`.
pub open spec fn word_end(s: Seq<char>, i: int) -> int
    decreases s.len() - i,
{
    if 0 <= i < s.len() && continues_word(s[i]) {
        word_end(s, i + 1)
    } else {
        i
    }
}

/// The position of the first newline at or after `i`, or the end of `s`.
pub open spec fn line_end(s: Seq<char>, i: int) -> int
    decreases s.len() - i,
{
    if 0 <= i < s.len() && s[i] != '\n' {
        line_end(s, i + 1)
    } else {
        i
    }
}

/// The value of a run of decimal digits.
pub open spec fn digits_value(d: Seq<char>) -> int
    decreases d.len(),
{
    if d.len() == 0 {
        0
    } else {
        digits_value(d.drop_last()) * 10 + (d.last() as int - '0' as int)
    }
}

/// The character that `\c` stands for inside a string literal.
pub open spec fn escaped(c: char) -> Option<char> {
    if c == 'n' {
        Some('\n')
    } else if c == 't' {
        Some('\t')
    } else if c == 'r' {
        Some('\r')
    } else if c == '"' {
        Some('"')
    } else if c == '\\' {
        Some('\\')
    } else {
        None
    }
}

/// The rest of a string literal from `i` (just after the opening quote or
/// an earlier character of it), `acc` being what was decoded before `i`:
/// the decoded text and the position after the closing quote.
pub open spec fn string_from(s: Seq<char>, i: int, acc: Seq<char>) -> Result<
    (Seq<char>, int),
    LexFault,
>
    decreases s.len() - i,
{
    if i < 0 || i >= s.len() {
        Err(LexFault::UnexpectedEnd)
    } else if s[i] == '"' {
        Ok((acc, i + 1))
    } else if s[i] == '\\' {
        if i + 1 >= s.len() {
            Err(LexFault::UnexpectedEnd)
        } else {
            match escaped(s[i + 1]) {
                Some(d) => string_from(s, i + 2, acc.push(d)),
                None => Err(LexFault::InvalidEscape(s[i + 1])),
            }
        }
    } else {
        string_from(s, i + 1, acc.push(s[i]))
    }
}

/// The token for a word: a keyword, or else an identifier.
pub open spec fn word_token(w: Seq<char>) -> SpecToken {
    if w == seq!['R', 'E', 'A', 'D'] {
        SpecToken::Read
    } else if w == seq!['W', 'R', 'I', 'T', 'E'] {
        SpecToken::Write
    } else if w == seq!['P', 'R', 'I', 'N', 'T'] {
        SpecToken::Print
    } else if w == seq!['A', 'P', 'P', 'E', 'N', 'D'] {
        SpecToken::Append
    } else {
        SpecToken::Identifier(w)
    }
}

/// The number that starts with the digit at `i`.
pub open spec fn number_at(s: Seq<char>, i: int) -> Result<(Option<SpecToken>, int), LexFault> {
    let j = digits_end(s, i);
    if j < s.len() && s[j] == '.' {
        let k = digits_end(s, j + 1);
        Ok((Some(SpecToken::FloatLiteral(s.subrange(i, k))), k))
    } else if digits_value(s.subrange(i, j)) <= i64::MAX {
        Ok((Some(SpecToken::IntLiteral(digits_value(s.subrange(i, j)) as i64)), j))
    } else {
        Err(LexFault::InvalidNumber(s.subrange(i, j)))
    }
}

/// What the input holds at `i` (`0 <= i < s.len()`): a token or nothing
/// (blanks, a comment), and the position where lexing goes on.
pub open spec fn step_at(s: Seq<char>, i: int) -> Result<(Option<SpecToken>, int), LexFault> {
    let c = s[i];
    if c == ' ' || c == '\t' || c == '\r' {
        Ok((None, i + 1))
    } else if c == '\n' {
        Ok((Some(SpecToken::Eol), i + 1))
    } else if c == '#' {
        Ok((None, line_end(s, i + 1)))
    } else if c == '-' {
        if i + 1 >= s.len() {
            Err(LexFault::UnexpectedEnd)
        } else if s[i + 1] == '>' {
            Ok((Some(SpecToken::Arrow), i + 2))
        } else {
            Err(LexFault::UnexpectedChar(s[i + 1]))
        }
    } else if c == '"' {
        match string_from(s, i + 1, seq![]) {
            Ok((text, j)) => Ok((Some(SpecToken::StringLiteral(text)), j)),
            Err(e) => Err(e),
        }
    } else if c == '.' {
        if i + 1 < s.len() && is_digit(s[i + 1]) {
            let j = digits_end(s, i + 1);
            Ok((Some(SpecToken::FloatLiteral(s.subrange(i, j))), j))
        } else {
            Ok((Some(SpecToken::Identifier(seq!['.'])), i + 1))
        }
    } else if is_digit(c) {
        number_at(s, i)
    } else if starts_word(c) {
        let j = word_end(s, i + 1);
        Ok((Some(word_token(s.subrange(i, j))), j))
    } else {
        Err(LexFault::UnexpectedChar(c))
    }
}

pub open spec fn opt_seq(t: Option<SpecToken>) -> Seq<SpecToken> {
    match t {
        Some(t) => seq![t],
        None => seq![],
    }
}

/// Lexing from `i` on, `acc` being the tokens before `i`.
pub open spec fn lex_from(s: Seq<char>, i: int, acc: Seq<SpecToken>) -> Result<
    Seq<SpecToken>,
    LexFault,
>
    decreases s.len() - i,
    when 0 <= i
    via lex_from_decreases
{
    if i >= s.len() {
        Ok(acc)
    } else {
        match step_at(s, i) {
            Ok((t, j)) => lex_from(s, j, acc + opt_seq(t)),
            Err(e) => Err(e),
        }
    }
}

/// The tokens of a whole script, or why there are none.
pub open spec fn lex(s: Seq<char>) -> Result<Seq<SpecToken>, LexFault> {
    lex_from(s, 0, seq![])
}

proof fn lemma_runs_advance(s: Seq<char>, i: int)
    ensures
        digits_end(s, i) >= i,
        word_end(s, i) >= i,
        line_end(s, i) >= i,
        i <= s.len() ==> digits_end(s, i) <= s.len() && word_end(s, i) <= s.len() && line_end(
            s,
            i,
        ) <= s.len(),
    decreases s.len() - i,
{
    if 0 <= i < s.len() {
        lemma_runs_advance(s, i + 1);
    }
}

proof fn lemma_string_advances(s: Seq<char>, i: int, acc: Seq<char>)
    ensures
        string_from(s, i, acc) is Ok ==> i < string_from(s, i, acc)->Ok_0.1 <= s.len(),
    decreases s.len() - i,
{
    if 0 <= i < s.len() && s[i] != '"' {
        if s[i] == '\\' {
            if i + 1 < s.len() {
                if let Some(d) = escaped(s[i + 1]) {
                    lemma_string_advances(s, i + 2, acc.push(d));
                }
            }
        } else {
            lemma_string_advances(s, i + 1, acc.push(s[i]));
        }
    }
}

proof fn lemma_step_advances(s: Seq<char>, i: int)
    requires
        0 <= i < s.len(),
    ensures
        step_at(s, i) is Ok ==> i < step_at(s, i)->Ok_0.1 <= s.len(),
{
    lemma_runs_advance(s, i);
    lemma_runs_advance(s, i + 1);
    lemma_string_advances(s, i + 1, seq![]);
    let j = digits_end(s, i);
    if j < s.len() {
        lemma_runs_advance(s, j + 1);
    }
}

#[via_fn]
proof fn lex_from_decreases(s: Seq<char>, i: int, acc: Seq<SpecToken>) {
    if 0 <= i < s.len() {
        lemma_step_advances(s, i);
    }
}

/// Relies on char::is_alphanumeric: whether the character is a Unicode
/// letter or number; among ASCII characters, exactly the letters and digits.
#[verifier::external_body]
fn is_alphanumeric(c: char) -> (r: bool)
    ensures
        r == alphanumeric(c),
        (c as u32) < 128 ==> (r <==> (starts_word(c) && c != '_') || is_digit(c)),
{
    c.is_alphanumeric()
}

/// Relies on String::push: the character is added at the end.
#[verifier::external_body]
fn push_char(s: &mut String, c: char)
    ensures
        final(s)@ == old(s)@.push(c),
{
    s.push(c);
}

/// The characters of `s`, in order.
fn chars_of(s: &str) -> (r: Vec<char>)
    ensures
        r@ == s@,
{
    let mut v: Vec<char> = Vec::new();
    for c in it: s.chars()
        invariant
            v@ == it.seq().take(it.index() as int),
    {
        v.push(c);
    }
    v
}

/// The text of `chars[start..end]`.
fn text_of(chars: &Vec<char>, start: usize, end: usize) -> (r: String)
    requires
        start <= end <= chars@.len(),
    ensures
        r@ == chars@.subrange(start as int, end as int),
{
    let mut r = String::new();
    let mut k: usize = start;
    while k < end
        invariant
            start <= k <= end <= chars@.len(),
            r@ == chars@.subrange(start as int, k as int),
        decreases end - k,
    {
        push_char(&mut r, chars[k]);
        assert(chars@.subrange(start as int, k + 1) =~= chars@.subrange(start as int, k as int).push(chars@[k as int]));
        k = k + 1;
    }
    r
}

fn scan_digits(chars: &Vec<char>, i: usize) -> (j: usize)
    requires
        i <= chars@.len(),
    ensures
        j == digits_end(chars@, i as int),
        i <= j <= chars@.len(),
{
    let mut j: usize = i;
    while j < chars.len() && '0' <= chars[j] && chars[j] <= '9'
        invariant
            i <= j <= chars@.len(),
            digits_end(chars@, i as int) == digits_end(chars@, j as int),
        decreases chars@.len() - j,
    {
        j = j + 1;
    }
    j
}

fn scan_word(chars: &Vec<char>, i: usize) -> (j: usize)
    requires
        i <= chars@.len(),
    ensures
        j == word_end(chars@, i as int),
        i <= j <= chars@.len(),
{
    let mut j: usize = i;
    while j < chars.len() && (is_alphanumeric(chars[j]) || chars[j] == '_' || chars[j] == '.')
        invariant
            i <= j <= chars@.len(),
            word_end(chars@, i as int) == word_end(chars@, j as int),
        decreases chars@.len() - j,
    {
        j = j + 1;
    }
    j
}

fn scan_line(chars: &Vec<char>, i: usize) -> (j: usize)
    requires
        i <= chars@.len(),
    ensures
        j == line_end(chars@, i as int),
        i <= j <= chars@.len(),
{
    let mut j: usize = i;
    while j < chars.len() && chars[j] != '\n'
        invariant
            i <= j <= chars@.len(),
            line_end(chars@, i as int) == line_end(chars@, j as int),
        decreases chars@.len() - j,
    {
        j = j + 1;
    }
    j
}

pub open spec fn fault_message(f: LexFault) -> Seq<char> {
    match f {
        LexFault::UnexpectedChar(c) => "Unexpected character: '"@ + seq![c] + "'."@,
        LexFault::UnexpectedEnd => "Unexpected end of input."@,
        LexFault::InvalidEscape(c) => "Invalid escape sequence: \\"@ + seq![c],
        LexFault::InvalidNumber(t) => "Invalid number: "@ + t,
    }
}

fn unexpected_char(c: char) -> (r: String)
    ensures
        r@ == fault_message(LexFault::UnexpectedChar(c)),
{
    let mut r = String::from_str("Unexpected character: '");
    push_char(&mut r, c);
    r.append("'.");
    r
}

fn unexpected_end() -> (r: String)
    ensures
        r@ == fault_message(LexFault::UnexpectedEnd),
{
    String::from_str("Unexpected end of input.")
}

fn invalid_escape(c: char) -> (r: String)
    ensures
        r@ == fault_message(LexFault::InvalidEscape(c)),
{
    let mut r = String::from_str("Invalid escape sequence: \\");
    push_char(&mut r, c);
    r
}

fn escape_of(c: char) -> (r: Option<char>)
    ensures
        r == escaped(c),
{
    if c == 'n' {
        Some('\n')
    } else if c == 't' {
        Some('\t')
    } else if c == 'r' {
        Some('\r')
    } else if c == '"' {
        Some('"')
    } else if c == '\\' {
        Some('\\')
    } else {
        None
    }
}

/// Decodes the string literal whose opening quote stands just before `i`.
fn scan_string(chars: &Vec<char>, i: usize) -> (r: Result<(String, usize), String>)
    requires
        i <= chars@.len(),
    ensures
        match string_from(chars@, i as int, seq![]) {
            Ok((text, j)) => r is Ok && r->Ok_0.0@ == text && r->Ok_0.1 == j,
            Err(e) => r is Err && r->Err_0@ == fault_message(e),
        },
{
    let mut text = String::new();
    let mut k: usize = i;
    loop
        invariant
            i <= k <= chars@.len(),
            string_from(chars@, i as int, seq![]) == string_from(chars@, k as int, text@),
        decreases chars@.len() - k,
    {
        if k >= chars.len() {
            return Err(unexpected_end());
        }
        let c = chars[k];
        if c == '"' {
            return Ok((text, k + 1));
        } else if c == '\\' {
            if k + 1 >= chars.len() {
                return Err(unexpected_end());
            }
            match escape_of(chars[k + 1]) {
                Some(d) => {
                    push_char(&mut text, d);
                    k = k + 2;
                },
                None => {
                    return Err(invalid_escape(chars[k + 1]));
                },
            }
        } else {
            push_char(&mut text, c);
            k = k + 1;
        }
    }
}

proof fn lemma_digits_value_nonneg(d: Seq<char>)
    requires
        forall|k: int| 0 <= k < d.len() ==> is_digit(#[trigger] d[k]),
    ensures
        digits_value(d) >= 0,
    decreases d.len(),
{
    if d.len() > 0 {
        lemma_digits_value_nonneg(d.drop_last());
    }
}

/// A run of digits is worth at least as much as any of its prefixes.
proof fn lemma_digits_value_prefix(d: Seq<char>, m: int)
    requires
        0 <= m <= d.len(),
        forall|k: int| 0 <= k < d.len() ==> is_digit(#[trigger] d[k]),
    ensures
        digits_value(d.subrange(0, m)) <= digits_value(d),
    decreases d.len(),
{
    if m < d.len() {
        lemma_digits_value_nonneg(d.drop_last());
        lemma_digits_value_prefix(d.drop_last(), m);
        assert(d.drop_last().subrange(0, m) =~= d.subrange(0, m));
    } else {
        assert(d.subrange(0, m) =~= d);
    }
}

/// The value of the digits `chars[i..j]`, where it fits in an `i64`.
fn digits_to_i64(chars: &Vec<char>, i: usize, j: usize) -> (r: Option<i64>)
    requires
        i <= j <= chars@.len(),
        forall|k: int| i <= k < j ==> is_digit(#[trigger] chars@[k]),
    ensures
        r is Some <==> digits_value(chars@.subrange(i as int, j as int)) <= i64::MAX,
        r is Some ==> r->0 == digits_value(chars@.subrange(i as int, j as int)),
{
    let ghost s = chars@;
    let mut acc: i64 = 0;
    let mut k: usize = i;
    assert(s.subrange(i as int, i as int) =~= Seq::<char>::empty());
    while k < j
        invariant
            i <= k <= j <= s.len(),
            s == chars@,
            forall|q: int| i <= q < j ==> is_digit(#[trigger] s[q]),
            acc == digits_value(s.subrange(i as int, k as int)),
        decreases j - k,
    {
        let d = (chars[k] as u32 - '0' as u32) as i64;
        let ghost next = s.subrange(i as int, k + 1);
        assert(next.drop_last() =~= s.subrange(i as int, k as int));
        assert(digits_value(next) == acc * 10 + d);
        let ghost whole = s.subrange(i as int, j as int);
        proof {
            assert forall|q: int| 0 <= q < whole.len() implies is_digit(#[trigger] whole[q]) by {
                assert(whole[q] == s[i + q]);
            }
            assert(whole.subrange(0, k + 1 - i) =~= next);
            let done = s.subrange(i as int, k as int);
            assert forall|q: int| 0 <= q < done.len() implies is_digit(#[trigger] done[q]) by {
                assert(done[q] == s[i + q]);
            }
            lemma_digits_value_nonneg(done);
            lemma_digits_value_prefix(whole, k + 1 - i);
        }
        match acc.checked_mul(10) {
            Some(m) => match m.checked_add(d) {
                Some(v) => {
                    acc = v;
                },
                None => {
                    return None;
                },
            },
            None => {
                return None;
            },
        }
        k = k + 1;
    }
    Some(acc)
}

fn invalid_number(chars: &Vec<char>, i: usize, j: usize) -> (r: String)
    requires
        i <= j <= chars@.len(),
    ensures
        r@ == fault_message(LexFault::InvalidNumber(chars@.subrange(i as int, j as int))),
{
    let mut r = String::from_str("Invalid number: ");
    let t = text_of(chars, i, j);
    r.append(t.as_str());
    r
}

proof fn lemma_digits_in_run(s: Seq<char>, i: int)
    requires
        0 <= i <= s.len(),
    ensures
        forall|k: int| i <= k < digits_end(s, i) ==> is_digit(#[trigger] s[k]),
    decreases s.len() - i,
{
    if i < s.len() && is_digit(s[i]) {
        lemma_digits_in_run(s, i + 1);
    }
}

/// The number that starts with the digit at `i`.
fn scan_number(chars: &Vec<char>, i: usize) -> (r: Result<(Token, usize), String>)
    requires
        i < chars@.len(),
        is_digit(chars@[i as int]),
    ensures
        match number_at(chars@, i as int) {
            Ok((t, j)) => r is Ok && t == Some(r->Ok_0.0@) && r->Ok_0.1 == j,
            Err(e) => r is Err && r->Err_0@ == fault_message(e),
        },
{
    let j = scan_digits(chars, i);
    if j < chars.len() && chars[j] == '.' {
        let k = scan_digits(chars, j + 1);
        Ok((Token::FloatLiteral(text_of(chars, i, k)), k))
    } else {
        proof {
            lemma_digits_in_run(chars@, i as int);
        }
        match digits_to_i64(chars, i, j) {
            Some(v) => Ok((Token::IntLiteral(v), j)),
            None => Err(invalid_number(chars, i, j)),
        }
    }
}

/// The token for the word `chars[i..j]`.
fn word_to_token(chars: &Vec<char>, i: usize, j: usize) -> (t: Token)
    requires
        i <= j <= chars@.len(),
    ensures
        t@ == word_token(chars@.subrange(i as int, j as int)),
{
    let ghost w = chars@.subrange(i as int, j as int);
    let n = j - i;
    assert(w.len() == n);
    assert(forall|k: int| 0 <= k < n ==> w[k] == chars@[i + k]);
    if n == 4 && chars[i] == 'R' && chars[i + 1] == 'E' && chars[i + 2] == 'A' && chars[i + 3]
        == 'D' {
        assert(w =~= seq!['R', 'E', 'A', 'D']);
        Token::Read
    } else if n == 5 && chars[i] == 'W' && chars[i + 1] == 'R' && chars[i + 2] == 'I' && chars[i
        + 3] == 'T' && chars[i + 4] == 'E' {
        assert(w =~= seq!['W', 'R', 'I', 'T', 'E']);
        assert(w.len() != seq!['R', 'E', 'A', 'D'].len());
        Token::Write
    } else if n == 5 && chars[i] == 'P' && chars[i + 1] == 'R' && chars[i + 2] == 'I' && chars[i
        + 3] == 'N' && chars[i + 4] == 'T' {
        assert(w =~= seq!['P', 'R', 'I', 'N', 'T']);
        assert(w.len() != seq!['R', 'E', 'A', 'D'].len());
        assert(w[0] != seq!['W', 'R', 'I', 'T', 'E'][0]);
        Token::Print
    } else if n == 6 && chars[i] == 'A' && chars[i + 1] == 'P' && chars[i + 2] == 'P' && chars[i
        + 3] == 'E' && chars[i + 4] == 'N' && chars[i + 5] == 'D' {
        assert(w =~= seq!['A', 'P', 'P', 'E', 'N', 'D']);
        assert(w.len() != seq!['R', 'E', 'A', 'D'].len());
        assert(w.len() != seq!['W', 'R', 'I', 'T', 'E'].len());
        assert(w.len() != seq!['P', 'R', 'I', 'N', 'T'].len());
        Token::Append
    } else {
        proof {
            if w == seq!['R', 'E', 'A', 'D'] {
                assert(w[0] == 'R' && w[1] == 'E' && w[2] == 'A' && w[3] == 'D');
            }
            if w == seq!['W', 'R', 'I', 'T', 'E'] {
                assert(w[0] == 'W' && w[1] == 'R' && w[2] == 'I' && w[3] == 'T' && w[4] == 'E');
            }
            if w == seq!['P', 'R', 'I', 'N', 'T'] {
                assert(w[0] == 'P' && w[1] == 'R' && w[2] == 'I' && w[3] == 'N' && w[4] == 'T');
            }
            if w == seq!['A', 'P', 'P', 'E', 'N', 'D'] {
                assert(w[0] == 'A' && w[1] == 'P' && w[2] == 'P' && w[3] == 'E' && w[4] == 'N'
                    && w[5] == 'D');
            }
        }
        Token::Identifier(text_of(chars, i, j))
    }
}

pub open spec fn opt_view(t: Option<Token>) -> Option<SpecToken> {
    match t {
        Some(t) => Some(t@),
        None => None,
    }
}

/// What the input holds at `i`: a token or nothing, and where lexing goes on.
fn next_token(chars: &Vec<char>, i: usize) -> (r: Result<(Option<Token>, usize), String>)
    requires
        i < chars@.len(),
    ensures
        match step_at(chars@, i as int) {
            Ok((t, j)) => r is Ok && t == opt_view(r->Ok_0.0) && r->Ok_0.1 == j,
            Err(e) => r is Err && r->Err_0@ == fault_message(e),
        },
{
    let len = chars.len();
    let c = chars[i];
    if c == ' ' || c == '\t' || c == '\r' {
        Ok((None, i + 1))
    } else if c == '\n' {
        Ok((Some(Token::Eol), i + 1))
    } else if c == '#' {
        Ok((None, scan_line(chars, i + 1)))
    } else if c == '-' {
        if i + 1 >= len {
            Err(unexpected_end())
        } else if chars[i + 1] == '>' {
            Ok((Some(Token::Arrow), i + 2))
        } else {
            Err(unexpected_char(chars[i + 1]))
        }
    } else if c == '"' {
        match scan_string(chars, i + 1) {
            Ok((text, j)) => Ok((Some(Token::StringLiteral(text)), j)),
            Err(m) => Err(m),
        }
    } else if c == '.' {
        if i + 1 < chars.len() && '0' <= chars[i + 1] && chars[i + 1] <= '9' {
            let j = scan_digits(chars, i + 1);
            Ok((Some(Token::FloatLiteral(text_of(chars, i, j))), j))
        } else {
            let mut dot = String::new();
            push_char(&mut dot, '.');
            assert(dot@ =~= seq!['.']);
            Ok((Some(Token::Identifier(dot)), i + 1))
        }
    } else if '0' <= c && c <= '9' {
        match scan_number(chars, i) {
            Ok((t, j)) => Ok((Some(t), j)),
            Err(m) => Err(m),
        }
    } else if ('a' <= c && c <= 'z') || ('A' <= c && c <= 'Z') || c == '_' {
        let j = scan_word(chars, i + 1);
        Ok((Some(word_to_token(chars, i, j)), j))
    } else {
        Err(unexpected_char(c))
    }
}

/// Splits a script into tokens.
///
/// Blanks and comments give no token; a newline gives `Eol`. Fails with a
/// message on the first character that no rule accepts.
pub fn tokenize(source: &str) -> (r: Result<Vec<Token>, String>)
    ensures
        match lex(source@) {
            Ok(ts) => r is Ok && view_tokens(r->Ok_0@) == ts,
            Err(e) => r is Err && r->Err_0@ == fault_message(e),
        },
{
    let chars = chars_of(source);
    let mut tokens: Vec<Token> = Vec::new();
    let mut i: usize = 0;
    assert(view_tokens(tokens@) =~= Seq::<SpecToken>::empty());
    while i < chars.len()
        invariant
            i <= chars@.len(),
            chars@ == source@,
            lex(source@) == lex_from(chars@, i as int, view_tokens(tokens@)),
        decreases chars@.len() - i,
    {
        proof {
            lemma_step_advances(chars@, i as int);
        }
        match next_token(&chars, i) {
            Ok((t, j)) => {
                let ghost before = tokens@;
                match t {
                    Some(t) => {
                        tokens.push(t);
                    },
                    None => {},
                }
                assert(view_tokens(tokens@) =~= view_tokens(before) + opt_seq(opt_view(t)));
                i = j;
            },
            Err(m) => {
                return Err(m);
            },
        }
    }
    Ok(tokens)
}

} // verus!
