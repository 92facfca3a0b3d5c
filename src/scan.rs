use vstd::prelude::*;
use crate::lexer::LexError;
use crate::token::{SpecToken, Token, view_tokens};

verus! {

/// Characters skipped between lexemes and counted as indentation at the start of a line.
pub open spec fn is_ws(c: char) -> bool {
    c == ' ' || c == '\t' || c == '\r' || c == '\n'
}

pub open spec fn is_digit(c: char) -> bool {
    '0' <= c && c <= '9'
}

pub open spec fn is_ident_start(c: char) -> bool {
    ('a' <= c && c <= 'z') || ('A' <= c && c <= 'Z') || c == '_'
}

pub open spec fn is_ident_char(c: char) -> bool {
    is_ident_start(c) || is_digit(c)
}

/// Number of whitespace characters at the start of `s`: the line's indentation width.
pub open spec fn leading_ws(s: Seq<char>) -> nat
    decreases s.len(),
{
    if s.len() > 0 && is_ws(s[0]) {
        1 + leading_ws(s.drop_first())
    } else {
        0
    }
}

/// A line that holds nothing but whitespace.
pub open spec fn is_blank(s: Seq<char>) -> bool {
    forall|i: int| 0 <= i < s.len() ==> is_ws(#[trigger] s[i])
}

/// End of the run of identifier characters that starts at `i`.
pub open spec fn word_end(s: Seq<char>, i: int) -> int
    decreases s.len() - i,
{
    if 0 <= i < s.len() && is_ident_char(s[i]) {
        word_end(s, i + 1)
    } else {
        i
    }
}

/// End of the run of decimal digits that starts at `i`.
pub open spec fn digits_end(s: Seq<char>, i: int) -> int
    decreases s.len() - i,
{
    if 0 <= i < s.len() && is_digit(s[i]) {
        digits_end(s, i + 1)
    } else {
        i
    }
}

/// The value of a run of decimal digits.
pub open spec fn digits_value(d: Seq<char>) -> int
    decreases d.len(),
{
    if d.len() == 0 {
        0
    } else {
        digits_value(d.drop_last()) * 10 + (d.last() as int - '0' as int)
    }
}

/// The token that a word (`[a-zA-Z_][a-zA-Z0-9_]*`) stands for.
pub open spec fn word_token(w: Seq<char>) -> SpecToken {
    if w == "and"@ {
        SpecToken::And
    } else if w == "break"@ {
        SpecToken::Break
    } else if w == "def"@ {
        SpecToken::Def
    } else if w == "elif"@ {
        SpecToken::Elif
    } else if w == "else"@ {
        SpecToken::Else
    } else if w == "for"@ {
        SpecToken::For
    } else if w == "if"@ {
        SpecToken::If
    } else if w == "not"@ {
        SpecToken::Not
    } else if w == "or"@ {
        SpecToken::Or
    } else if w == "return"@ {
        SpecToken::Return
    } else if w == "while"@ {
        SpecToken::While
    } else if w == "True"@ {
        SpecToken::Boolean(true)
    } else if w == "False"@ {
        SpecToken::Boolean(false)
    } else {
        SpecToken::Identifier(w)
    }
}

/// A number starts at `j`: a digit, or a point followed by a digit.
pub open spec fn number_start(s: Seq<char>, j: int) -> bool {
    0 <= j < s.len() && (is_digit(s[j]) || (s[j] == '.' && j + 1 < s.len() && is_digit(s[j + 1])))
}

/// A fractional part `\.[0-9]+` starts at `e`.
pub open spec fn has_fraction(s: Seq<char>, e: int) -> bool {
    0 <= e && e + 1 < s.len() && s[e] == '.' && is_digit(s[e + 1])
}

/// The numeric lexeme that starts at `i`, its digits at `j` (`j == i + 1` after a minus sign).
/// The longest match wins: a float where a fraction follows, else an integer,
/// which must fit in 32 bits.
pub open spec fn number_lexeme(s: Seq<char>, i: int, j: int) -> Option<(SpecToken, int)> {
    let e1 = digits_end(s, j);
    if has_fraction(s, e1) {
        let e2 = digits_end(s, e1 + 1);
        Some((SpecToken::Float(s.subrange(i, e2)), e2))
    } else {
        let v = digits_value(s.subrange(j, e1));
        let value = if j > i { -v } else { v };
        if i32::MIN <= value <= i32::MAX {
            Some((SpecToken::Integer(value as i32), e1))
        } else {
            None
        }
    }
}

/// The token that starts at `i`, with the index just past it, or `None` where no
/// lexeme of the language starts there. Of the lexemes that match, the longest wins.
pub open spec fn lexeme(s: Seq<char>, i: int) -> Option<(SpecToken, int)> {
    if !(0 <= i < s.len()) {
        None
    } else {
        let c = s[i];
        let next_is_eq = i + 1 < s.len() && s[i + 1] == '=';
        if is_ident_start(c) {
            let e = word_end(s, i);
            Some((word_token(s.subrange(i, e)), e))
        } else if number_start(s, i) {
            number_lexeme(s, i, i)
        } else if c == '-' && number_start(s, i + 1) {
            number_lexeme(s, i, i + 1)
        } else if c == '=' {
            if next_is_eq { Some((SpecToken::Equal, i + 2)) } else { Some((SpecToken::Assign, i + 1)) }
        } else if c == '!' {
            if next_is_eq { Some((SpecToken::NotEqual, i + 2)) } else { None }
        } else if c == '>' {
            if next_is_eq { Some((SpecToken::GTE, i + 2)) } else { Some((SpecToken::GT, i + 1)) }
        } else if c == '<' {
            if next_is_eq { Some((SpecToken::LTE, i + 2)) } else { Some((SpecToken::LT, i + 1)) }
        } else if c == '+' {
            Some((SpecToken::Add, i + 1))
        } else if c == '-' {
            Some((SpecToken::Subtract, i + 1))
        } else if c == '*' {
            Some((SpecToken::Multiply, i + 1))
        } else if c == '/' {
            Some((SpecToken::Divide, i + 1))
        } else if c == '(' {
            Some((SpecToken::ParenOpen, i + 1))
        } else if c == ')' {
            Some((SpecToken::ParenClose, i + 1))
        } else if c == ',' {
            Some((SpecToken::Comma, i + 1))
        } else if c == ':' {
            Some((SpecToken::Colon, i + 1))
        } else {
            None
        }
    }
}

/// The lexical tokens of `s` from index `i` on: whitespace separates lexemes,
/// and a `#` starts a comment that runs to the end of the line.
pub open spec fn scan_from(s: Seq<char>, i: int) -> Result<Seq<SpecToken>, LexError>
    decreases s.len() - i,
{
    if i < 0 || i >= s.len() {
        Ok(seq![])
    } else if is_ws(s[i]) {
        scan_from(s, i + 1)
    } else if s[i] == '#' {
        Ok(seq![])
    } else {
        match lexeme(s, i) {
            Some((t, e)) => if i < e <= s.len() {
                match scan_from(s, e) {
                    Ok(rest) => Ok(seq![t] + rest),
                    Err(x) => Err(x),
                }
            } else {
                Err(LexError::Unrecognized { column: i as usize })
            },
            None => Err(LexError::Unrecognized { column: i as usize }),
        }
    }
}

/// `r` with `front` put before the tokens of a success.
pub open spec fn prepend(front: Seq<SpecToken>, r: Result<Seq<SpecToken>, LexError>) -> Result<Seq<SpecToken>, LexError> {
    match r {
        Ok(ts) => Ok(front + ts),
        Err(e) => Err(e),
    }
}

/// Counts the whitespace in front of the first lexeme of a line.
#[derive(Debug, Default)]
pub struct IndentHelper {
    pub tokens: u32,
    pub whites: usize,
}

impl IndentHelper {
    pub fn new() -> (r: IndentHelper)
        ensures
            r.tokens == 0,
            r.whites == 0,
    {
        IndentHelper { tokens: 0, whites: 0 }
    }

    /// Called as the scanner moves on to the next lexeme.
    pub fn on_advance(&mut self)
        ensures
            final(self).tokens == if old(self).tokens < u32::MAX { old(self).tokens + 1 } else { old(self).tokens as int },
            final(self).whites == old(self).whites,
    {
        if self.tokens < u32::MAX {
            self.tokens = self.tokens + 1;
        }
    }

    /// Called for each whitespace character skipped; only those before the
    /// first lexeme count.
    pub fn on_whitespace(&mut self)
        requires
            old(self).whites < usize::MAX,
        ensures
            final(self).tokens == old(self).tokens,
            final(self).whites == if old(self).tokens == 1 { old(self).whites + 1 } else { old(self).whites as int },
    {
        if self.tokens == 1 {
            self.whites = self.whites + 1;
        }
    }
}

fn char_is_ws(c: char) -> (r: bool)
    ensures
        r == is_ws(c),
{
    c == ' ' || c == '\t' || c == '\r' || c == '\n'
}

fn char_is_digit(c: char) -> (r: bool)
    ensures
        r == is_digit(c),
{
    '0' <= c && c <= '9'
}

fn char_is_ident_start(c: char) -> (r: bool)
    ensures
        r == is_ident_start(c),
{
    ('a' <= c && c <= 'z') || ('A' <= c && c <= 'Z') || c == '_'
}

proof fn lemma_leading_ws_step(s: Seq<char>, k: int)
    requires
        0 <= k < s.len(),
        forall|j: int| 0 <= j < k ==> is_ws(#[trigger] s[j]),
    ensures
        is_ws(s[k]) ==> leading_ws(s.subrange(k, s.len() as int)) == 1 + leading_ws(s.subrange(k + 1, s.len() as int)),
        !is_ws(s[k]) ==> leading_ws(s.subrange(k, s.len() as int)) == 0,
{
    assert(s.subrange(k, s.len() as int).drop_first() =~= s.subrange(k + 1, s.len() as int));
}

/// The indentation width of a line: the number of whitespace characters before
/// its first lexeme.
pub fn indentation_width(line: &str) -> (r: usize)
    ensures
        r == leading_ws(line@),
        r <= line@.len(),
{
    let n = line.unicode_len();
    let mut helper = IndentHelper::new();
    helper.on_advance();
    let mut k: usize = 0;
    assert(line@.subrange(0, n as int) =~= line@);
    while k < n && char_is_ws(line.get_char(k))
        invariant
            n == line@.len(),
            k <= n,
            helper.tokens == 1,
            helper.whites == k,
            forall|j: int| 0 <= j < k ==> is_ws(#[trigger] line@[j]),
            leading_ws(line@) == k + leading_ws(line@.subrange(k as int, n as int)),
        decreases n - k,
    {
        proof {
            lemma_leading_ws_step(line@, k as int);
        }
        helper.on_whitespace();
        k = k + 1;
    }
    proof {
        if k < n {
            lemma_leading_ws_step(line@, k as int);
        } else {
            assert(line@.subrange(k as int, n as int).len() == 0);
        }
    }
    helper.whites
}

fn char_is_ident_char(c: char) -> (r: bool)
    ensures
        r == is_ident_char(c),
{
    char_is_ident_start(c) || char_is_digit(c)
}

/// What `scan_from` states of a scan, over the tokens' views.
pub open spec fn view_result(r: Result<Vec<Token>, LexError>) -> Result<Seq<SpecToken>, LexError> {
    match r {
        Ok(v) => Ok(view_tokens(v@)),
        Err(e) => Err(e),
    }
}

/// Digit runs longer than this saturate at it; every such run is out of 32-bit range.
pub const DIGITS_CAP: i64 = 2147483649;

pub open spec fn capped(v: int) -> int {
    if v < DIGITS_CAP { v } else { DIGITS_CAP as int }
}

/// The end of the digit run at `j`, and its value, saturated at `DIGITS_CAP`.
fn scan_digits(line: &str, n: usize, j: usize) -> (r: (usize, i64))
    requires
        n == line@.len(),
        j <= n,
    ensures
        r.0 == digits_end(line@, j as int),
        j <= r.0 <= n,
        r.1 == capped(digits_value(line@.subrange(j as int, r.0 as int))),
        0 <= r.1,
{
    let mut k: usize = j;
    let mut acc: i64 = 0;
    assert(line@.subrange(j as int, j as int).len() == 0);
    while k < n && char_is_digit(line.get_char(k))
        invariant
            n == line@.len(),
            j <= k <= n,
            digits_end(line@, j as int) == digits_end(line@, k as int),
            acc == capped(digits_value(line@.subrange(j as int, k as int))),
            0 <= acc,
        decreases n - k,
    {
        let c = line.get_char(k);
        let d: i64 = (c as u32 - '0' as u32) as i64;
        proof {
            let sub = line@.subrange(j as int, k as int + 1);
            assert(sub.drop_last() =~= line@.subrange(j as int, k as int));
            assert(sub.last() == c);
            assert(digits_value(sub) == digits_value(line@.subrange(j as int, k as int)) * 10 + d);
        }
        let next = acc * 10 + d;
        acc = if next < DIGITS_CAP { next } else { DIGITS_CAP };
        k = k + 1;
    }
    (k, acc)
}

proof fn lemma_run_ends_past(s: Seq<char>, j: int)
    requires
        0 <= j,
    ensures
        digits_end(s, j) >= j,
        word_end(s, j) >= j,
    decreases s.len() - j,
{
    if j < s.len() {
        lemma_run_ends_past(s, j + 1);
    }
}

fn starts_number(line: &str, n: usize, j: usize) -> (r: bool)
    requires
        n == line@.len(),
    ensures
        r == number_start(line@, j as int),
{
    if j >= n {
        return false;
    }
    let c = line.get_char(j);
    char_is_digit(c) || (c == '.' && j + 1 < n && char_is_digit(line.get_char(j + 1)))
}

fn scan_number(line: &str, n: usize, i: usize, j: usize) -> (r: Option<(Token, usize)>)
    requires
        n == line@.len(),
        j == i || j == i + 1,
        number_start(line@, j as int),
    ensures
        match r {
            Some((t, e)) => number_lexeme(line@, i as int, j as int) == Some((t@, e as int)) && i < e <= n,
            None => number_lexeme(line@, i as int, j as int) is None,
        },
{
    let (e1, v) = scan_digits(line, n, j);
    proof {
        if is_digit(line@[j as int]) {
            lemma_run_ends_past(line@, j as int + 1);
        }
    }
    if e1 < n && e1 + 1 < n && line.get_char(e1) == '.' && char_is_digit(line.get_char(e1 + 1)) {
        let (e2, _) = scan_digits(line, n, e1 + 1);
        let text = line.substring_char(i, e2).to_owned();
        Some((Token::Float(text), e2))
    } else {
        let value: i64 = if j > i { -v } else { v };
        if -2147483648 <= value && value <= 2147483647 {
            Some((Token::Integer(value as i32), e1))
        } else {
            None
        }
    }
}

fn same_text(w: &String, kw: &str) -> (r: bool)
    ensures
        r == (w@ == kw@),
{
    let k = kw.to_owned();
    *w == k
}

fn word_to_token(w: String) -> (r: Token)
    ensures
        r@ == word_token(w@),
{
    if same_text(&w, "and") {
        Token::And
    } else if same_text(&w, "break") {
        Token::Break
    } else if same_text(&w, "def") {
        Token::Def
    } else if same_text(&w, "elif") {
        Token::Elif
    } else if same_text(&w, "else") {
        Token::Else
    } else if same_text(&w, "for") {
        Token::For
    } else if same_text(&w, "if") {
        Token::If
    } else if same_text(&w, "not") {
        Token::Not
    } else if same_text(&w, "or") {
        Token::Or
    } else if same_text(&w, "return") {
        Token::Return
    } else if same_text(&w, "while") {
        Token::While
    } else if same_text(&w, "True") {
        Token::Boolean(true)
    } else if same_text(&w, "False") {
        Token::Boolean(false)
    } else {
        Token::Identifier(w)
    }
}

fn find_word_end(line: &str, n: usize, i: usize) -> (r: usize)
    requires
        n == line@.len(),
        i <= n,
    ensures
        r == word_end(line@, i as int),
        i <= r <= n,
{
    let mut k: usize = i;
    while k < n && char_is_ident_char(line.get_char(k))
        invariant
            n == line@.len(),
            i <= k <= n,
            word_end(line@, i as int) == word_end(line@, k as int),
        decreases n - k,
    {
        k = k + 1;
    }
    k
}

/// The lexeme that starts at `i`, as `lexeme` states it.
fn lexeme_at(line: &str, n: usize, i: usize) -> (r: Option<(Token, usize)>)
    requires
        n == line@.len(),
        i < n,
    ensures
        match r {
            Some((t, e)) => lexeme(line@, i as int) == Some((t@, e as int)) && i < e <= n,
            None => lexeme(line@, i as int) is None,
        },
{
    let c = line.get_char(i);
    let next_is_eq = i + 1 < n && line.get_char(i + 1) == '=';
    if char_is_ident_start(c) {
        let e = find_word_end(line, n, i);
        proof {
            lemma_run_ends_past(line@, i as int + 1);
        }
        let w = line.substring_char(i, e).to_owned();
        Some((word_to_token(w), e))
    } else if starts_number(line, n, i) {
        scan_number(line, n, i, i)
    } else if c == '-' && starts_number(line, n, i + 1) {
        scan_number(line, n, i, i + 1)
    } else if c == '=' {
        if next_is_eq { Some((Token::Equal, i + 2)) } else { Some((Token::Assign, i + 1)) }
    } else if c == '!' {
        if next_is_eq { Some((Token::NotEqual, i + 2)) } else { None }
    } else if c == '>' {
        if next_is_eq { Some((Token::GTE, i + 2)) } else { Some((Token::GT, i + 1)) }
    } else if c == '<' {
        if next_is_eq { Some((Token::LTE, i + 2)) } else { Some((Token::LT, i + 1)) }
    } else if c == '+' {
        Some((Token::Add, i + 1))
    } else if c == '-' {
        Some((Token::Subtract, i + 1))
    } else if c == '*' {
        Some((Token::Multiply, i + 1))
    } else if c == '/' {
        Some((Token::Divide, i + 1))
    } else if c == '(' {
        Some((Token::ParenOpen, i + 1))
    } else if c == ')' {
        Some((Token::ParenClose, i + 1))
    } else if c == ',' {
        Some((Token::Comma, i + 1))
    } else if c == ':' {
        Some((Token::Colon, i + 1))
    } else {
        None
    }
}

/// Scans `line` from character `from` on into lexical tokens, as `scan_from` states.
pub fn scan_rest(line: &str, from: usize) -> (r: Result<Vec<Token>, LexError>)
    requires
        from <= line@.len(),
    ensures
        view_result(r) == scan_from(line@, from as int),
{
    let n = line.unicode_len();
    let mut i: usize = from;
    let mut out: Vec<Token> = Vec::new();
    assert(view_tokens(out@) =~= seq![]);
    assert(scan_from(line@, from as int) =~= prepend(view_tokens(out@), scan_from(line@, i as int)));
    loop
        invariant
            n == line@.len(),
            i <= n,
            scan_from(line@, from as int) == prepend(view_tokens(out@), scan_from(line@, i as int)),
        decreases n - i,
    {
        if i >= n {
            assert(view_tokens(out@) + seq![] =~= view_tokens(out@));
            return Ok(out);
        }
        let c = line.get_char(i);
        if char_is_ws(c) {
            i = i + 1;
        } else if c == '#' {
            assert(view_tokens(out@) + seq![] =~= view_tokens(out@));
            return Ok(out);
        } else {
            match lexeme_at(line, n, i) {
                None => {
                    return Err(LexError::Unrecognized { column: i });
                },
                Some((t, e)) => {
                    let ghost before = view_tokens(out@);
                    let ghost tv = t@;
                    out.push(t);
                    proof {
                        assert(view_tokens(out@) =~= before.push(tv));
                        match scan_from(line@, e as int) {
                            Ok(rest) => {
                                assert(before + (seq![tv] + rest) =~= before.push(tv) + rest);
                            },
                            Err(_) => {},
                        }
                    }
                    i = e;
                },
            }
        }
    }
}

} // verus!
