use vstd::prelude::*;
use crate::scan::{
    indentation_width, is_blank, is_ws, leading_ws, scan_from, scan_rest, view_result,
};
use crate::token::{SpecToken, Token, view_tokens};

verus! {

/// Why a line could not be tokenized.
#[derive(Debug, Clone, Copy, PartialEq, Eq, Structural)]
pub enum LexError {
    /// The input could not be read.
    ReadError,
    /// A line dedents to a width that no enclosing block has.
    Indentation,
    /// No lexeme of the language starts at this column (0-based, in characters).
    Unrecognized { column: usize },
}

/// An indentation stack: 0 at the bottom, widths strictly increasing upwards.
pub open spec fn stack_wf(st: Seq<usize>) -> bool {
    &&& st.len() >= 1
    &&& st[0] == 0
    &&& forall|i: int, j: int| 0 <= i < j < st.len() ==> st[i] < st[j]
}

/// `n` dedent tokens.
pub open spec fn dedents(n: nat) -> Seq<SpecToken> {
    Seq::new(n, |_i: int| SpecToken::Dedent)
}

/// The stack left after popping every width above `w`.
pub open spec fn pop_above(st: Seq<usize>, w: usize) -> Seq<usize>
    decreases st.len(),
{
    if st.len() > 0 && st.last() > w {
        pop_above(st.drop_last(), w)
    } else {
        st
    }
}

/// Reconciles a line's width `w` with the stack: one Indent for a deeper line,
/// one Dedent per popped width for a shallower one, which must then meet a
/// width on the stack exactly.
pub open spec fn reconcile(st: Seq<usize>, w: usize) -> Result<(Seq<usize>, Seq<SpecToken>), LexError> {
    if w > st.last() {
        Ok((st.push(w), seq![SpecToken::Indent]))
    } else {
        let p = pop_above(st, w);
        if p.len() > 0 && p.last() == w {
            Ok((p, dedents((st.len() - p.len()) as nat)))
        } else {
            Err(LexError::Indentation)
        }
    }
}

/// A Newline after the lexical tokens of a line that has any.
pub open spec fn newline_after(lex: Seq<SpecToken>) -> Seq<SpecToken> {
    if lex.len() > 0 { seq![SpecToken::Newline] } else { seq![] }
}

/// One line through the layout tokenizer: the new stack and the tokens it yields.
pub open spec fn line_step(st: Seq<usize>, line: Seq<char>) -> Result<(Seq<usize>, Seq<SpecToken>), LexError> {
    if is_blank(line) {
        Ok((st, seq![]))
    } else {
        let w = leading_ws(line);
        match reconcile(st, w as usize) {
            Err(e) => Err(e),
            Ok((st2, layout)) => match scan_from(line, w as int) {
                Err(e) => Err(e),
                Ok(lex) => Ok((st2, layout + lex + newline_after(lex))),
            },
        }
    }
}

/// The lines in order through the layout tokenizer, from stack `st`.
pub open spec fn run_lines(st: Seq<usize>, lines: Seq<Seq<char>>) -> Result<(Seq<usize>, Seq<SpecToken>), LexError>
    decreases lines.len(),
{
    if lines.len() == 0 {
        Ok((st, seq![]))
    } else {
        match line_step(st, lines[0]) {
            Err(e) => Err(e),
            Ok((st1, t1)) => match run_lines(st1, lines.drop_first()) {
                Err(e) => Err(e),
                Ok((st2, t2)) => Ok((st2, t1 + t2)),
            },
        }
    }
}

/// The token stream of a program given as lines: every line from the base
/// stack, then one Dedent for each width still open at the end.
pub open spec fn tokens_of_lines(lines: Seq<Seq<char>>) -> Result<Seq<SpecToken>, LexError> {
    match run_lines(seq![0usize], lines) {
        Ok((st, ts)) => Ok(ts + dedents((st.len() - 1) as nat)),
        Err(e) => Err(e),
    }
}

/// The layout tokenizer: an indentation stack and the tokens produced but not yet taken.
pub struct Lexer {
    indents: Vec<usize>,
    tokens: Vec<Token>,
}

impl Lexer {
    /// The indentation stack.
    pub closed spec fn stack(&self) -> Seq<usize> {
        self.indents@
    }

    /// The tokens waiting to be taken, oldest first.
    pub closed spec fn pending(&self) -> Seq<SpecToken> {
        view_tokens(self.tokens@)
    }

    pub open spec fn wf(&self) -> bool {
        stack_wf(self.stack())
    }

    pub fn new() -> (r: Lexer)
        ensures
            r.stack() == seq![0usize],
            r.pending() == Seq::<SpecToken>::empty(),
            r.wf(),
    {
        let r = Lexer { indents: vec![0], tokens: Vec::new() };
        assert(r.pending() =~= Seq::<SpecToken>::empty());
        r
    }

    /// Takes the oldest pending token, if any.
    pub fn next_token(&mut self) -> (r: Option<Token>)
        ensures
            final(self).stack() == old(self).stack(),
            old(self).pending().len() == 0 ==> r is None && final(self).pending() == old(self).pending(),
            old(self).pending().len() > 0 ==> r is Some && r->0@ == old(self).pending()[0]
                && final(self).pending() == old(self).pending().drop_first(),
    {
        if self.tokens.len() == 0 {
            None
        } else {
            let t = self.tokens.remove(0);
            assert(view_tokens(self.tokens@) =~= view_tokens(old(self).tokens@).drop_first());
            Some(t)
        }
    }

    /// Tokenizes one line (without or with its line break) and queues its tokens.
    /// On an error nothing is queued.
    pub fn push_line(&mut self, line: &str) -> (r: Result<(), LexError>)
        requires
            old(self).wf(),
        ensures
            final(self).wf(),
            match line_step(old(self).stack(), line@) {
                Ok((st, ts)) => r is Ok && final(self).stack() == st
                    && final(self).pending() == old(self).pending() + ts,
                Err(e) => r == Err::<(), LexError>(e) && final(self).pending() == old(self).pending(),
            },
    {
        let n = line.unicode_len();
        let w = indentation_width(line);
        proof {
            lemma_blank_iff_all_ws(line@);
        }
        if w == n {
            assert(old(self).pending() + seq![] =~= old(self).pending());
            return Ok(());
        }
        let mut produced: Vec<Token> = Vec::new();
        let ghost st0 = self.indents@;
        let top = self.indents[self.indents.len() - 1];
        if w > top {
            self.indents.push(w);
            produced.push(Token::Indent);
            proof {
                assert(view_tokens(produced@) =~= seq![SpecToken::Indent]);
            }
        } else {
            assert(view_tokens(produced@) =~= dedents(0));
            while self.indents[self.indents.len() - 1] > w
                invariant
                    stack_wf(self.indents@),
                    self.tokens@ == old(self).tokens@,
                    self.indents@.len() <= st0.len(),
                    self.indents@ =~= st0.subrange(0, self.indents@.len() as int),
                    pop_above(st0, w) == pop_above(self.indents@, w),
                    view_tokens(produced@) =~= dedents((st0.len() - self.indents@.len()) as nat),
                    w < usize::MAX,
                decreases self.indents@.len(),
            {
                proof {
                    if self.indents@.len() == 1 {
                        assert(self.indents@[0] == 0);
                    }
                }
                let ghost before = self.indents@;
                let ghost before_toks = view_tokens(produced@);
                self.indents.pop();
                produced.push(Token::Dedent);
                proof {
                    assert(self.indents@ =~= before.drop_last());
                    assert(view_tokens(produced@) =~= before_toks.push(SpecToken::Dedent));
                }
            }
            if self.indents[self.indents.len() - 1] != w {
                proof {
                    assert(pop_above(self.indents@, w) == self.indents@);
                    assert(leading_ws(line@) as usize == w);
                    assert(reconcile(st0, w) == Err::<(Seq<usize>, Seq<SpecToken>), LexError>(LexError::Indentation));
                }
                return Err(LexError::Indentation);
            }
        }
        let lex = match scan_rest(line, w) {
            Ok(lex) => lex,
            Err(e) => {
                proof {
                    assert(pop_above(self.indents@, w) == self.indents@);
                    assert(leading_ws(line@) as usize == w);
                }
                return Err(e);
            },
        };
        let ghost layout = view_tokens(produced@);
        let ghost lexv = view_tokens(lex@);
        let has_tokens = lex.len() > 0;
        let mut lex = lex;
        produced.append(&mut lex);
        if has_tokens {
            produced.push(Token::Newline);
        }
        proof {
            assert(view_tokens(produced@) =~= layout + lexv + newline_after(lexv));
        }
        let ghost prod = view_tokens(produced@);
        self.tokens.append(&mut produced);
        proof {
            assert(view_tokens(self.tokens@) =~= old(self).pending() + prod);
        }
        Ok(())
    }

    /// All pending tokens, oldest first.
    pub fn into_tokens(self) -> (r: Vec<Token>)
        ensures
            view_tokens(r@) == self.pending(),
    {
        self.tokens
    }

    /// Closes every width still open, one Dedent each, at the end of the input.
    pub fn finish(&mut self)
        requires
            old(self).wf(),
        ensures
            final(self).wf(),
            final(self).stack() == seq![0usize],
            final(self).pending() == old(self).pending() + dedents((old(self).stack().len() - 1) as nat),
    {
        let ghost st0 = self.indents@;
        let ghost p0 = view_tokens(self.tokens@);
        while self.indents.len() > 1
            invariant
                1 <= self.indents@.len() <= st0.len(),
                self.indents@ =~= st0.subrange(0, self.indents@.len() as int),
                stack_wf(st0),
                view_tokens(self.tokens@) =~= p0 + dedents((st0.len() - self.indents@.len()) as nat),
            decreases self.indents@.len(),
        {
            let ghost before_toks = view_tokens(self.tokens@);
            self.indents.pop();
            self.tokens.push(Token::Dedent);
            assert(view_tokens(self.tokens@) =~= before_toks.push(SpecToken::Dedent));
        }
        assert(self.indents@ =~= seq![0usize]);
    }
}

/// `r` with the tokens `front` before it and the closing dedents after it.
pub open spec fn closed_after(front: Seq<SpecToken>, r: Result<(Seq<usize>, Seq<SpecToken>), LexError>) -> Result<Seq<SpecToken>, LexError> {
    match r {
        Ok((st, ts)) => Ok(front + ts + dedents((st.len() - 1) as nat)),
        Err(e) => Err(e),
    }
}

/// The views of a sequence of strings.
pub open spec fn view_lines(ls: Seq<String>) -> Seq<Seq<char>> {
    ls.map_values(|l: String| l@)
}

/// The lines of `s` from `start` on, the current line having been read up to `i`;
/// line breaks end lines and are not part of them.
pub open spec fn lines_from(s: Seq<char>, start: int, i: int) -> Seq<Seq<char>>
    decreases s.len() - i,
{
    if i < 0 || i >= s.len() {
        if 0 <= start < s.len() { seq![s.subrange(start, s.len() as int)] } else { seq![] }
    } else if s[i] == '\n' {
        seq![s.subrange(start, i)] + lines_from(s, i + 1, i + 1)
    } else {
        lines_from(s, start, i + 1)
    }
}

/// The lines of a text: split at each line break; a text that ends with a line
/// break has no empty line after it.
pub open spec fn lines_of(s: Seq<char>) -> Seq<Seq<char>> {
    lines_from(s, 0, 0)
}

/// The token stream of a text, as `tokens_of_lines` gives it for its lines.
pub open spec fn tokens_of_text(s: Seq<char>) -> Result<Seq<SpecToken>, LexError> {
    tokens_of_lines(lines_of(s))
}

/// Splits a text into its lines, as `lines_of` states.
pub fn split_lines(text: &str) -> (r: Vec<String>)
    ensures
        view_lines(r@) == lines_of(text@),
{
    let n = text.unicode_len();
    let mut start: usize = 0;
    let mut i: usize = 0;
    let mut out: Vec<String> = Vec::new();
    assert(view_lines(out@) + lines_from(text@, 0, 0) =~= lines_from(text@, 0, 0));
    while i < n
        invariant
            n == text@.len(),
            start <= i <= n,
            lines_of(text@) == view_lines(out@) + lines_from(text@, start as int, i as int),
        decreases n - i,
    {
        if text.get_char(i) == '\n' {
            let line = text.substring_char(start, i).to_owned();
            let ghost before = view_lines(out@);
            out.push(line);
            assert(view_lines(out@) =~= before.push(text@.subrange(start as int, i as int)));
            assert(before + (seq![text@.subrange(start as int, i as int)]
                + lines_from(text@, i + 1, i + 1)) =~= view_lines(out@) + lines_from(text@, i + 1, i + 1));
            i = i + 1;
            start = i;
        } else {
            i = i + 1;
        }
    }
    if start < n {
        let line = text.substring_char(start, n).to_owned();
        let ghost before = view_lines(out@);
        out.push(line);
        assert(view_lines(out@) =~= before.push(text@.subrange(start as int, n as int)));
    } else {
        assert(view_lines(out@) + seq![] =~= view_lines(out@));
    }
    out
}

/// Tokenizes a program given as its lines: the lines in order, then the dedents
/// that close every block still open.
pub fn tokenize_lines(lines: &Vec<String>) -> (r: Result<Vec<Token>, LexError>)
    ensures
        view_result(r) == tokens_of_lines(view_lines(lines@)),
{
    let ghost ls = view_lines(lines@);
    let mut lx = Lexer::new();
    let mut i: usize = 0;
    proof {
        assert(ls.skip(0) =~= ls);
        match run_lines(seq![0usize], ls) {
            Ok((st, ts)) => {
                assert(Seq::<SpecToken>::empty() + ts =~= ts);
            },
            Err(_) => {},
        }
    }
    while i < lines.len()
        invariant
            ls == view_lines(lines@),
            lx.wf(),
            i <= lines.len(),
            tokens_of_lines(ls) == closed_after(lx.pending(), run_lines(lx.stack(), ls.skip(i as int))),
        decreases lines.len() - i,
    {
        let ghost st = lx.stack();
        let ghost front = lx.pending();
        proof {
            assert(ls.skip(i as int)[0] == lines@[i as int]@);
            assert(ls.skip(i as int).drop_first() =~= ls.skip(i as int + 1));
        }
        match lx.push_line(lines[i].as_str()) {
            Ok(()) => {
                proof {
                    match line_step(st, ls[i as int]) {
                        Ok((st1, t1)) => {
                            match run_lines(st1, ls.skip(i as int + 1)) {
                                Ok((st2, t2)) => {
                                    assert(front + (t1 + t2) + dedents((st2.len() - 1) as nat)
                                        =~= (front + t1) + t2 + dedents((st2.len() - 1) as nat));
                                },
                                Err(_) => {},
                            }
                        },
                        Err(_) => {},
                    }
                }
            },
            Err(e) => {
                return Err(e);
            },
        }
        i = i + 1;
    }
    proof {
        assert(ls.skip(i as int).len() == 0);
    }
    lx.finish();
    Ok(lx.into_tokens())
}

/// Tokenizes a whole text, line by line.
pub fn tokenize(source: &str) -> (r: Result<Vec<Token>, LexError>)
    ensures
        view_result(r) == tokens_of_text(source@),
{
    let lines = split_lines(source);
    tokenize_lines(&lines)
}

/// A line holds only whitespace exactly when all of it is leading whitespace.
proof fn lemma_blank_iff_all_ws(s: Seq<char>)
    ensures
        is_blank(s) <==> leading_ws(s) == s.len(),
        leading_ws(s) <= s.len(),
    decreases s.len(),
{
    if s.len() > 0 {
        lemma_blank_iff_all_ws(s.drop_first());
        if is_ws(s[0]) {
            if is_blank(s.drop_first()) {
                assert forall|i: int| 0 <= i < s.len() implies is_ws(#[trigger] s[i]) by {
                    if i > 0 {
                        assert(s[i] == s.drop_first()[i - 1]);
                    }
                }
            }
            if is_blank(s) {
                assert forall|i: int| 0 <= i < s.drop_first().len() implies is_ws(#[trigger] s.drop_first()[i]) by {
                    assert(s.drop_first()[i] == s[i + 1]);
                }
            }
        } else {
            assert(!is_ws(s[0]));
        }
    }
}

} // verus!
