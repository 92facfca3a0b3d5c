use vstd::prelude::*;
use crate::lexer::{
    dedents, line_step, lines_from, lines_of, newline_after, pop_above, reconcile, run_lines,
    stack_wf, tokens_of_lines, tokens_of_text,
};
use crate::scan::{is_blank, is_ws, leading_ws, lexeme, scan_from};
use crate::token::SpecToken;

verus! {

/// How many tokens of `ts` are `k`.
pub open spec fn count_of(ts: Seq<SpecToken>, k: SpecToken) -> nat
    decreases ts.len(),
{
    if ts.len() == 0 {
        0
    } else {
        count_of(ts.drop_last(), k) + if ts.last() == k { 1nat } else { 0nat }
    }
}

/// A line whose first character after its indentation starts a comment.
pub open spec fn is_comment_only(line: Seq<char>) -> bool {
    leading_ws(line) < line.len() && line[leading_ws(line) as int] == '#'
}

/// The first line of `b` that is not blank, if any, starts at the margin.
pub open spec fn starts_at_margin(b: Seq<Seq<char>>) -> bool {
    forall|i: int|
        0 <= i < b.len() && !is_blank(#[trigger] b[i]) && (forall|j: int| 0 <= j < i ==> is_blank(b[j]))
            ==> leading_ws(b[i]) == 0
}

proof fn lemma_count_add(a: Seq<SpecToken>, b: Seq<SpecToken>, k: SpecToken)
    ensures
        count_of(a + b, k) == count_of(a, k) + count_of(b, k),
    decreases b.len(),
{
    if b.len() > 0 {
        lemma_count_add(a, b.drop_last(), k);
        assert((a + b).drop_last() =~= a + b.drop_last());
    } else {
        assert(a + b =~= a);
    }
}

proof fn lemma_count_short(t: SpecToken, k: SpecToken)
    ensures
        count_of(Seq::<SpecToken>::empty(), k) == 0,
        count_of(seq![t], k) == if t == k { 1nat } else { 0nat },
{
    let one = seq![t];
    assert(one.drop_last() =~= Seq::<SpecToken>::empty());
    assert(count_of(one.drop_last(), k) == 0);
    assert(one.last() == t);
}

proof fn lemma_count_dedents(n: nat, k: SpecToken)
    ensures
        count_of(dedents(n), k) == if k == SpecToken::Dedent { n } else { 0 },
    decreases n,
{
    if n > 0 {
        lemma_count_dedents((n - 1) as nat, k);
        assert(dedents(n).drop_last() =~= dedents((n - 1) as nat));
    }
}

proof fn lemma_leading_ws_facts(s: Seq<char>)
    ensures
        leading_ws(s) <= s.len(),
        forall|j: int| 0 <= j < leading_ws(s) ==> is_ws(#[trigger] s[j]),
        leading_ws(s) < s.len() ==> !is_ws(s[leading_ws(s) as int]),
    decreases s.len(),
{
    if s.len() > 0 && is_ws(s[0]) {
        let d = s.drop_first();
        lemma_leading_ws_facts(d);
        assert forall|j: int| 0 <= j < leading_ws(s) implies is_ws(#[trigger] s[j]) by {
            if j > 0 {
                assert(s[j] == d[j - 1]);
            }
        }
        if leading_ws(s) < s.len() {
            assert(s[leading_ws(s) as int] == d[leading_ws(d) as int]);
        }
    }
}

/// The scanner yields lexical tokens only: no Indent, Dedent or Newline.
proof fn lemma_scan_lexical_only(s: Seq<char>, i: int)
    ensures
        scan_from(s, i) matches Ok(ts) ==> count_of(ts, SpecToken::Indent) == 0
            && count_of(ts, SpecToken::Dedent) == 0,
    decreases s.len() - i,
{
    if 0 <= i < s.len() {
        if is_ws(s[i]) {
            lemma_scan_lexical_only(s, i + 1);
        } else if s[i] != '#' {
            if let Some((t, e)) = lexeme(s, i) {
                if i < e <= s.len() {
                    lemma_scan_lexical_only(s, e);
                    assert(t != SpecToken::Indent && t != SpecToken::Dedent) by {
                        reveal_with_fuel(crate::scan::word_token, 1);
                    }
                    if let Ok(rest) = scan_from(s, e) {
                        lemma_count_add(seq![t], rest, SpecToken::Indent);
                        lemma_count_add(seq![t], rest, SpecToken::Dedent);
                        lemma_count_short(t, SpecToken::Indent);
                        lemma_count_short(t, SpecToken::Dedent);
                    }
                }
            }
        } else {
            lemma_count_short(SpecToken::Newline, SpecToken::Indent);
            lemma_count_short(SpecToken::Newline, SpecToken::Dedent);
        }
    } else {
        lemma_count_short(SpecToken::Newline, SpecToken::Indent);
        lemma_count_short(SpecToken::Newline, SpecToken::Dedent);
    }
}

proof fn lemma_pop_above_prefix(st: Seq<usize>, w: usize)
    ensures
        pop_above(st, w).len() <= st.len(),
        pop_above(st, w) =~= st.subrange(0, pop_above(st, w).len() as int),
    decreases st.len(),
{
    if st.len() > 0 && st.last() > w {
        lemma_pop_above_prefix(st.drop_last(), w);
    }
}

proof fn lemma_pop_to_margin(st: Seq<usize>)
    requires
        stack_wf(st),
    ensures
        pop_above(st, 0) == seq![0usize],
    decreases st.len(),
{
    if st.len() > 1 {
        assert(st[0] < st[st.len() - 1]);
        let d = st.drop_last();
        assert forall|i: int, j: int| 0 <= i < j < d.len() implies d[i] < d[j] by {
            assert(st[i] < st[j]);
        }
        lemma_pop_to_margin(d);
    } else {
        assert(st =~= seq![0usize]);
    }
}

/// One line keeps the stack well formed, and the Indents it yields exceed its
/// Dedents by exactly the growth of the stack.
proof fn lemma_line_balance(st: Seq<usize>, line: Seq<char>)
    requires
        stack_wf(st),
    ensures
        line_step(st, line) matches Ok((st1, ts)) ==> stack_wf(st1)
            && count_of(ts, SpecToken::Indent) + st.len() == count_of(ts, SpecToken::Dedent) + st1.len(),
{
    if !is_blank(line) {
        let w = leading_ws(line);
        lemma_scan_lexical_only(line, w as int);
        if let Ok((st1, layout)) = reconcile(st, w as usize) {
            if let Ok(lex) = scan_from(line, w as int) {
                let nl = newline_after(lex);
                lemma_count_add(layout + lex, nl, SpecToken::Indent);
                lemma_count_add(layout + lex, nl, SpecToken::Dedent);
                lemma_count_add(layout, lex, SpecToken::Indent);
                lemma_count_add(layout, lex, SpecToken::Dedent);
                lemma_count_short(SpecToken::Newline, SpecToken::Indent);
                lemma_count_short(SpecToken::Newline, SpecToken::Dedent);
                lemma_count_short(SpecToken::Indent, SpecToken::Indent);
                lemma_count_short(SpecToken::Indent, SpecToken::Dedent);
                if (w as usize) > st.last() {
                    assert(layout.drop_last() =~= Seq::<SpecToken>::empty());
                    assert(stack_wf(st1)) by {
                        assert forall|i: int, j: int| 0 <= i < j < st1.len() implies st1[i] < st1[j] by {
                            if j == st1.len() - 1 && j > 0 {
                                assert(st[i] <= st[st.len() - 1]);
                            }
                        }
                    }
                } else {
                    lemma_pop_above_prefix(st, w as usize);
                    lemma_count_dedents((st.len() - st1.len()) as nat, SpecToken::Indent);
                    lemma_count_dedents((st.len() - st1.len()) as nat, SpecToken::Dedent);
                    assert(st1[0] == st[0]);
                }
            }
        }
    } else {
        assert(count_of(seq![], SpecToken::Indent) == 0);
    }
}

proof fn lemma_run_balance(st: Seq<usize>, lines: Seq<Seq<char>>)
    requires
        stack_wf(st),
    ensures
        run_lines(st, lines) matches Ok((st2, ts)) ==> stack_wf(st2)
            && count_of(ts, SpecToken::Indent) + st.len() == count_of(ts, SpecToken::Dedent) + st2.len(),
    decreases lines.len(),
{
    if lines.len() > 0 {
        lemma_line_balance(st, lines[0]);
        if let Ok((st1, t1)) = line_step(st, lines[0]) {
            lemma_run_balance(st1, lines.drop_first());
            if let Ok((st2, t2)) = run_lines(st1, lines.drop_first()) {
                lemma_count_add(t1, t2, SpecToken::Indent);
                lemma_count_add(t1, t2, SpecToken::Dedent);
            }
        }
    } else {
        assert(count_of(seq![], SpecToken::Indent) == 0);
        assert(count_of(seq![], SpecToken::Dedent) == 0);
    }
}

/// Every token stream the tokenizer produces holds as many Indents as Dedents.
pub proof fn lemma_indents_balanced(lines: Seq<Seq<char>>)
    ensures
        tokens_of_lines(lines) matches Ok(ts) ==> count_of(ts, SpecToken::Indent) == count_of(
            ts,
            SpecToken::Dedent,
        ),
{
    let base = seq![0usize];
    lemma_run_balance(base, lines);
    if let Ok((st, ts)) = run_lines(base, lines) {
        let n = (st.len() - 1) as nat;
        lemma_count_add(ts, dedents(n), SpecToken::Indent);
        lemma_count_add(ts, dedents(n), SpecToken::Dedent);
        lemma_count_dedents(n, SpecToken::Indent);
        lemma_count_dedents(n, SpecToken::Dedent);
    }
}

/// A blank line (empty or only whitespace) leaves the indentation stack as it is
/// and yields no tokens.
pub proof fn lemma_blank_line_inert(st: Seq<usize>, line: Seq<char>)
    requires
        is_blank(line),
    ensures
        line_step(st, line) == Ok::<(Seq<usize>, Seq<SpecToken>), crate::lexer::LexError>((st, seq![])),
{
}

/// A line holding only a comment yields no lexical token and no Newline: at most
/// the Indent or Dedents that its indentation calls for.
pub proof fn lemma_comment_line_silent(st: Seq<usize>, line: Seq<char>)
    requires
        is_comment_only(line),
    ensures
        line_step(st, line) matches Ok((_, ts)) ==> forall|i: int|
            0 <= i < ts.len() ==> (#[trigger] ts[i] == SpecToken::Indent || ts[i] == SpecToken::Dedent),
{
    lemma_leading_ws_facts(line);
    let w = leading_ws(line);
    assert(!is_ws(line[w as int]));
    assert(!is_blank(line));
    assert(scan_from(line, w as int) == Ok::<Seq<SpecToken>, crate::lexer::LexError>(seq![]));
    if let Ok((st1, layout)) = reconcile(st, w as usize) {
        assert(layout + seq![] + newline_after(seq![]) =~= layout);
    }
}

proof fn lemma_run_concat(st: Seq<usize>, a: Seq<Seq<char>>, b: Seq<Seq<char>>)
    ensures
        run_lines(st, a + b) == match run_lines(st, a) {
            Ok((sa, ta)) => match run_lines(sa, b) {
                Ok((sb, tb)) => Ok((sb, ta + tb)),
                Err(e) => Err(e),
            },
            Err(e) => Err(e),
        },
    decreases a.len(),
{
    if a.len() == 0 {
        assert(a + b =~= b);
        if let Ok((sb, tb)) = run_lines(st, b) {
            assert(seq![] + tb =~= tb);
        }
    } else {
        assert((a + b)[0] == a[0]);
        assert((a + b).drop_first() =~= a.drop_first() + b);
        if let Ok((s1, t1)) = line_step(st, a[0]) {
            lemma_run_concat(s1, a.drop_first(), b);
            if let Ok((sa, ta)) = run_lines(s1, a.drop_first()) {
                if let Ok((sb, tb)) = run_lines(sa, b) {
                    assert(t1 + (ta + tb) =~= (t1 + ta) + tb);
                }
            }
        }
    }
}

proof fn lemma_run_blank(st: Seq<usize>, b: Seq<Seq<char>>)
    requires
        forall|i: int| 0 <= i < b.len() ==> is_blank(#[trigger] b[i]),
    ensures
        run_lines(st, b) == Ok::<(Seq<usize>, Seq<SpecToken>), crate::lexer::LexError>((st, seq![])),
    decreases b.len(),
{
    if b.len() > 0 {
        assert(is_blank(b[0]));
        assert forall|i: int| 0 <= i < b.drop_first().len() implies is_blank(#[trigger] b.drop_first()[i]) by {
            assert(b.drop_first()[i] == b[i + 1]);
        }
        lemma_run_blank(st, b.drop_first());
        assert(Seq::<SpecToken>::empty() + seq![] =~= Seq::<SpecToken>::empty());
    }
}

/// From any well-formed stack, a program whose first non-blank line is at the
/// margin first closes every open width, then runs as from the base stack.
proof fn lemma_run_from_margin(st: Seq<usize>, b: Seq<Seq<char>>, k: int)
    requires
        stack_wf(st),
        starts_at_margin(b),
        0 <= k < b.len(),
        !is_blank(b[k]),
    ensures
        run_lines(st, b) == match run_lines(seq![0usize], b) {
            Ok((sb, tb)) => Ok((sb, dedents((st.len() - 1) as nat) + tb)),
            Err(e) => Err(e),
        },
    decreases b.len(),
{
    let base = seq![0usize];
    let rest = b.drop_first();
    if is_blank(b[0]) {
        assert(k > 0);
        assert(starts_at_margin(rest)) by {
            assert forall|i: int|
                0 <= i < rest.len() && !is_blank(#[trigger] rest[i]) && (forall|j: int| 0 <= j < i ==> is_blank(rest[j]))
                    implies leading_ws(rest[i]) == 0 by {
                assert(rest[i] == b[i + 1]);
                assert forall|j: int| 0 <= j < i + 1 implies is_blank(b[j]) by {
                    if j > 0 {
                        assert(b[j] == rest[j - 1]);
                    }
                }
            }
        }
        assert(rest[k - 1] == b[k]);
        lemma_run_from_margin(st, rest, k - 1);
        if let Ok((sb, tb)) = run_lines(base, rest) {
            assert(seq![] + tb =~= tb);
            assert(seq![] + (dedents((st.len() - 1) as nat) + tb) =~= dedents((st.len() - 1) as nat) + tb);
        }
    } else {
        assert(leading_ws(b[0]) == 0);
        lemma_pop_to_margin(st);
        lemma_pop_to_margin(base);
        assert(dedents(0) =~= Seq::<SpecToken>::empty());
        if let Ok(lex) = scan_from(b[0], 0) {
            let t0 = dedents(0) + lex + newline_after(lex);
            let t1 = dedents((st.len() - 1) as nat) + lex + newline_after(lex);
            assert(t0 =~= lex + newline_after(lex));
            if let Ok((sb, tb)) = run_lines(base, rest) {
                assert(t1 + tb =~= dedents((st.len() - 1) as nat) + (t0 + tb));
            }
        }
    }
}

/// Two programs, each given as lines, tokenize in sequence as they do apart
/// when the second one's first non-blank line starts at the margin: the stack
/// is back at its base between them.
pub proof fn lemma_concat_programs(a: Seq<Seq<char>>, b: Seq<Seq<char>>)
    requires
        tokens_of_lines(a) is Ok,
        tokens_of_lines(b) is Ok,
        starts_at_margin(b),
    ensures
        tokens_of_lines(a + b) == Ok::<Seq<SpecToken>, crate::lexer::LexError>(
            tokens_of_lines(a)->Ok_0 + tokens_of_lines(b)->Ok_0,
        ),
{
    let base = seq![0usize];
    lemma_run_concat(base, a, b);
    lemma_run_balance(base, a);
    let (sa, ta) = run_lines(base, a)->Ok_0;
    let na = (sa.len() - 1) as nat;
    if exists|k: int| 0 <= k < b.len() && !is_blank(b[k]) {
        let k = choose|k: int| 0 <= k < b.len() && !is_blank(b[k]);
        lemma_run_from_margin(sa, b, k);
        let (sb, tb) = run_lines(base, b)->Ok_0;
        let nb = (sb.len() - 1) as nat;
        assert(ta + (dedents(na) + tb) + dedents(nb) =~= (ta + dedents(na)) + (tb + dedents(nb)));
    } else {
        lemma_run_blank(sa, b);
        lemma_run_blank(base, b);
        assert(ta + seq![] =~= ta);
        assert(seq![] + dedents(0) =~= Seq::<SpecToken>::empty());
        assert(ta + dedents(na) + seq![] =~= ta + dedents(na));
    }
}

/// Blank lines can be added anywhere in a program without changing its tokens.
pub proof fn lemma_blank_lines_ignored(a: Seq<Seq<char>>, blank: Seq<char>, b: Seq<Seq<char>>)
    requires
        is_blank(blank),
    ensures
        tokens_of_lines(a + seq![blank] + b) == tokens_of_lines(a + b),
{
    let base = seq![0usize];
    lemma_run_concat(base, a, seq![blank] + b);
    lemma_run_concat(base, a, b);
    assert(a + seq![blank] + b =~= a + (seq![blank] + b));
    if let Ok((sa, ta)) = run_lines(base, a) {
        assert((seq![blank] + b)[0] == blank);
        assert((seq![blank] + b).drop_first() =~= b);
        if let Ok((sb, tb)) = run_lines(sa, b) {
            assert(seq![] + tb =~= tb);
        }
    }
}

proof fn lemma_lines_shift(a: Seq<char>, b: Seq<char>, st: int, j: int)
    requires
        0 <= st <= j <= b.len(),
    ensures
        lines_from(a + b, a.len() + st, a.len() + j) == lines_from(b, st, j),
    decreases b.len() - j,
{
    let ab = a + b;
    if j < b.len() {
        assert(ab[a.len() + j] == b[j]);
        if b[j] == '\n' {
            lemma_lines_shift(a, b, j + 1, j + 1);
            assert(ab.subrange(a.len() + st, a.len() + j) =~= b.subrange(st, j));
        } else {
            lemma_lines_shift(a, b, st, j + 1);
        }
    } else {
        if st < b.len() {
            assert(ab.subrange(a.len() + st, ab.len() as int) =~= b.subrange(st, b.len() as int));
        }
    }
}

proof fn lemma_lines_concat_from(a: Seq<char>, b: Seq<char>, start: int, i: int)
    requires
        a.len() > 0,
        a.last() == '\n',
        0 <= start <= i < a.len(),
    ensures
        lines_from(a + b, start, i) == lines_from(a, start, i) + lines_from(b, 0, 0),
    decreases a.len() - i,
{
    let ab = a + b;
    assert(ab[i] == a[i]);
    if a[i] == '\n' {
        assert(ab.subrange(start, i) =~= a.subrange(start, i));
        if i + 1 < a.len() {
            lemma_lines_concat_from(a, b, i + 1, i + 1);
        } else {
            lemma_lines_shift(a, b, 0, 0);
            assert(lines_from(a, i + 1, i + 1) =~= Seq::<Seq<char>>::empty());
        }
        let rest_a = lines_from(a, i + 1, i + 1);
        assert(seq![a.subrange(start, i)] + (rest_a + lines_from(b, 0, 0))
            =~= seq![a.subrange(start, i)] + rest_a + lines_from(b, 0, 0));
    } else {
        lemma_lines_concat_from(a, b, start, i + 1);
    }
}

/// The lines of two texts in sequence are the lines of each, when the first is
/// empty or ends with a line break.
proof fn lemma_lines_concat(a: Seq<char>, b: Seq<char>)
    requires
        a.len() == 0 || a.last() == '\n',
    ensures
        lines_of(a + b) == lines_of(a) + lines_of(b),
{
    if a.len() == 0 {
        assert(a + b =~= b);
        assert(lines_of(a) =~= Seq::<Seq<char>>::empty());
        assert(lines_of(a) + lines_of(b) =~= lines_of(b));
    } else {
        lemma_lines_concat_from(a, b, 0, 0);
    }
}

/// Two program texts, the first empty or ending with a line break, tokenize in
/// sequence as they do apart when the second one's first non-blank line starts
/// at the margin.
pub proof fn lemma_concat_texts(a: Seq<char>, b: Seq<char>)
    requires
        a.len() == 0 || a.last() == '\n',
        tokens_of_text(a) is Ok,
        tokens_of_text(b) is Ok,
        starts_at_margin(lines_of(b)),
    ensures
        tokens_of_text(a + b) == Ok::<Seq<SpecToken>, crate::lexer::LexError>(
            tokens_of_text(a)->Ok_0 + tokens_of_text(b)->Ok_0,
        ),
{
    lemma_lines_concat(a, b);
    lemma_concat_programs(lines_of(a), lines_of(b));
}

} // verus!
