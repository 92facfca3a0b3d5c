use vstd::prelude::*;
use crate::ast::{Expression, SpecExpr, SpecStmt, Statement};
use crate::token::{SpecToken, Token, view_tokens};

verus! {

/// What the parser wanted where it stopped.
#[derive(Debug, Clone, Copy, PartialEq, Eq, Structural)]
pub enum Expected {
    /// The start of an expression: a literal, an identifier, `(` or `not`.
    Expression,
    /// `=` after the target of an assignment (a binary operator would also have
    /// extended the target).
    Assign,
    Colon,
    ParenClose,
    Newline,
    Indent,
    Dedent,
    /// The end of the tokens, after a complete expression.
    EndOfInput,
}

/// A syntax error: the index of the first token that cannot extend the
/// current alternative (the number of tokens when the input ended first) and
/// what would have been accepted there.
#[derive(Debug, Clone, Copy, PartialEq, Eq, Structural)]
pub struct ParseError {
    pub position: usize,
    pub expected: Expected,
}

impl ParseError {
    /// The token where parsing stopped, or `None` where the input ended first.
    pub fn found<'a>(&self, toks: &'a Vec<Token>) -> (r: Option<&'a Token>)
        ensures
            match r {
                Some(t) => self.position < toks.len() && *t == toks@[self.position as int],
                None => self.position >= toks.len(),
            },
    {
        if self.position < toks.len() {
            Some(&toks[self.position])
        } else {
            None
        }
    }
}

pub open spec fn fail<T>(p: int, expected: Expected) -> Result<(T, int), ParseError> {
    Err(ParseError { position: p as usize, expected })
}

/// The highest precedence level, that of `not` and the primaries.
pub const UNARY: usize = 6;

/// `op` is a binary operator of precedence level `level`: 0 `or`, 1 `and`,
/// 2 equality, 3 relational, 4 additive, 5 multiplicative.
pub open spec fn binary_op(level: nat, op: SpecToken) -> bool {
    match op {
        SpecToken::Or => level == 0,
        SpecToken::And => level == 1,
        SpecToken::Equal | SpecToken::NotEqual => level == 2,
        SpecToken::LT | SpecToken::GT | SpecToken::LTE | SpecToken::GTE => level == 3,
        SpecToken::Add | SpecToken::Subtract => level == 4,
        SpecToken::Multiply | SpecToken::Divide => level == 5,
        _ => false,
    }
}

/// The node that a binary operator builds from its operands.
pub open spec fn combine(op: SpecToken, l: SpecExpr, r: SpecExpr) -> SpecExpr {
    let (l, r) = (Box::new(l), Box::new(r));
    match op {
        SpecToken::Or => SpecExpr::Or(l, r),
        SpecToken::And => SpecExpr::And(l, r),
        SpecToken::Equal => SpecExpr::Equal(l, r),
        SpecToken::NotEqual => SpecExpr::NotEqual(l, r),
        SpecToken::LT => SpecExpr::LT(l, r),
        SpecToken::GT => SpecExpr::GT(l, r),
        SpecToken::LTE => SpecExpr::LTE(l, r),
        SpecToken::GTE => SpecExpr::GTE(l, r),
        SpecToken::Add => SpecExpr::Add(l, r),
        SpecToken::Subtract => SpecExpr::Subtract(l, r),
        SpecToken::Multiply => SpecExpr::Multiply(l, r),
        _ => SpecExpr::Divide(l, r),
    }
}

/// `t[p]` exists and is `k`.
pub open spec fn tok_at(t: Seq<SpecToken>, p: int, k: SpecToken) -> bool {
    0 <= p < t.len() && t[p] == k
}

/// An expression of precedence level `level` or higher, from token `p`, with the
/// index just past it. Levels 0 to 5 are left-associative runs of binary
/// operators over the next level; level 6 is `not` and the primaries.
pub open spec fn parse_level(t: Seq<SpecToken>, level: nat, p: int) -> Result<(SpecExpr, int), ParseError>
    decreases t.len() - p, 7 - level, 1nat,
{
    if p < 0 || p > t.len() || level > 6 {
        fail(p, Expected::Expression)
    } else if level == 6 {
        if p == t.len() {
            fail(p, Expected::Expression)
        } else {
            match t[p] {
                SpecToken::Not => match parse_level(t, 6, p + 1) {
                    Ok((e, q)) => Ok((SpecExpr::Negate(Box::new(e)), q)),
                    Err(x) => Err(x),
                },
                SpecToken::Integer(_) => Ok((SpecExpr::Integer(t[p]), p + 1)),
                SpecToken::Float(_) => Ok((SpecExpr::Float(t[p]), p + 1)),
                SpecToken::Boolean(_) => Ok((SpecExpr::Boolean(t[p]), p + 1)),
                SpecToken::Identifier(_) => Ok((SpecExpr::Identifier(t[p]), p + 1)),
                SpecToken::ParenOpen => match parse_level(t, 0, p + 1) {
                    Ok((e, q)) => if tok_at(t, q, SpecToken::ParenClose) {
                        Ok((e, q + 1))
                    } else {
                        fail(q, Expected::ParenClose)
                    },
                    Err(x) => Err(x),
                },
                _ => fail(p, Expected::Expression),
            }
        }
    } else {
        match parse_level(t, level + 1, p) {
            Ok((l, q)) => if p < q <= t.len() {
                parse_tail(t, level, l, q)
            } else {
                fail(q, Expected::Expression)
            },
            Err(x) => Err(x),
        }
    }
}

/// The rest of a left-associative run at level `level`, whose operands so far
/// make `lhs`, from token `q` on.
pub open spec fn parse_tail(t: Seq<SpecToken>, level: nat, lhs: SpecExpr, q: int) -> Result<(SpecExpr, int), ParseError>
    decreases t.len() - q, 7 - level, 0nat,
{
    if 0 <= q < t.len() && level < 6 && binary_op(level, t[q]) {
        match parse_level(t, level + 1, q + 1) {
            Ok((r, q2)) => if q < q2 <= t.len() {
                parse_tail(t, level, combine(t[q], lhs, r), q2)
            } else {
                fail(q2, Expected::Expression)
            },
            Err(x) => Err(x),
        }
    } else {
        Ok((lhs, q))
    }
}

/// A whole expression from token `p`.
pub open spec fn parse_expr(t: Seq<SpecToken>, p: int) -> Result<(SpecExpr, int), ParseError> {
    parse_level(t, 0, p)
}

/// All of `t` as one expression.
pub open spec fn expression_of(t: Seq<SpecToken>) -> Result<SpecExpr, ParseError> {
    match parse_expr(t, 0) {
        Ok((e, q)) => if q == t.len() {
            Ok(e)
        } else {
            Err(ParseError { position: q as usize, expected: Expected::EndOfInput })
        },
        Err(x) => Err(x),
    }
}

/// Where a block ends: before a Dedent when it is nested, at the end of the
/// tokens when it is the program.
pub open spec fn block_ends(t: Seq<SpecToken>, p: int, nested: bool) -> bool {
    if nested { tok_at(t, p, SpecToken::Dedent) } else { p >= t.len() }
}

/// One or more statements from token `p`, up to the end of the block.
pub open spec fn parse_block(t: Seq<SpecToken>, p: int, nested: bool) -> Result<(Seq<SpecStmt>, int), ParseError>
    decreases t.len() - p, 3nat,
{
    if p < 0 || p > t.len() {
        fail(p, Expected::Expression)
    } else {
        match parse_statement(t, p) {
            Ok((s, q)) => if p < q <= t.len() {
                if block_ends(t, q, nested) {
                    Ok((seq![s], q))
                } else {
                    match parse_block(t, q, nested) {
                        Ok((ss, r)) => Ok((seq![s] + ss, r)),
                        Err(x) => Err(x),
                    }
                }
            } else {
                fail(q, Expected::Expression)
            },
            Err(x) => Err(x),
        }
    }
}

/// `':' Newline Indent Block Dedent` from token `p`: the body of a compound statement.
pub open spec fn parse_suite(t: Seq<SpecToken>, p: int) -> Result<(SpecStmt, int), ParseError>
    decreases t.len() - p, 1nat,
{
    if p < 0 || p > t.len() {
        fail(p, Expected::Colon)
    } else if !tok_at(t, p, SpecToken::Colon) {
        fail(p, Expected::Colon)
    } else if !tok_at(t, p + 1, SpecToken::Newline) {
        fail(p + 1, Expected::Newline)
    } else if !tok_at(t, p + 2, SpecToken::Indent) {
        fail(p + 2, Expected::Indent)
    } else {
        match parse_block(t, p + 3, true) {
            Ok((ss, q)) => if p + 3 < q && tok_at(t, q, SpecToken::Dedent) {
                Ok((SpecStmt::Block(ss), q + 1))
            } else {
                fail(q, Expected::Dedent)
            },
            Err(x) => Err(x),
        }
    }
}

/// Zero or more `elif` clauses from token `p`.
pub open spec fn parse_elifs(t: Seq<SpecToken>, p: int) -> Result<(Seq<SpecStmt>, int), ParseError>
    decreases t.len() - p, 1nat,
{
    if 0 <= p < t.len() && t[p] == SpecToken::Elif {
        match parse_expr(t, p + 1) {
            Ok((c, q)) => if p < q <= t.len() {
                match parse_suite(t, q) {
                    Ok((b, r)) => if q < r <= t.len() {
                        match parse_elifs(t, r) {
                            Ok((rest, r2)) => Ok((seq![SpecStmt::ElIf(c, Box::new(b))] + rest, r2)),
                            Err(x) => Err(x),
                        }
                    } else {
                        fail(r, Expected::Dedent)
                    },
                    Err(x) => Err(x),
                }
            } else {
                fail(q, Expected::Expression)
            },
            Err(x) => Err(x),
        }
    } else {
        Ok((seq![], p))
    }
}

/// One statement from token `p`: `if`, `while`, `break` or an assignment.
pub open spec fn parse_statement(t: Seq<SpecToken>, p: int) -> Result<(SpecStmt, int), ParseError>
    decreases t.len() - p, 2nat,
{
    if p < 0 || p > t.len() {
        fail(p, Expected::Expression)
    } else if tok_at(t, p, SpecToken::If) {
        match parse_expr(t, p + 1) {
            Ok((c, q)) => if p < q <= t.len() {
                match parse_suite(t, q) {
                    Ok((body, r)) => if p < r <= t.len() {
                        match parse_elifs(t, r) {
                            Ok((elifs, r2)) => if p < r2 <= t.len() {
                                if tok_at(t, r2, SpecToken::Else) {
                                    match parse_suite(t, r2 + 1) {
                                        Ok((other, r3)) => Ok((
                                            SpecStmt::If(c, Box::new(body), elifs, Some(Box::new(other))),
                                            r3,
                                        )),
                                        Err(x) => Err(x),
                                    }
                                } else {
                                    Ok((SpecStmt::If(c, Box::new(body), elifs, None), r2))
                                }
                            } else {
                                fail(r2, Expected::Dedent)
                            },
                            Err(x) => Err(x),
                        }
                    } else {
                        fail(r, Expected::Dedent)
                    },
                    Err(x) => Err(x),
                }
            } else {
                fail(q, Expected::Expression)
            },
            Err(x) => Err(x),
        }
    } else if tok_at(t, p, SpecToken::While) {
        match parse_expr(t, p + 1) {
            Ok((c, q)) => if p < q <= t.len() {
                match parse_suite(t, q) {
                    Ok((body, r)) => Ok((SpecStmt::While(c, Box::new(body)), r)),
                    Err(x) => Err(x),
                }
            } else {
                fail(q, Expected::Expression)
            },
            Err(x) => Err(x),
        }
    } else if tok_at(t, p, SpecToken::Break) {
        if tok_at(t, p + 1, SpecToken::Newline) {
            Ok((SpecStmt::Break, p + 2))
        } else {
            fail(p + 1, Expected::Newline)
        }
    } else {
        match parse_expr(t, p) {
            Ok((target, q)) => if tok_at(t, q, SpecToken::Assign) {
                match parse_expr(t, q + 1) {
                    Ok((value, r)) => if tok_at(t, r, SpecToken::Newline) {
                        Ok((SpecStmt::Assignment(target, value), r + 1))
                    } else {
                        fail(r, Expected::Newline)
                    },
                    Err(x) => Err(x),
                }
            } else {
                fail(q, Expected::Assign)
            },
            Err(x) => Err(x),
        }
    }
}

/// The program: one block that runs to the end of the tokens.
pub open spec fn program_of(t: Seq<SpecToken>) -> Result<SpecStmt, ParseError> {
    match parse_block(t, 0, false) {
        Ok((ss, _)) => Ok(SpecStmt::Block(ss)),
        Err(x) => Err(x),
    }
}

/// What the grammar functions state of a parsed expression.
pub open spec fn expr_result(r: Result<(Expression, usize), ParseError>) -> Result<(SpecExpr, int), ParseError> {
    match r {
        Ok((e, q)) => Ok((e.view(), q as int)),
        Err(x) => Err(x),
    }
}

fn is_binary_op(level: usize, op: &Token) -> (r: bool)
    ensures
        r == binary_op(level as nat, op@),
{
    match op {
        Token::Or => level == 0,
        Token::And => level == 1,
        Token::Equal | Token::NotEqual => level == 2,
        Token::LT | Token::GT | Token::LTE | Token::GTE => level == 3,
        Token::Add | Token::Subtract => level == 4,
        Token::Multiply | Token::Divide => level == 5,
        _ => false,
    }
}

fn combine_exprs(op: &Token, l: Expression, r: Expression) -> (e: Expression)
    ensures
        e.view() == combine(op@, l.view(), r.view()),
{
    let (l, r) = (Box::new(l), Box::new(r));
    match op {
        Token::Or => Expression::Or(l, r),
        Token::And => Expression::And(l, r),
        Token::Equal => Expression::Equal(l, r),
        Token::NotEqual => Expression::NotEqual(l, r),
        Token::LT => Expression::LT(l, r),
        Token::GT => Expression::GT(l, r),
        Token::LTE => Expression::LTE(l, r),
        Token::GTE => Expression::GTE(l, r),
        Token::Add => Expression::Add(l, r),
        Token::Subtract => Expression::Subtract(l, r),
        Token::Multiply => Expression::Multiply(l, r),
        _ => Expression::Divide(l, r),
    }
}

fn is_paren_close(toks: &Vec<Token>, q: usize) -> (r: bool)
    ensures
        r == tok_at(view_tokens(toks@), q as int, SpecToken::ParenClose),
{
    q < toks.len() && match &toks[q] {
        Token::ParenClose => true,
        _ => false,
    }
}

/// An expression of precedence level `level` or higher from token `p`, as
/// `parse_level` states.
fn parse_level_at(toks: &Vec<Token>, level: usize, p: usize) -> (r: Result<(Expression, usize), ParseError>)
    requires
        p <= toks.len(),
        level <= UNARY,
    ensures
        expr_result(r) == parse_level(view_tokens(toks@), level as nat, p as int),
        r matches Ok((_, q)) ==> p < q <= toks.len(),
    decreases toks.len() - p, 7 - level, 1nat,
{
    let ghost t = view_tokens(toks@);
    if level == UNARY {
        if p == toks.len() {
            return Err(ParseError { position: p, expected: Expected::Expression });
        }
        assert(t[p as int] == toks@[p as int]@);
        match &toks[p] {
            Token::Not => match parse_level_at(toks, UNARY, p + 1) {
                Ok((e, q)) => Ok((Expression::Negate(Box::new(e)), q)),
                Err(x) => Err(x),
            },
            Token::Integer(_) => Ok((Expression::Integer(toks[p].duplicate()), p + 1)),
            Token::Float(_) => Ok((Expression::Float(toks[p].duplicate()), p + 1)),
            Token::Boolean(_) => Ok((Expression::Boolean(toks[p].duplicate()), p + 1)),
            Token::Identifier(_) => Ok((Expression::Identifier(toks[p].duplicate()), p + 1)),
            Token::ParenOpen => match parse_level_at(toks, 0, p + 1) {
                Ok((e, q)) => if is_paren_close(toks, q) {
                    Ok((e, q + 1))
                } else {
                    Err(ParseError { position: q, expected: Expected::ParenClose })
                },
                Err(x) => Err(x),
            },
            _ => Err(ParseError { position: p, expected: Expected::Expression }),
        }
    } else {
        let (mut lhs, mut q) = match parse_level_at(toks, level + 1, p) {
            Ok(first) => first,
            Err(x) => {
                return Err(x);
            },
        };
        loop
            invariant
                t == view_tokens(toks@),
                level < UNARY,
                p < q <= toks.len(),
                parse_level(t, level as nat, p as int) == parse_tail(t, level as nat, lhs.view(), q as int),
            decreases toks.len() - q,
        {
            if q < toks.len() && is_binary_op(level, &toks[q]) {
                assert(t[q as int] == toks@[q as int]@);
                match parse_level_at(toks, level + 1, q + 1) {
                    Ok((rhs, q2)) => {
                        lhs = combine_exprs(&toks[q], lhs, rhs);
                        q = q2;
                    },
                    Err(x) => {
                        return Err(x);
                    },
                }
            } else {
                return Ok((lhs, q));
            }
        }
    }
}

/// Parses all of `toks` as one expression, as `expression_of` states.
pub fn parse_expression(toks: &Vec<Token>) -> (r: Result<Expression, ParseError>)
    ensures
        match r {
            Ok(e) => expression_of(view_tokens(toks@)) == Ok::<SpecExpr, ParseError>(e.view()),
            Err(x) => expression_of(view_tokens(toks@)) == Err::<SpecExpr, ParseError>(x),
        },
{
    match parse_level_at(toks, 0, 0) {
        Ok((e, q)) => if q == toks.len() {
            Ok(e)
        } else {
            Err(ParseError { position: q, expected: Expected::EndOfInput })
        },
        Err(x) => Err(x),
    }
}

/// The views of a sequence of boxed statements.
pub open spec fn view_stmts(v: Seq<Box<Statement>>) -> Seq<SpecStmt> {
    v.map_values(|s: Box<Statement>| s.view())
}

/// What the grammar functions state of a parsed statement.
pub open spec fn stmt_result(r: Result<(Statement, usize), ParseError>) -> Result<(SpecStmt, int), ParseError> {
    match r {
        Ok((s, q)) => Ok((s.view(), q as int)),
        Err(x) => Err(x),
    }
}

/// What the grammar functions state of a parsed run of statements.
pub open spec fn stmts_result(r: Result<(Vec<Box<Statement>>, usize), ParseError>) -> Result<(Seq<SpecStmt>, int), ParseError> {
    match r {
        Ok((v, q)) => Ok((view_stmts(v@), q as int)),
        Err(x) => Err(x),
    }
}

/// `r` with the statements `front` put before those of a success.
pub open spec fn prepend_stmts(front: Seq<SpecStmt>, r: Result<(Seq<SpecStmt>, int), ParseError>) -> Result<(Seq<SpecStmt>, int), ParseError> {
    match r {
        Ok((ss, q)) => Ok((front + ss, q)),
        Err(x) => Err(x),
    }
}

proof fn lemma_block_view(v: Vec<Box<Statement>>)
    ensures
        Statement::Block(v).view() == SpecStmt::Block(view_stmts(v@)),
{
    assert(Statement::Block(v).view()->Block_0 =~= view_stmts(v@));
}

proof fn lemma_if_view(c: Box<Expression>, b: Box<Statement>, v: Vec<Box<Statement>>, o: Option<Box<Statement>>)
    ensures
        Statement::If(c, b, v, o).view() == SpecStmt::If(
            c.view(),
            Box::new(b.view()),
            view_stmts(v@),
            match o {
                Some(x) => Some(Box::new(x.view())),
                None => None,
            },
        ),
{
    assert(Statement::If(c, b, v, o).view()->If_2 =~= view_stmts(v@));
}

fn token_is(toks: &Vec<Token>, q: usize, k: &Token) -> (r: bool)
    requires
        match k {
            Token::Boolean(_) | Token::Integer(_) | Token::Float(_) | Token::Identifier(_) => false,
            _ => true,
        },
    ensures
        r == tok_at(view_tokens(toks@), q as int, k@),
{
    if q >= toks.len() {
        return false;
    }
    assert(view_tokens(toks@)[q as int] == toks@[q as int]@);
    match (&toks[q], k) {
        (Token::And, Token::And) | (Token::Break, Token::Break) | (Token::Def, Token::Def)
        | (Token::Elif, Token::Elif) | (Token::Else, Token::Else) | (Token::For, Token::For)
        | (Token::If, Token::If) | (Token::Not, Token::Not) | (Token::Or, Token::Or)
        | (Token::Return, Token::Return) | (Token::While, Token::While)
        | (Token::Assign, Token::Assign) | (Token::Add, Token::Add)
        | (Token::Subtract, Token::Subtract) | (Token::Multiply, Token::Multiply)
        | (Token::Divide, Token::Divide) | (Token::Equal, Token::Equal)
        | (Token::NotEqual, Token::NotEqual) | (Token::GT, Token::GT) | (Token::GTE, Token::GTE)
        | (Token::LT, Token::LT) | (Token::LTE, Token::LTE)
        | (Token::ParenOpen, Token::ParenOpen) | (Token::ParenClose, Token::ParenClose)
        | (Token::Comma, Token::Comma) | (Token::Colon, Token::Colon)
        | (Token::Newline, Token::Newline) | (Token::Indent, Token::Indent)
        | (Token::Dedent, Token::Dedent) => true,
        _ => false,
    }
}

fn at_block_end(toks: &Vec<Token>, q: usize, nested: bool) -> (r: bool)
    ensures
        r == block_ends(view_tokens(toks@), q as int, nested),
{
    if nested {
        token_is(toks, q, &Token::Dedent)
    } else {
        q >= toks.len()
    }
}

/// One or more statements from token `p` to the end of the block, as `parse_block` states.
fn parse_block_at(toks: &Vec<Token>, p: usize, nested: bool) -> (r: Result<(Vec<Box<Statement>>, usize), ParseError>)
    requires
        p <= toks.len(),
    ensures
        stmts_result(r) == parse_block(view_tokens(toks@), p as int, nested),
        r matches Ok((_, q)) ==> p < q <= toks.len(),
    decreases toks.len() - p, 3nat,
{
    let ghost t = view_tokens(toks@);
    let mut out: Vec<Box<Statement>> = Vec::new();
    let mut q: usize = p;
    proof {
        match parse_block(t, p as int, nested) {
            Ok((ss, _)) => {
                assert(view_stmts(out@) + ss =~= ss);
            },
            Err(_) => {},
        }
    }
    loop
        invariant
            t == view_tokens(toks@),
            p <= q <= toks.len(),
            parse_block(t, p as int, nested) == prepend_stmts(view_stmts(out@), parse_block(t, q as int, nested)),
        decreases toks.len() - q,
    {
        match parse_statement_at(toks, q) {
            Err(x) => {
                return Err(x);
            },
            Ok((st, q2)) => {
                let ghost before = view_stmts(out@);
                let ghost sv = st.view();
                out.push(Box::new(st));
                assert(view_stmts(out@) =~= before.push(sv));
                if at_block_end(toks, q2, nested) {
                    assert(before + seq![sv] =~= before.push(sv));
                    return Ok((out, q2));
                }
                proof {
                    match parse_block(t, q2 as int, nested) {
                        Ok((ss, _)) => {
                            assert(before + (seq![sv] + ss) =~= before.push(sv) + ss);
                        },
                        Err(_) => {},
                    }
                }
                q = q2;
            },
        }
    }
}

/// `':' Newline Indent Block Dedent` from token `p`, as `parse_suite` states.
fn parse_suite_at(toks: &Vec<Token>, p: usize) -> (r: Result<(Statement, usize), ParseError>)
    requires
        p <= toks.len(),
    ensures
        stmt_result(r) == parse_suite(view_tokens(toks@), p as int),
        r matches Ok((_, q)) ==> p < q <= toks.len(),
    decreases toks.len() - p, 1nat,
{
    if !token_is(toks, p, &Token::Colon) {
        return Err(ParseError { position: p, expected: Expected::Colon });
    }
    if !token_is(toks, p + 1, &Token::Newline) {
        return Err(ParseError { position: p + 1, expected: Expected::Newline });
    }
    if !token_is(toks, p + 2, &Token::Indent) {
        return Err(ParseError { position: p + 2, expected: Expected::Indent });
    }
    match parse_block_at(toks, p + 3, true) {
        Ok((ss, q)) => if token_is(toks, q, &Token::Dedent) {
            proof {
                lemma_block_view(ss);
            }
            Ok((Statement::Block(ss), q + 1))
        } else {
            Err(ParseError { position: q, expected: Expected::Dedent })
        },
        Err(x) => Err(x),
    }
}

/// Zero or more `elif` clauses from token `p`, as `parse_elifs` states.
fn parse_elifs_at(toks: &Vec<Token>, p: usize) -> (r: Result<(Vec<Box<Statement>>, usize), ParseError>)
    requires
        p <= toks.len(),
    ensures
        stmts_result(r) == parse_elifs(view_tokens(toks@), p as int),
        r matches Ok((_, q)) ==> p <= q <= toks.len(),
    decreases toks.len() - p, 1nat,
{
    let ghost t = view_tokens(toks@);
    if !token_is(toks, p, &Token::Elif) {
        let none: Vec<Box<Statement>> = Vec::new();
        assert(view_stmts(none@) =~= seq![]);
        return Ok((none, p));
    }
    let (c, q) = match parse_level_at(toks, 0, p + 1) {
        Ok(x) => x,
        Err(x) => {
            return Err(x);
        },
    };
    let (b, r) = match parse_suite_at(toks, q) {
        Ok(x) => x,
        Err(x) => {
            return Err(x);
        },
    };
    match parse_elifs_at(toks, r) {
        Ok((rest, r2)) => {
            let clause = Statement::ElIf(Box::new(c), Box::new(b));
            let ghost cv = clause.view();
            let mut all: Vec<Box<Statement>> = Vec::new();
            all.push(Box::new(clause));
            let ghost rv = view_stmts(rest@);
            let mut rest = rest;
            all.append(&mut rest);
            assert(view_stmts(all@) =~= seq![cv] + rv);
            Ok((all, r2))
        },
        Err(x) => Err(x),
    }
}

/// One statement from token `p`, as `parse_statement` states.
fn parse_statement_at(toks: &Vec<Token>, p: usize) -> (r: Result<(Statement, usize), ParseError>)
    requires
        p <= toks.len(),
    ensures
        stmt_result(r) == parse_statement(view_tokens(toks@), p as int),
        r matches Ok((_, q)) ==> p < q <= toks.len(),
    decreases toks.len() - p, 2nat,
{
    if token_is(toks, p, &Token::If) {
        let (c, q) = match parse_level_at(toks, 0, p + 1) {
            Ok(x) => x,
            Err(x) => {
                return Err(x);
            },
        };
        let (body, r) = match parse_suite_at(toks, q) {
            Ok(x) => x,
            Err(x) => {
                return Err(x);
            },
        };
        let (elifs, r2) = match parse_elifs_at(toks, r) {
            Ok(x) => x,
            Err(x) => {
                return Err(x);
            },
        };
        if token_is(toks, r2, &Token::Else) {
            match parse_suite_at(toks, r2 + 1) {
                Ok((other, r3)) => {
                    let (c, body, other) = (Box::new(c), Box::new(body), Some(Box::new(other)));
                    proof {
                        lemma_if_view(c, body, elifs, other);
                    }
                    Ok((Statement::If(c, body, elifs, other), r3))
                },
                Err(x) => Err(x),
            }
        } else {
            let (c, body) = (Box::new(c), Box::new(body));
            proof {
                lemma_if_view(c, body, elifs, None);
            }
            Ok((Statement::If(c, body, elifs, None), r2))
        }
    } else if token_is(toks, p, &Token::While) {
        let (c, q) = match parse_level_at(toks, 0, p + 1) {
            Ok(x) => x,
            Err(x) => {
                return Err(x);
            },
        };
        match parse_suite_at(toks, q) {
            Ok((body, r)) => Ok((Statement::While(Box::new(c), Box::new(body)), r)),
            Err(x) => Err(x),
        }
    } else if token_is(toks, p, &Token::Break) {
        if token_is(toks, p + 1, &Token::Newline) {
            Ok((Statement::Break, p + 2))
        } else {
            Err(ParseError { position: p + 1, expected: Expected::Newline })
        }
    } else {
        let (target, q) = match parse_level_at(toks, 0, p) {
            Ok(x) => x,
            Err(x) => {
                return Err(x);
            },
        };
        if !token_is(toks, q, &Token::Assign) {
            return Err(ParseError { position: q, expected: Expected::Assign });
        }
        let (value, r) = match parse_level_at(toks, 0, q + 1) {
            Ok(x) => x,
            Err(x) => {
                return Err(x);
            },
        };
        if !token_is(toks, r, &Token::Newline) {
            return Err(ParseError { position: r, expected: Expected::Newline });
        }
        Ok((Statement::Assignment(Box::new(target), Box::new(value)), r + 1))
    }
}

/// Parses a program: a block of statements that runs to the end of the tokens,
/// as `program_of` states. The result is a `Block`.
pub fn parse_program(toks: &Vec<Token>) -> (r: Result<Statement, ParseError>)
    ensures
        match r {
            Ok(s) => program_of(view_tokens(toks@)) == Ok::<SpecStmt, ParseError>(s.view()),
            Err(x) => program_of(view_tokens(toks@)) == Err::<SpecStmt, ParseError>(x),
        },
{
    match parse_block_at(toks, 0, false) {
        Ok((ss, _)) => {
            proof {
                lemma_block_view(ss);
            }
            Ok(Statement::Block(ss))
        },
        Err(x) => Err(x),
    }
}

} // verus!
