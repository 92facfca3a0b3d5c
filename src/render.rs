use vstd::prelude::*;
use crate::ast::{Expression, SpecExpr, SpecStmt, Statement};
use crate::token::{SpecToken, Token};

verus! {

/// What a node of the rendered graph is labelled with. Binary operators carry
/// their operator token; leaves carry the token they were read from.
#[derive(Debug, PartialEq)]
pub enum Label {
    Assignment,
    If,
    ElseIf,
    While,
    Block,
    Break,
    Negate,
    Operator(Token),
    Identifier(Token),
    Integer(Token),
    Float(Token),
    Boolean(Token),
}

/// A node of the rendered graph. Its identifier is its index in the rendering;
/// `parent` is the identifier of the node it hangs from (none for the root).
#[derive(Debug, PartialEq)]
pub struct GraphNode {
    pub label: Label,
    pub parent: Option<usize>,
}

pub enum SpecLabel {
    Assignment,
    If,
    ElseIf,
    While,
    Block,
    Break,
    Negate,
    Operator(SpecToken),
    Identifier(SpecToken),
    Integer(SpecToken),
    Float(SpecToken),
    Boolean(SpecToken),
}

impl View for Label {
    type V = SpecLabel;

    open spec fn view(&self) -> SpecLabel {
        match self {
            Label::Assignment => SpecLabel::Assignment,
            Label::If => SpecLabel::If,
            Label::ElseIf => SpecLabel::ElseIf,
            Label::While => SpecLabel::While,
            Label::Block => SpecLabel::Block,
            Label::Break => SpecLabel::Break,
            Label::Negate => SpecLabel::Negate,
            Label::Operator(t) => SpecLabel::Operator(t@),
            Label::Identifier(t) => SpecLabel::Identifier(t@),
            Label::Integer(t) => SpecLabel::Integer(t@),
            Label::Float(t) => SpecLabel::Float(t@),
            Label::Boolean(t) => SpecLabel::Boolean(t@),
        }
    }
}

/// A rendered node as the contracts see it.
pub type SpecNode = (SpecLabel, Option<int>);

pub open spec fn view_nodes(v: Seq<GraphNode>) -> Seq<SpecNode> {
    v.map_values(
        |n: GraphNode|
            (
                n.label@,
                match n.parent {
                    Some(p) => Some(p as int),
                    None => None,
                },
            ),
    )
}

/// The operator token of a binary expression, if `e` is one, with its operands.
pub open spec fn binary_parts(e: SpecExpr) -> Option<(SpecToken, SpecExpr, SpecExpr)> {
    match e {
        SpecExpr::Multiply(l, r) => Some((SpecToken::Multiply, *l, *r)),
        SpecExpr::Divide(l, r) => Some((SpecToken::Divide, *l, *r)),
        SpecExpr::Add(l, r) => Some((SpecToken::Add, *l, *r)),
        SpecExpr::Subtract(l, r) => Some((SpecToken::Subtract, *l, *r)),
        SpecExpr::And(l, r) => Some((SpecToken::And, *l, *r)),
        SpecExpr::Or(l, r) => Some((SpecToken::Or, *l, *r)),
        SpecExpr::Equal(l, r) => Some((SpecToken::Equal, *l, *r)),
        SpecExpr::NotEqual(l, r) => Some((SpecToken::NotEqual, *l, *r)),
        SpecExpr::LT(l, r) => Some((SpecToken::LT, *l, *r)),
        SpecExpr::GT(l, r) => Some((SpecToken::GT, *l, *r)),
        SpecExpr::LTE(l, r) => Some((SpecToken::LTE, *l, *r)),
        SpecExpr::GTE(l, r) => Some((SpecToken::GTE, *l, *r)),
        _ => None,
    }
}

/// The pre-order rendering of expression `e`, whose own identifier is `id` and
/// whose parent is `parent`: its node, then the nodes of its operands, left first.
pub open spec fn expr_nodes(e: SpecExpr, parent: Option<int>, id: int) -> Seq<SpecNode>
    decreases e,
{
    match e {
        SpecExpr::Identifier(t) => seq![(SpecLabel::Identifier(t), parent)],
        SpecExpr::Integer(t) => seq![(SpecLabel::Integer(t), parent)],
        SpecExpr::Float(t) => seq![(SpecLabel::Float(t), parent)],
        SpecExpr::Boolean(t) => seq![(SpecLabel::Boolean(t), parent)],
        SpecExpr::Negate(x) => seq![(SpecLabel::Negate, parent)] + expr_nodes(*x, Some(id), id + 1),
        SpecExpr::Multiply(l, r) | SpecExpr::Divide(l, r) | SpecExpr::Add(l, r)
        | SpecExpr::Subtract(l, r) | SpecExpr::And(l, r) | SpecExpr::Or(l, r)
        | SpecExpr::Equal(l, r) | SpecExpr::NotEqual(l, r) | SpecExpr::LT(l, r)
        | SpecExpr::GT(l, r) | SpecExpr::LTE(l, r) | SpecExpr::GTE(l, r) => {
            let left = expr_nodes(*l, Some(id), id + 1);
            seq![(SpecLabel::Operator(binary_parts(e)->Some_0.0), parent)] + left
                + expr_nodes(*r, Some(id), id + 1 + left.len())
        },
    }
}

/// The pre-order rendering of statement `s`, whose own identifier is `id`.
pub open spec fn stmt_nodes(s: SpecStmt, parent: Option<int>, id: int) -> Seq<SpecNode>
    decreases s, 0nat,
{
    match s {
        SpecStmt::Assignment(l, r) => {
            let left = expr_nodes(l, Some(id), id + 1);
            seq![(SpecLabel::Assignment, parent)] + left + expr_nodes(r, Some(id), id + 1 + left.len())
        },
        SpecStmt::If(c, body, elifs, other) => {
            let cn = expr_nodes(c, Some(id), id + 1);
            let bn = stmt_nodes(*body, Some(id), id + 1 + cn.len());
            let en = stmts_nodes(elifs, 0, id, id + 1 + cn.len() + bn.len());
            let on = match other {
                Some(o) => stmt_nodes(*o, Some(id), id + 1 + cn.len() + bn.len() + en.len()),
                None => seq![],
            };
            seq![(SpecLabel::If, parent)] + cn + bn + en + on
        },
        SpecStmt::ElIf(c, body) => {
            let cn = expr_nodes(c, Some(id), id + 1);
            seq![(SpecLabel::ElseIf, parent)] + cn + stmt_nodes(*body, Some(id), id + 1 + cn.len())
        },
        SpecStmt::While(c, body) => {
            let cn = expr_nodes(c, Some(id), id + 1);
            seq![(SpecLabel::While, parent)] + cn + stmt_nodes(*body, Some(id), id + 1 + cn.len())
        },
        SpecStmt::Block(ss) => seq![(SpecLabel::Block, parent)] + stmts_nodes(ss, 0, id, id + 1),
        SpecStmt::Break => seq![(SpecLabel::Break, parent)],
    }
}

/// The renderings of `ss[i..]`, in order, each hanging from `parent`, the first
/// with identifier `id`.
pub open spec fn stmts_nodes(ss: Seq<SpecStmt>, i: int, parent: int, id: int) -> Seq<SpecNode>
    decreases ss, ss.len() - i,
{
    if 0 <= i < ss.len() {
        let first = stmt_nodes(ss[i], Some(parent), id);
        first + stmts_nodes(ss, i + 1, parent, id + first.len())
    } else {
        seq![]
    }
}

pub open spec fn opt_int(p: Option<usize>) -> Option<int> {
    match p {
        Some(x) => Some(x as int),
        None => None,
    }
}

proof fn lemma_assoc(a: Seq<SpecNode>, b: Seq<SpecNode>, c: Seq<SpecNode>, d: Seq<SpecNode>)
    ensures
        a + b + c + d == a + (b + c + d),
{
    assert(a + b + c + d =~= a + (b + c + d));
}

fn push_node(out: &mut Vec<GraphNode>, label: Label, parent: Option<usize>)
    ensures
        view_nodes(final(out)@) == view_nodes(old(out)@) + seq![(label@, opt_int(parent))],
        final(out)@.len() == old(out)@.len() + 1,
{
    let ghost lv = label@;
    out.push(GraphNode { label, parent });
    assert(view_nodes(final(out)@) =~= view_nodes(old(out)@) + seq![(lv, opt_int(parent))]);
}

/// Appends the pre-order rendering of `e`, whose identifier is the current length of `out`.
fn render_expr(e: &Expression, parent: Option<usize>, out: &mut Vec<GraphNode>)
    ensures
        view_nodes(final(out)@) == view_nodes(old(out)@) + expr_nodes(e.view(), opt_int(parent), old(out)@.len() as int),
    decreases e,
{
    let id = out.len();
    let ghost base = view_nodes(out@);
    match e {
        Expression::Identifier(t) => push_node(out, Label::Identifier(t.duplicate()), parent),
        Expression::Integer(t) => push_node(out, Label::Integer(t.duplicate()), parent),
        Expression::Float(t) => push_node(out, Label::Float(t.duplicate()), parent),
        Expression::Boolean(t) => push_node(out, Label::Boolean(t.duplicate()), parent),
        Expression::Negate(x) => {
            push_node(out, Label::Negate, parent);
            render_expr(x, Some(id), out);
            assert(base + seq![(SpecLabel::Negate, opt_int(parent))] + expr_nodes(x.view(), Some(id as int), id + 1)
                =~= base + (seq![(SpecLabel::Negate, opt_int(parent))] + expr_nodes(x.view(), Some(id as int), id + 1)));
        },
        Expression::Multiply(l, r) => {
            push_node(out, Label::Operator(Token::Multiply), parent);
            render_expr(l, Some(id), out);
            render_expr(r, Some(id), out);
            proof {
                let left = expr_nodes(l.view(), Some(id as int), id + 1);
                let node = (SpecLabel::Operator(SpecToken::Multiply), opt_int(parent));
                lemma_assoc(base, seq![node], left, expr_nodes(r.view(), Some(id as int), id + 1 + left.len()));
            }
        },
        Expression::Divide(l, r) => {
            push_node(out, Label::Operator(Token::Divide), parent);
            render_expr(l, Some(id), out);
            render_expr(r, Some(id), out);
            proof {
                let left = expr_nodes(l.view(), Some(id as int), id + 1);
                let node = (SpecLabel::Operator(SpecToken::Divide), opt_int(parent));
                lemma_assoc(base, seq![node], left, expr_nodes(r.view(), Some(id as int), id + 1 + left.len()));
            }
        },
        Expression::Add(l, r) => {
            push_node(out, Label::Operator(Token::Add), parent);
            render_expr(l, Some(id), out);
            render_expr(r, Some(id), out);
            proof {
                let left = expr_nodes(l.view(), Some(id as int), id + 1);
                let node = (SpecLabel::Operator(SpecToken::Add), opt_int(parent));
                lemma_assoc(base, seq![node], left, expr_nodes(r.view(), Some(id as int), id + 1 + left.len()));
            }
        },
        Expression::Subtract(l, r) => {
            push_node(out, Label::Operator(Token::Subtract), parent);
            render_expr(l, Some(id), out);
            render_expr(r, Some(id), out);
            proof {
                let left = expr_nodes(l.view(), Some(id as int), id + 1);
                let node = (SpecLabel::Operator(SpecToken::Subtract), opt_int(parent));
                lemma_assoc(base, seq![node], left, expr_nodes(r.view(), Some(id as int), id + 1 + left.len()));
            }
        },
        Expression::And(l, r) => {
            push_node(out, Label::Operator(Token::And), parent);
            render_expr(l, Some(id), out);
            render_expr(r, Some(id), out);
            proof {
                let left = expr_nodes(l.view(), Some(id as int), id + 1);
                let node = (SpecLabel::Operator(SpecToken::And), opt_int(parent));
                lemma_assoc(base, seq![node], left, expr_nodes(r.view(), Some(id as int), id + 1 + left.len()));
            }
        },
        Expression::Or(l, r) => {
            push_node(out, Label::Operator(Token::Or), parent);
            render_expr(l, Some(id), out);
            render_expr(r, Some(id), out);
            proof {
                let left = expr_nodes(l.view(), Some(id as int), id + 1);
                let node = (SpecLabel::Operator(SpecToken::Or), opt_int(parent));
                lemma_assoc(base, seq![node], left, expr_nodes(r.view(), Some(id as int), id + 1 + left.len()));
            }
        },
        Expression::Equal(l, r) => {
            push_node(out, Label::Operator(Token::Equal), parent);
            render_expr(l, Some(id), out);
            render_expr(r, Some(id), out);
            proof {
                let left = expr_nodes(l.view(), Some(id as int), id + 1);
                let node = (SpecLabel::Operator(SpecToken::Equal), opt_int(parent));
                lemma_assoc(base, seq![node], left, expr_nodes(r.view(), Some(id as int), id + 1 + left.len()));
            }
        },
        Expression::NotEqual(l, r) => {
            push_node(out, Label::Operator(Token::NotEqual), parent);
            render_expr(l, Some(id), out);
            render_expr(r, Some(id), out);
            proof {
                let left = expr_nodes(l.view(), Some(id as int), id + 1);
                let node = (SpecLabel::Operator(SpecToken::NotEqual), opt_int(parent));
                lemma_assoc(base, seq![node], left, expr_nodes(r.view(), Some(id as int), id + 1 + left.len()));
            }
        },
        Expression::LT(l, r) => {
            push_node(out, Label::Operator(Token::LT), parent);
            render_expr(l, Some(id), out);
            render_expr(r, Some(id), out);
            proof {
                let left = expr_nodes(l.view(), Some(id as int), id + 1);
                let node = (SpecLabel::Operator(SpecToken::LT), opt_int(parent));
                lemma_assoc(base, seq![node], left, expr_nodes(r.view(), Some(id as int), id + 1 + left.len()));
            }
        },
        Expression::GT(l, r) => {
            push_node(out, Label::Operator(Token::GT), parent);
            render_expr(l, Some(id), out);
            render_expr(r, Some(id), out);
            proof {
                let left = expr_nodes(l.view(), Some(id as int), id + 1);
                let node = (SpecLabel::Operator(SpecToken::GT), opt_int(parent));
                lemma_assoc(base, seq![node], left, expr_nodes(r.view(), Some(id as int), id + 1 + left.len()));
            }
        },
        Expression::LTE(l, r) => {
            push_node(out, Label::Operator(Token::LTE), parent);
            render_expr(l, Some(id), out);
            render_expr(r, Some(id), out);
            proof {
                let left = expr_nodes(l.view(), Some(id as int), id + 1);
                let node = (SpecLabel::Operator(SpecToken::LTE), opt_int(parent));
                lemma_assoc(base, seq![node], left, expr_nodes(r.view(), Some(id as int), id + 1 + left.len()));
            }
        },
        Expression::GTE(l, r) => {
            push_node(out, Label::Operator(Token::GTE), parent);
            render_expr(l, Some(id), out);
            render_expr(r, Some(id), out);
            proof {
                let left = expr_nodes(l.view(), Some(id as int), id + 1);
                let node = (SpecLabel::Operator(SpecToken::GTE), opt_int(parent));
                lemma_assoc(base, seq![node], left, expr_nodes(r.view(), Some(id as int), id + 1 + left.len()));
            }
        },
    }
}

/// Appends the renderings of the statements of `v`, each hanging from `parent`.
fn render_stmts(v: &Vec<Box<Statement>>, parent: usize, out: &mut Vec<GraphNode>)
    ensures
        view_nodes(final(out)@) == view_nodes(old(out)@) + stmts_nodes(
            Seq::new(v.len() as nat, |i: int| v[i].view()),
            0,
            parent as int,
            old(out)@.len() as int,
        ),
    decreases v, 1nat,
{
    let ghost vs = Seq::new(v.len() as nat, |i: int| v[i].view());
    let ghost base = view_nodes(out@);
    let ghost start = out@.len() as int;
    let mut i: usize = 0;
    assert(base + stmts_nodes(vs, 0, parent as int, start) =~= view_nodes(out@) + stmts_nodes(vs, 0, parent as int, start));
    while i < v.len()
        invariant
            vs == Seq::new(v.len() as nat, |i: int| v[i].view()),
            i <= v.len(),
            base + stmts_nodes(vs, 0, parent as int, start)
                == view_nodes(out@) + stmts_nodes(vs, i as int, parent as int, out@.len() as int),
        decreases v.len() - i,
    {
        let ghost before = view_nodes(out@);
        let ghost id = out@.len() as int;
        assert(decreases_to!(v => v[i as int]));
        render_stmt(&v[i], Some(parent), out);
        proof {
            let first = stmt_nodes(vs[i as int], Some(parent as int), id);
            assert(before + (first + stmts_nodes(vs, i + 1, parent as int, id + first.len()))
                =~= before + first + stmts_nodes(vs, i + 1, parent as int, id + first.len()));
        }
        i = i + 1;
    }
    assert(view_nodes(out@) + seq![] =~= view_nodes(out@));
}

proof fn lemma_elifs_view(v: Vec<Box<Statement>>, ss: Seq<SpecStmt>)
    requires
        ss =~= Seq::new(v.len() as nat, |i: int| if 0 <= i < v.len() { v[i].view() } else { SpecStmt::Break }),
    ensures
        ss == Seq::new(v.len() as nat, |i: int| v[i].view()),
{
    assert(ss =~= Seq::new(v.len() as nat, |i: int| v[i].view()));
}

/// Appends the pre-order rendering of `s`, whose identifier is the current length of `out`.
fn render_stmt(s: &Statement, parent: Option<usize>, out: &mut Vec<GraphNode>)
    ensures
        view_nodes(final(out)@) == view_nodes(old(out)@) + stmt_nodes(s.view(), opt_int(parent), old(out)@.len() as int),
    decreases s, 0nat,
{
    let id = out.len();
    let ghost base = view_nodes(out@);
    let ghost sv = s.view();
    match s {
        Statement::Assignment(l, r) => {
            push_node(out, Label::Assignment, parent);
            render_expr(l, Some(id), out);
            render_expr(r, Some(id), out);
            proof {
                let left = expr_nodes(l.view(), Some(id as int), id + 1);
                lemma_assoc(base, seq![(SpecLabel::Assignment, opt_int(parent))], left,
                    expr_nodes(r.view(), Some(id as int), id + 1 + left.len()));
            }
        },
        Statement::If(c, body, elifs, other) => {
            push_node(out, Label::If, parent);
            render_expr(c, Some(id), out);
            render_stmt(body, Some(id), out);
            proof {
                lemma_elifs_view(*elifs, sv->If_2);
            }
            render_stmts(elifs, id, out);
            let ghost mid = view_nodes(out@);
            match other {
                Some(o) => {
                    render_stmt(o, Some(id), out);
                },
                None => {
                    assert(view_nodes(out@) =~= mid + seq![]);
                },
            }
            proof {
                let node = seq![(SpecLabel::If, opt_int(parent))];
                let cn = expr_nodes(c.view(), Some(id as int), id + 1);
                let bn = stmt_nodes(body.view(), Some(id as int), id + 1 + cn.len());
                let en = stmts_nodes(sv->If_2, 0, id as int, id + 1 + cn.len() + bn.len());
                assert(mid =~= base + node + cn + bn + en);
                let on = match sv->If_3 {
                    Some(o) => stmt_nodes(*o, Some(id as int), id + 1 + cn.len() + bn.len() + en.len()),
                    None => seq![],
                };
                assert(view_nodes(out@) =~= base + (node + cn + bn + en + on));
            }
        },
        Statement::ElIf(c, body) => {
            push_node(out, Label::ElseIf, parent);
            render_expr(c, Some(id), out);
            render_stmt(body, Some(id), out);
            proof {
                let cn = expr_nodes(c.view(), Some(id as int), id + 1);
                lemma_assoc(base, seq![(SpecLabel::ElseIf, opt_int(parent))], cn,
                    stmt_nodes(body.view(), Some(id as int), id + 1 + cn.len()));
            }
        },
        Statement::While(c, body) => {
            push_node(out, Label::While, parent);
            render_expr(c, Some(id), out);
            render_stmt(body, Some(id), out);
            proof {
                let cn = expr_nodes(c.view(), Some(id as int), id + 1);
                lemma_assoc(base, seq![(SpecLabel::While, opt_int(parent))], cn,
                    stmt_nodes(body.view(), Some(id as int), id + 1 + cn.len()));
            }
        },
        Statement::Block(v) => {
            push_node(out, Label::Block, parent);
            proof {
                lemma_elifs_view(*v, sv->Block_0);
            }
            render_stmts(v, id, out);
            assert(view_nodes(out@) =~= base + (seq![(SpecLabel::Block, opt_int(parent))]
                + stmts_nodes(sv->Block_0, 0, id as int, id + 1)));
        },
        Statement::Break => push_node(out, Label::Break, parent),
    }
}

/// Renders a tree as a graph: every node in pre-order, numbered from 0 by its
/// place in the result, each but the root with the number of its parent.
pub fn render(root: &Statement) -> (r: Vec<GraphNode>)
    ensures
        view_nodes(r@) == stmt_nodes(root.view(), None, 0),
{
    let mut out: Vec<GraphNode> = Vec::new();
    render_stmt(root, None, &mut out);
    assert(view_nodes(out@) =~= stmt_nodes(root.view(), None, 0));
    out
}

} // verus!
