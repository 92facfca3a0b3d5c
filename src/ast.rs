use vstd::prelude::*;
use crate::token::{SpecToken, Token};

verus! {

/// A statement. Each node owns its children; a `Block`'s order is execution order.
#[derive(Debug, PartialEq)]
pub enum Statement {
    Assignment(Box<Expression>, Box<Expression>),
    /// Condition, primary body, `ElIf` clauses in order, optional `else` body.
    If(Box<Expression>, Box<Statement>, Vec<Box<Statement>>, Option<Box<Statement>>),
    ElIf(Box<Expression>, Box<Statement>),
    While(Box<Expression>, Box<Statement>),
    Block(Vec<Box<Statement>>),
    Break,
}

/// Either kind of tree node.
#[derive(Debug, PartialEq)]
pub enum Node {
    Statement(Statement),
    Expression(Expression),
}

/// An expression. Leaves own the token they were read from.
#[derive(Debug, PartialEq)]
pub enum Expression {
    Identifier(Token),
    Integer(Token),
    Float(Token),
    Multiply(Box<Expression>, Box<Expression>),
    Divide(Box<Expression>, Box<Expression>),
    Add(Box<Expression>, Box<Expression>),
    Subtract(Box<Expression>, Box<Expression>),
    Boolean(Token),
    And(Box<Expression>, Box<Expression>),
    Or(Box<Expression>, Box<Expression>),
    Equal(Box<Expression>, Box<Expression>),
    NotEqual(Box<Expression>, Box<Expression>),
    Negate(Box<Expression>),
    LT(Box<Expression>, Box<Expression>),
    GT(Box<Expression>, Box<Expression>),
    LTE(Box<Expression>, Box<Expression>),
    GTE(Box<Expression>, Box<Expression>),
}

/// The mathematical value of an [`Expression`].
pub enum SpecExpr {
    Identifier(SpecToken),
    Integer(SpecToken),
    Float(SpecToken),
    Multiply(Box<SpecExpr>, Box<SpecExpr>),
    Divide(Box<SpecExpr>, Box<SpecExpr>),
    Add(Box<SpecExpr>, Box<SpecExpr>),
    Subtract(Box<SpecExpr>, Box<SpecExpr>),
    Boolean(SpecToken),
    And(Box<SpecExpr>, Box<SpecExpr>),
    Or(Box<SpecExpr>, Box<SpecExpr>),
    Equal(Box<SpecExpr>, Box<SpecExpr>),
    NotEqual(Box<SpecExpr>, Box<SpecExpr>),
    Negate(Box<SpecExpr>),
    LT(Box<SpecExpr>, Box<SpecExpr>),
    GT(Box<SpecExpr>, Box<SpecExpr>),
    LTE(Box<SpecExpr>, Box<SpecExpr>),
    GTE(Box<SpecExpr>, Box<SpecExpr>),
}

/// The mathematical value of a [`Statement`].
pub enum SpecStmt {
    Assignment(SpecExpr, SpecExpr),
    If(SpecExpr, Box<SpecStmt>, Seq<SpecStmt>, Option<Box<SpecStmt>>),
    ElIf(SpecExpr, Box<SpecStmt>),
    While(SpecExpr, Box<SpecStmt>),
    Block(Seq<SpecStmt>),
    Break,
}

impl Expression {
    pub open spec fn view(&self) -> SpecExpr
        decreases self,
    {
        match self {
            Expression::Identifier(t) => SpecExpr::Identifier(t@),
            Expression::Integer(t) => SpecExpr::Integer(t@),
            Expression::Float(t) => SpecExpr::Float(t@),
            Expression::Boolean(t) => SpecExpr::Boolean(t@),
            Expression::Multiply(l, r) => SpecExpr::Multiply(Box::new(l.view()), Box::new(r.view())),
            Expression::Divide(l, r) => SpecExpr::Divide(Box::new(l.view()), Box::new(r.view())),
            Expression::Add(l, r) => SpecExpr::Add(Box::new(l.view()), Box::new(r.view())),
            Expression::Subtract(l, r) => SpecExpr::Subtract(Box::new(l.view()), Box::new(r.view())),
            Expression::And(l, r) => SpecExpr::And(Box::new(l.view()), Box::new(r.view())),
            Expression::Or(l, r) => SpecExpr::Or(Box::new(l.view()), Box::new(r.view())),
            Expression::Equal(l, r) => SpecExpr::Equal(Box::new(l.view()), Box::new(r.view())),
            Expression::NotEqual(l, r) => SpecExpr::NotEqual(Box::new(l.view()), Box::new(r.view())),
            Expression::Negate(e) => SpecExpr::Negate(Box::new(e.view())),
            Expression::LT(l, r) => SpecExpr::LT(Box::new(l.view()), Box::new(r.view())),
            Expression::GT(l, r) => SpecExpr::GT(Box::new(l.view()), Box::new(r.view())),
            Expression::LTE(l, r) => SpecExpr::LTE(Box::new(l.view()), Box::new(r.view())),
            Expression::GTE(l, r) => SpecExpr::GTE(Box::new(l.view()), Box::new(r.view())),
        }
    }
}

impl Statement {
    pub open spec fn view(&self) -> SpecStmt
        decreases self,
    {
        match self {
            Statement::Assignment(l, r) => SpecStmt::Assignment(l.view(), r.view()),
            Statement::If(c, body, elifs, other) => SpecStmt::If(
                c.view(),
                Box::new(body.view()),
                Seq::new(elifs.len() as nat, |i: int| if 0 <= i < elifs.len() { elifs[i].view() } else { SpecStmt::Break }),
                match other {
                    Some(b) => Some(Box::new(b.view())),
                    None => None,
                },
            ),
            Statement::ElIf(c, body) => SpecStmt::ElIf(c.view(), Box::new(body.view())),
            Statement::While(c, body) => SpecStmt::While(c.view(), Box::new(body.view())),
            Statement::Block(v) => SpecStmt::Block(Seq::new(v.len() as nat, |i: int| if 0 <= i < v.len() { v[i].view() } else { SpecStmt::Break })),
            Statement::Break => SpecStmt::Break,
        }
    }
}

} // verus!
