//! The syntax tree: expressions and statements.

use crate::tokens::{Literal, LiteralView, Token, TokenView};
use vstd::prelude::*;

verus! {

/// An expression.
#[derive(Debug, PartialEq)]
pub enum Expr {
    Assign(Token, Box<Expr>),
    Binary(Box<Expr>, Token, Box<Expr>),
    Grouping(Box<Expr>),
    Literal(Literal),
    Logical(Box<Expr>, Token, Box<Expr>),
    Unary(Token, Box<Expr>),
    Variable(Token),
}

/// The mathematical value of an [`Expr`].
pub enum ExprView {
    Assign(TokenView, Box<ExprView>),
    Binary(Box<ExprView>, TokenView, Box<ExprView>),
    Grouping(Box<ExprView>),
    Literal(LiteralView),
    Logical(Box<ExprView>, TokenView, Box<ExprView>),
    Unary(TokenView, Box<ExprView>),
    Variable(TokenView),
}

/// The mathematical value of an expression.
pub open spec fn expr_view(e: Expr) -> ExprView
    decreases e,
{
    match e {
        Expr::Assign(name, value) => ExprView::Assign(name@, Box::new(expr_view(*value))),
        Expr::Binary(left, operator, right) => ExprView::Binary(
            Box::new(expr_view(*left)),
            operator@,
            Box::new(expr_view(*right)),
        ),
        Expr::Grouping(inner) => ExprView::Grouping(Box::new(expr_view(*inner))),
        Expr::Literal(literal) => ExprView::Literal(literal@),
        Expr::Logical(left, operator, right) => ExprView::Logical(
            Box::new(expr_view(*left)),
            operator@,
            Box::new(expr_view(*right)),
        ),
        Expr::Unary(operator, operand) => ExprView::Unary(operator@, Box::new(expr_view(*operand))),
        Expr::Variable(name) => ExprView::Variable(name@),
    }
}

impl View for Expr {
    type V = ExprView;

    open spec fn view(&self) -> ExprView {
        expr_view(*self)
    }
}

impl Clone for Expr {
    fn clone(&self) -> (r: Self)
        ensures
            r@ == self@,
        decreases self,
    {
        match self {
            Expr::Assign(name, value) => Expr::Assign(name.clone(), Box::new((**value).clone())),
            Expr::Binary(left, operator, right) => Expr::Binary(
                Box::new((**left).clone()),
                operator.clone(),
                Box::new((**right).clone()),
            ),
            Expr::Grouping(inner) => Expr::Grouping(Box::new((**inner).clone())),
            Expr::Literal(literal) => Expr::Literal(literal.clone()),
            Expr::Logical(left, operator, right) => Expr::Logical(
                Box::new((**left).clone()),
                operator.clone(),
                Box::new((**right).clone()),
            ),
            Expr::Unary(operator, operand) => Expr::Unary(
                operator.clone(),
                Box::new((**operand).clone()),
            ),
            Expr::Variable(name) => Expr::Variable(name.clone()),
        }
    }
}

/// A statement.
#[derive(Debug, PartialEq)]
pub enum Stmt {
    Block(Vec<Stmt>),
    Expression(Expr),
    If(Expr, Box<Stmt>, Box<Option<Stmt>>),
    Print(Expr),
    Var(Token, Option<Expr>),
    While(Expr, Box<Stmt>),
}

/// The mathematical value of a [`Stmt`].
pub enum StmtView {
    Block(Seq<StmtView>),
    Expression(ExprView),
    If(ExprView, Box<StmtView>, Option<Box<StmtView>>),
    Print(ExprView),
    Var(TokenView, Option<ExprView>),
    While(ExprView, Box<StmtView>),
}

/// The view of an optional expression.
pub open spec fn expr_option_view(e: Option<Expr>) -> Option<ExprView> {
    match e {
        Some(e) => Some(e@),
        None => None,
    }
}

/// The mathematical value of a statement.
pub open spec fn stmt_view(s: Stmt) -> StmtView
    decreases s,
{
    match s {
        Stmt::Block(statements) => StmtView::Block(
            Seq::new(
                statements@.len(),
                |i: int|
                    if 0 <= i < statements@.len() {
                        stmt_view(statements@[i])
                    } else {
                        arbitrary()
                    },
            ),
        ),
        Stmt::Expression(e) => StmtView::Expression(e@),
        Stmt::If(condition, then_branch, else_branch) => StmtView::If(
            condition@,
            Box::new(stmt_view(*then_branch)),
            match *else_branch {
                Some(s) => Some(Box::new(stmt_view(s))),
                None => None,
            },
        ),
        Stmt::Print(e) => StmtView::Print(e@),
        Stmt::Var(name, initializer) => StmtView::Var(name@, expr_option_view(initializer)),
        Stmt::While(condition, body) => StmtView::While(condition@, Box::new(stmt_view(*body))),
    }
}

impl View for Stmt {
    type V = StmtView;

    open spec fn view(&self) -> StmtView {
        stmt_view(*self)
    }
}

/// The views of a sequence of statements, in order.
pub open spec fn stmts_view(statements: Seq<Stmt>) -> Seq<StmtView> {
    Seq::new(statements.len(), |i: int| statements[i]@)
}

/// A block's view holds the views of its statements.
pub proof fn lemma_block_view(statements: Vec<Stmt>)
    ensures
        Stmt::Block(statements)@ == StmtView::Block(stmts_view(statements@)),
{
    assert(Stmt::Block(statements)@->Block_0 =~= stmts_view(statements@));
}

/// A copy of each statement, in order.
pub fn clone_statements(statements: &Vec<Stmt>) -> (r: Vec<Stmt>)
    ensures
        stmts_view(r@) == stmts_view(statements@),
    decreases statements,
{
    let mut out: Vec<Stmt> = Vec::new();
    let mut i: usize = 0;
    while i < statements.len()
        invariant
            i <= statements.len(),
            out.len() == i,
            forall|j: int| 0 <= j < i ==> out[j]@ == statements[j]@,
        decreases statements.len() - i,
    {
        out.push(statements[i].clone());
        i += 1;
    }
    assert(stmts_view(out@) =~= stmts_view(statements@));
    out
}

impl Clone for Stmt {
    fn clone(&self) -> (r: Self)
        ensures
            r@ == self@,
        decreases self,
    {
        match self {
            Stmt::Block(statements) => {
                let copy = clone_statements(statements);
                proof {
                    lemma_block_view(copy);
                    lemma_block_view(*statements);
                }
                Stmt::Block(copy)
            },
            Stmt::Expression(e) => Stmt::Expression(e.clone()),
            Stmt::If(condition, then_branch, else_branch) => {
                let other = match &**else_branch {
                    Some(s) => Some(s.clone()),
                    None => None,
                };
                Stmt::If(condition.clone(), Box::new((**then_branch).clone()), Box::new(other))
            },
            Stmt::Print(e) => Stmt::Print(e.clone()),
            Stmt::Var(name, initializer) => {
                let init = match initializer {
                    Some(e) => Some(e.clone()),
                    None => None,
                };
                Stmt::Var(name.clone(), init)
            },
            Stmt::While(condition, body) => Stmt::While(
                condition.clone(),
                Box::new((**body).clone()),
            ),
        }
    }
}

} // verus!
