//! The statements of the language.

use vstd::prelude::*;
use crate::expr::{Expr, ExprView};
use crate::token::{token_views, Token, TokenView};

verus! {

/// A statement of the language. A node owns its parts.
#[allow(inconsistent_fields)]
#[derive(Debug, PartialEq)]
pub enum Stmt {
    Expression { expr: Box<Expr> },
    Print { expr: Box<Expr> },
    Var { name: Token, initializer: Option<Expr> },
    Block { statements: Vec<Stmt> },
    If { condition: Box<Expr>, then_branch: Box<Stmt>, else_branch: Box<Option<Stmt>> },
    While { condition: Box<Expr>, body: Box<Stmt> },
    Function { name: Token, params: Vec<Token>, body: Vec<Stmt> },
    Return { keyword: Token, value: Box<Option<Expr>> },
}

/// The mathematical value of a [`Stmt`].
#[allow(inconsistent_fields)]
pub enum StmtView {
    Expression { expr: Box<ExprView> },
    Print { expr: Box<ExprView> },
    Var { name: TokenView, initializer: Option<ExprView> },
    Block { statements: Seq<StmtView> },
    If { condition: Box<ExprView>, then_branch: Box<StmtView>, else_branch: Box<Option<StmtView>> },
    While { condition: Box<ExprView>, body: Box<StmtView> },
    Function { name: TokenView, params: Seq<TokenView>, body: Seq<StmtView> },
    Return { keyword: TokenView, value: Box<Option<ExprView>> },
}

/// The view of an optional expression.
pub open spec fn optional_expr_view(expr: Option<Expr>) -> Option<ExprView> {
    match expr {
        Some(e) => Some(e@),
        None => None,
    }
}

impl Stmt {
    /// The tree with every token, expression and statement list replaced by
    /// its mathematical value.
    pub open spec fn model(&self) -> StmtView
        decreases self,
    {
        match self {
            Stmt::Expression { expr } => StmtView::Expression { expr: Box::new(expr@) },
            Stmt::Print { expr } => StmtView::Print { expr: Box::new(expr@) },
            Stmt::Var { name, initializer } => StmtView::Var {
                name: name@,
                initializer: optional_expr_view(*initializer),
            },
            Stmt::Block { statements } => StmtView::Block {
                statements: Seq::new(
                    statements@.len(),
                    |i: int|
                        if 0 <= i < statements@.len() {
                            statements@[i].model()
                        } else {
                            StmtView::Block { statements: Seq::empty() }
                        },
                ),
            },
            Stmt::If { condition, then_branch, else_branch } => StmtView::If {
                condition: Box::new(condition@),
                then_branch: Box::new(then_branch.model()),
                else_branch: Box::new(
                    match **else_branch {
                        Some(s) => Some(s.model()),
                        None => None,
                    },
                ),
            },
            Stmt::While { condition, body } => StmtView::While {
                condition: Box::new(condition@),
                body: Box::new(body.model()),
            },
            Stmt::Function { name, params, body } => StmtView::Function {
                name: name@,
                params: token_views(params@),
                body: Seq::new(
                    body@.len(),
                    |i: int|
                        if 0 <= i < body@.len() {
                            body@[i].model()
                        } else {
                            StmtView::Block { statements: Seq::empty() }
                        },
                ),
            },
            Stmt::Return { keyword, value } => StmtView::Return {
                keyword: keyword@,
                value: Box::new(optional_expr_view(**value)),
            },
        }
    }
}

impl View for Stmt {
    type V = StmtView;

    open spec fn view(&self) -> StmtView {
        self.model()
    }
}

/// The views of a sequence of statements.
pub open spec fn stmt_views(stmts: Seq<Stmt>) -> Seq<StmtView> {
    Seq::new(stmts.len(), |i: int| stmts[i].model())
}

/// The statements of a block are viewed element by element.
pub proof fn block_view(statements: Vec<Stmt>)
    ensures
        (Stmt::Block { statements })@ == (StmtView::Block { statements: stmt_views(statements@) }),
{
    let block = Stmt::Block { statements };
    assert(block@->Block_statements =~= stmt_views(statements@));
}

/// The parameters and the body of a function are viewed element by element.
pub proof fn function_view(name: Token, params: Vec<Token>, body: Vec<Stmt>)
    ensures
        (Stmt::Function { name, params, body })@ == (StmtView::Function {
            name: name@,
            params: token_views(params@),
            body: stmt_views(body@),
        }),
{
    let function = Stmt::Function { name, params, body };
    assert(function@->Function_body =~= stmt_views(body@));
}

} // verus!
