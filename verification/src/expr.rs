//! The expressions of the language.

use vstd::prelude::*;
use crate::object::{Object, ObjectView};
use crate::token::{Token, TokenView};

verus! {

/// An expression of the language. A node owns its sub-expressions.
#[allow(inconsistent_fields)]
#[derive(Debug, PartialEq)]
pub enum Expr {
    Assign { name: Token, value: Box<Expr> },
    Variable { name: Token },
    Unary { right: Box<Expr>, operator: Token },
    Binary { left: Box<Expr>, operator: Token, right: Box<Expr> },
    Grouping { expr: Box<Expr> },
    Literal { value: Object },
    Logical { left: Box<Expr>, right: Box<Expr>, operator: Token },
    Call { callee: Box<Expr>, paren: Token, arguments: Vec<Expr> },
}

/// The mathematical value of an [`Expr`].
#[allow(inconsistent_fields)]
pub enum ExprView {
    Assign { name: TokenView, value: Box<ExprView> },
    Variable { name: TokenView },
    Unary { right: Box<ExprView>, operator: TokenView },
    Binary { left: Box<ExprView>, operator: TokenView, right: Box<ExprView> },
    Grouping { expr: Box<ExprView> },
    Literal { value: ObjectView },
    Logical { left: Box<ExprView>, right: Box<ExprView>, operator: TokenView },
    Call { callee: Box<ExprView>, paren: TokenView, arguments: Seq<ExprView> },
}

impl Expr {
    /// The tree with every token, literal and argument list replaced by its
    /// mathematical value.
    pub open spec fn model(&self) -> ExprView
        decreases self,
    {
        match self {
            Expr::Assign { name, value } => ExprView::Assign {
                name: name@,
                value: Box::new(value.model()),
            },
            Expr::Variable { name } => ExprView::Variable { name: name@ },
            Expr::Unary { right, operator } => ExprView::Unary {
                right: Box::new(right.model()),
                operator: operator@,
            },
            Expr::Binary { left, operator, right } => ExprView::Binary {
                left: Box::new(left.model()),
                operator: operator@,
                right: Box::new(right.model()),
            },
            Expr::Grouping { expr } => ExprView::Grouping { expr: Box::new(expr.model()) },
            Expr::Literal { value } => ExprView::Literal { value: value@ },
            Expr::Logical { left, right, operator } => ExprView::Logical {
                left: Box::new(left.model()),
                right: Box::new(right.model()),
                operator: operator@,
            },
            Expr::Call { callee, paren, arguments } => ExprView::Call {
                callee: Box::new(callee.model()),
                paren: paren@,
                arguments: Seq::new(
                    arguments@.len(),
                    |i: int|
                        if 0 <= i < arguments@.len() {
                            arguments@[i].model()
                        } else {
                            ExprView::Literal { value: ObjectView::Null }
                        },
                ),
            },
        }
    }
}

impl View for Expr {
    type V = ExprView;

    open spec fn view(&self) -> ExprView {
        self.model()
    }
}

/// The views of a sequence of expressions.
pub open spec fn expr_views(exprs: Seq<Expr>) -> Seq<ExprView> {
    Seq::new(exprs.len(), |i: int| exprs[i].model())
}

/// The arguments of a call are viewed element by element.
pub proof fn call_view(callee: Box<Expr>, paren: Token, arguments: Vec<Expr>)
    ensures
        (Expr::Call { callee, paren, arguments })@ == (ExprView::Call {
            callee: Box::new(callee.model()),
            paren: paren@,
            arguments: expr_views(arguments@),
        }),
{
    let e = Expr::Call { callee, paren, arguments };
    assert(e@->Call_arguments =~= expr_views(arguments@));
}

} // verus!
