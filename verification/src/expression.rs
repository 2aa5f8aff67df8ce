use crate::literal::{Literal, LiteralView};
use crate::token::{Token, TokenView};
use vstd::prelude::*;

verus! {

/// An expression of the language, as the parser builds it.
///
/// A `Variable` or `Assign` node carries an `id` that tells it apart from
/// every other node of the program: the resolver files the scope distance
/// of the node under that number.
#[derive(Debug, PartialEq, Eq)]
pub enum Expr {
    Logical { left: Box<Expr>, operator: Token, right: Box<Expr> },
    Binary { left: Box<Expr>, operator: Token, right: Box<Expr> },
    Variable { name: Token, id: usize },
    Grouping { expression: Box<Expr> },
    Literal { literal: Literal },
    Get { object: Box<Expr>, name: Token },
    Call { callee: Box<Expr>, paren: Token, arguments: Vec<Box<Expr>> },
    Unary { operator: Token, right: Box<Expr> },
    Assign { name: Token, value: Box<Expr>, id: usize },
}

/// The mathematical value of an [`Expr`].
pub enum ExprView {
    Logical { left: Box<ExprView>, operator: TokenView, right: Box<ExprView> },
    Binary { left: Box<ExprView>, operator: TokenView, right: Box<ExprView> },
    Variable { name: TokenView, id: usize },
    Grouping { expression: Box<ExprView> },
    Literal { literal: LiteralView },
    Get { object: Box<ExprView>, name: TokenView },
    Call { callee: Box<ExprView>, paren: TokenView, arguments: Seq<ExprView> },
    Unary { operator: TokenView, right: Box<ExprView> },
    Assign { name: TokenView, value: Box<ExprView>, id: usize },
}

/// The value of an expression tree.
pub open spec fn expr_view(e: Expr) -> ExprView
    decreases e,
{
    match e {
        Expr::Logical { left, operator, right } => ExprView::Logical {
            left: Box::new(expr_view(*left)),
            operator: operator@,
            right: Box::new(expr_view(*right)),
        },
        Expr::Binary { left, operator, right } => ExprView::Binary {
            left: Box::new(expr_view(*left)),
            operator: operator@,
            right: Box::new(expr_view(*right)),
        },
        Expr::Variable { name, id } => ExprView::Variable { name: name@, id },
        Expr::Grouping { expression } => ExprView::Grouping {
            expression: Box::new(expr_view(*expression)),
        },
        Expr::Literal { literal } => ExprView::Literal { literal: literal@ },
        Expr::Get { object, name } => ExprView::Get {
            object: Box::new(expr_view(*object)),
            name: name@,
        },
        Expr::Call { callee, paren, arguments } => ExprView::Call {
            callee: Box::new(expr_view(*callee)),
            paren: paren@,
            arguments: Seq::new(
                arguments@.len(),
                |i: int|
                    if 0 <= i < arguments@.len() {
                        expr_view(*arguments@[i])
                    } else {
                        arbitrary()
                    },
            ),
        },
        Expr::Unary { operator, right } => ExprView::Unary {
            operator: operator@,
            right: Box::new(expr_view(*right)),
        },
        Expr::Assign { name, value, id } => ExprView::Assign {
            name: name@,
            value: Box::new(expr_view(*value)),
            id,
        },
    }
}

/// The values of a sequence of expression trees, in order.
pub open spec fn exprs_view(s: Seq<Box<Expr>>) -> Seq<ExprView> {
    Seq::new(s.len(), |i: int| expr_view(*s[i]))
}

impl View for Expr {
    type V = ExprView;

    open spec fn view(&self) -> ExprView {
        expr_view(*self)
    }
}

/// The view of a call lists its arguments' views.
pub proof fn lemma_call_view(callee: Box<Expr>, paren: Token, arguments: Vec<Box<Expr>>)
    ensures
        expr_view(Expr::Call { callee, paren, arguments }) == (ExprView::Call {
            callee: Box::new(expr_view(*callee)),
            paren: paren@,
            arguments: exprs_view(arguments@),
        }),
{
    let e = Expr::Call { callee, paren, arguments };
    assert(expr_view(e)->arguments =~= exprs_view(arguments@));
}

impl Clone for Expr {
    fn clone(&self) -> (r: Self)
        ensures
            r@ == self@,
        decreases self,
    {
        match self {
            Expr::Logical { left, operator, right } => Expr::Logical {
                left: Box::new((&**left).clone()),
                operator: operator.clone(),
                right: Box::new((&**right).clone()),
            },
            Expr::Binary { left, operator, right } => Expr::Binary {
                left: Box::new((&**left).clone()),
                operator: operator.clone(),
                right: Box::new((&**right).clone()),
            },
            Expr::Variable { name, id } => Expr::Variable { name: name.clone(), id: *id },
            Expr::Grouping { expression } => Expr::Grouping {
                expression: Box::new((&**expression).clone()),
            },
            Expr::Literal { literal } => Expr::Literal { literal: literal.clone() },
            Expr::Get { object, name } => Expr::Get {
                object: Box::new((&**object).clone()),
                name: name.clone(),
            },
            Expr::Call { callee, paren, arguments } => {
                let mut copies: Vec<Box<Expr>> = Vec::new();
                let mut i: usize = 0;
                while i < arguments.len()
                    invariant
                        i <= arguments.len(),
                        copies@.len() == i,
                        forall|j: int| 0 <= j < i ==> expr_view(*copies@[j]) == expr_view(*arguments@[j]),
                        decreases_to!(self => arguments),
                    decreases arguments.len() - i,
                {
                    let copy = (&*arguments[i]).clone();
                    copies.push(Box::new(copy));
                    i += 1;
                }
                let r = Expr::Call {
                    callee: Box::new((&**callee).clone()),
                    paren: paren.clone(),
                    arguments: copies,
                };
                proof {
                    lemma_call_view(r->callee, r->paren, r->arguments);
                    lemma_call_view(*callee, *paren, *arguments);
                    assert(exprs_view(r->arguments@) =~= exprs_view(arguments@));
                }
                r
            },
            Expr::Unary { operator, right } => Expr::Unary {
                operator: operator.clone(),
                right: Box::new((&**right).clone()),
            },
            Expr::Assign { name, value, id } => Expr::Assign {
                name: name.clone(),
                value: Box::new((&**value).clone()),
                id: *id,
            },
        }
    }
}

} // verus!
