use crate::expression::{expr_view, Expr, ExprView};
use crate::token::{clone_tokens, tokens_view, Token, TokenView};
use vstd::prelude::*;

verus! {

/// A statement of the language, as the parser builds it.
#[allow(inconsistent_fields)]
#[derive(Debug, PartialEq, Eq)]
pub enum Statement {
    If { condition: Box<Expr>, then_branch: Box<Statement>, else_branch: Option<Box<Statement>> },
    Return { keyword: Token, value: Option<Box<Expr>> },
    Function { name: Token, params: Vec<Token>, body: Vec<Box<Statement>> },
    Print { expression: Box<Expr> },
    Expression { expression: Box<Expr> },
    Variable { name: Token, initializer: Option<Box<Expr>> },
    Class { name: Token, methods: Vec<Box<Statement>> },
    Block { statements: Vec<Box<Statement>> },
    While { condition: Box<Expr>, body: Box<Statement> },
}

/// The mathematical value of a [`Statement`].
#[allow(inconsistent_fields)]
pub enum StmtView {
    If { condition: ExprView, then_branch: Box<StmtView>, else_branch: Option<Box<StmtView>> },
    Return { keyword: TokenView, value: Option<ExprView> },
    Function { name: TokenView, params: Seq<TokenView>, body: Seq<StmtView> },
    Print { expression: ExprView },
    Expression { expression: ExprView },
    Variable { name: TokenView, initializer: Option<ExprView> },
    Class { name: TokenView, methods: Seq<StmtView> },
    Block { statements: Seq<StmtView> },
    While { condition: ExprView, body: Box<StmtView> },
}

/// The value of a statement tree.
pub open spec fn stmt_view(s: Statement) -> StmtView
    decreases s,
{
    match s {
        Statement::If { condition, then_branch, else_branch } => StmtView::If {
            condition: expr_view(*condition),
            then_branch: Box::new(stmt_view(*then_branch)),
            else_branch: match else_branch {
                Some(e) => Some(Box::new(stmt_view(*e))),
                None => None,
            },
        },
        Statement::Return { keyword, value } => StmtView::Return {
            keyword: keyword@,
            value: match value {
                Some(v) => Some(expr_view(*v)),
                None => None,
            },
        },
        Statement::Function { name, params, body } => StmtView::Function {
            name: name@,
            params: tokens_view(params@),
            body: Seq::new(
                body@.len(),
                |i: int|
                    if 0 <= i < body@.len() {
                        stmt_view(*body@[i])
                    } else {
                        arbitrary()
                    },
            ),
        },
        Statement::Print { expression } => StmtView::Print { expression: expr_view(*expression) },
        Statement::Expression { expression } => StmtView::Expression {
            expression: expr_view(*expression),
        },
        Statement::Variable { name, initializer } => StmtView::Variable {
            name: name@,
            initializer: match initializer {
                Some(v) => Some(expr_view(*v)),
                None => None,
            },
        },
        Statement::Class { name, methods } => StmtView::Class {
            name: name@,
            methods: Seq::new(
                methods@.len(),
                |i: int|
                    if 0 <= i < methods@.len() {
                        stmt_view(*methods@[i])
                    } else {
                        arbitrary()
                    },
            ),
        },
        Statement::Block { statements } => StmtView::Block {
            statements: Seq::new(
                statements@.len(),
                |i: int|
                    if 0 <= i < statements@.len() {
                        stmt_view(*statements@[i])
                    } else {
                        arbitrary()
                    },
            ),
        },
        Statement::While { condition, body } => StmtView::While {
            condition: expr_view(*condition),
            body: Box::new(stmt_view(*body)),
        },
    }
}

/// The values of a sequence of statement trees, in order.
pub open spec fn stmts_view(s: Seq<Box<Statement>>) -> Seq<StmtView> {
    Seq::new(s.len(), |i: int| stmt_view(*s[i]))
}

impl View for Statement {
    type V = StmtView;

    open spec fn view(&self) -> StmtView {
        stmt_view(*self)
    }
}

/// The view of a statement that holds a list of statements lists their views.
pub proof fn lemma_list_views(s: Statement)
    ensures
        s matches Statement::Function { name, params, body } ==> stmt_view(s) == (
        StmtView::Function { name: name@, params: tokens_view(params@), body: stmts_view(body@) }),
        s matches Statement::Class { name, methods } ==> stmt_view(s) == (StmtView::Class {
            name: name@,
            methods: stmts_view(methods@),
        }),
        s matches Statement::Block { statements } ==> stmt_view(s) == (StmtView::Block {
            statements: stmts_view(statements@),
        }),
{
    match s {
        Statement::Function { name, params, body } => {
            assert(stmt_view(s)->Function_body =~= stmts_view(body@));
        },
        Statement::Class { name, methods } => {
            assert(stmt_view(s)->methods =~= stmts_view(methods@));
        },
        Statement::Block { statements } => {
            assert(stmt_view(s)->statements =~= stmts_view(statements@));
        },
        _ => {},
    }
}

/// Copies a list of statements.
pub fn clone_statements(list: &Vec<Box<Statement>>) -> (r: Vec<Box<Statement>>)
    ensures
        stmts_view(r@) == stmts_view(list@),
    decreases list,
{
    let mut copies: Vec<Box<Statement>> = Vec::new();
    let mut i: usize = 0;
    while i < list.len()
        invariant
            i <= list.len(),
            copies@.len() == i,
            forall|j: int| 0 <= j < i ==> stmt_view(*copies@[j]) == stmt_view(*list@[j]),
        decreases list.len() - i,
    {
        let copy = (&*list[i]).clone();
        copies.push(Box::new(copy));
        i += 1;
    }
    assert(stmts_view(copies@) =~= stmts_view(list@));
    copies
}

impl Clone for Statement {
    fn clone(&self) -> (r: Self)
        ensures
            r@ == self@,
        decreases self,
    {
        match self {
            Statement::If { condition, then_branch, else_branch } => Statement::If {
                condition: Box::new((&**condition).clone()),
                then_branch: Box::new((&**then_branch).clone()),
                else_branch: match else_branch {
                    Some(e) => Some(Box::new((&**e).clone())),
                    None => None,
                },
            },
            Statement::Return { keyword, value } => Statement::Return {
                keyword: keyword.clone(),
                value: match value {
                    Some(v) => Some(Box::new((&**v).clone())),
                    None => None,
                },
            },
            Statement::Function { name, params, body } => {
                let r = Statement::Function {
                    name: name.clone(),
                    params: clone_tokens(params),
                    body: clone_statements(body),
                };
                proof {
                    lemma_list_views(r);
                    lemma_list_views(*self);
                }
                r
            },
            Statement::Print { expression } => Statement::Print {
                expression: Box::new((&**expression).clone()),
            },
            Statement::Expression { expression } => Statement::Expression {
                expression: Box::new((&**expression).clone()),
            },
            Statement::Variable { name, initializer } => Statement::Variable {
                name: name.clone(),
                initializer: match initializer {
                    Some(v) => Some(Box::new((&**v).clone())),
                    None => None,
                },
            },
            Statement::Class { name, methods } => {
                let r = Statement::Class { name: name.clone(), methods: clone_statements(methods) };
                proof {
                    lemma_list_views(r);
                    lemma_list_views(*self);
                }
                r
            },
            Statement::Block { statements } => {
                let r = Statement::Block { statements: clone_statements(statements) };
                proof {
                    lemma_list_views(r);
                    lemma_list_views(*self);
                }
                r
            },
            Statement::While { condition, body } => Statement::While {
                condition: Box::new((&**condition).clone()),
                body: Box::new((&**body).clone()),
            },
        }
    }
}

} // verus!
