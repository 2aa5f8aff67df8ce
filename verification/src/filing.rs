//! The resolver files the variables of a program as the rules of scoping
//! say, if the nodes of the program are numbered apart.

use crate::expression::ExprView;
use crate::numbering::{expr_ids, exprs_ids, optional_ids, stmt_ids, stmts_ids};
use crate::resolver::{
    declare_params, innermost, resolve_expr, resolve_exprs, resolve_function, resolve_stmt,
    resolve_stmts, FunctionType, Resolution,
};
use crate::soundness::{
    declare, define, expr_ok, exprs_ok, params_scopes, plain, stmt_ok, stmts_ok, Scopes,
};
use crate::statement::StmtView;
use crate::token::TokenView;
use vstd::prelude::*;

verus! {

/// Whether no two numbers of a list are the same.
pub open spec fn distinct(ids: Seq<usize>) -> bool {
    forall|i: int, j: int| 0 <= i < j < ids.len() ==> ids[i] != ids[j]
}

/// Whether two lists share no number.
pub open spec fn disjoint(a: Seq<usize>, b: Seq<usize>) -> bool {
    forall|i: int, j: int| 0 <= i < a.len() && 0 <= j < b.len() ==> a[i] != b[j]
}

/// Whether a table files none of the numbers of a list.
pub open spec fn fresh(table: Map<usize, int>, ids: Seq<usize>) -> bool {
    forall|j: int| 0 <= j < ids.len() ==> !table.dom().contains(#[trigger] ids[j])
}

/// Whether two tables differ at most at the numbers of a list.
pub open spec fn touched(before: Map<usize, int>, after: Map<usize, int>, ids: Seq<usize>) -> bool {
    forall|k: usize|
        !ids.contains(k) ==> (#[trigger] after.dom().contains(k)) == before.dom().contains(k) && (
        before.dom().contains(k) ==> after[k] == before[k])
}

/// Whether two tables file the numbers of a list alike.
pub open spec fn agree(a: Map<usize, int>, b: Map<usize, int>, ids: Seq<usize>) -> bool {
    forall|j: int|
        0 <= j < ids.len() ==> a.dom().contains(#[trigger] ids[j]) == b.dom().contains(ids[j]) && (
        a.dom().contains(ids[j]) ==> a[ids[j]] == b[ids[j]])
}

/// The parts of a list without a number twice have no number twice and
/// share none.
pub proof fn lemma_distinct_parts(a: Seq<usize>, b: Seq<usize>)
    requires
        distinct(a + b),
    ensures
        distinct(a),
        distinct(b),
        disjoint(a, b),
        disjoint(b, a),
{
    let ab = a + b;
    assert forall|i: int, j: int| 0 <= i < j < a.len() implies a[i] != a[j] by {
        assert(ab[i] == a[i] && ab[j] == a[j]);
    }
    assert forall|i: int, j: int| 0 <= i < j < b.len() implies b[i] != b[j] by {
        assert(ab[a.len() + i] == b[i] && ab[a.len() + j] == b[j]);
    }
    assert forall|i: int, j: int| 0 <= i < a.len() && 0 <= j < b.len() implies a[i] != b[j] by {
        assert(ab[i] == a[i] && ab[a.len() + j] == b[j]);
    }
}

/// A table that files no number of a whole files none of its parts.
pub proof fn lemma_fresh_parts(table: Map<usize, int>, a: Seq<usize>, b: Seq<usize>)
    requires
        fresh(table, a + b),
    ensures
        fresh(table, a),
        fresh(table, b),
{
    let ab = a + b;
    assert forall|j: int| 0 <= j < a.len() implies !table.dom().contains(#[trigger] a[j]) by {
        assert(ab[j] == a[j]);
    }
    assert forall|j: int| 0 <= j < b.len() implies !table.dom().contains(#[trigger] b[j]) by {
        assert(ab[a.len() + j] == b[j]);
    }
}

/// Tables that file a whole alike file its parts alike.
pub proof fn lemma_agree_parts(x: Map<usize, int>, y: Map<usize, int>, a: Seq<usize>, b: Seq<usize>)
    requires
        agree(x, y, a + b),
    ensures
        agree(x, y, a),
        agree(x, y, b),
{
    let ab = a + b;
    assert forall|j: int| 0 <= j < a.len() implies x.dom().contains(#[trigger] a[j])
        == y.dom().contains(a[j]) && (x.dom().contains(a[j]) ==> x[a[j]] == y[a[j]]) by {
        assert(ab[j] == a[j]);
    }
    assert forall|j: int| 0 <= j < b.len() implies x.dom().contains(#[trigger] b[j])
        == y.dom().contains(b[j]) && (x.dom().contains(b[j]) ==> x[b[j]] == y[b[j]]) by {
        assert(ab[a.len() + j] == b[j]);
    }
}

/// Tables that differ at most at some numbers file all other numbers alike,
/// and what was not filed among those is still not filed.
pub proof fn lemma_untouched(
    before: Map<usize, int>,
    after: Map<usize, int>,
    ids: Seq<usize>,
    other: Seq<usize>,
)
    requires
        touched(before, after, ids),
        disjoint(other, ids),
    ensures
        agree(before, after, other),
        agree(after, before, other),
        fresh(before, other) ==> fresh(after, other),
{
    assert forall|j: int| 0 <= j < other.len() implies !ids.contains(#[trigger] other[j]) by {
        if ids.contains(other[j]) {
            let k = choose|k: int| 0 <= k < ids.len() && ids[k] == other[j];
            assert(other[j] != ids[k]);
        }
    }
}

/// Tables that differ one after the other at most at the numbers of two
/// lists differ at most at the numbers of both.
pub proof fn lemma_touched_on(
    t0: Map<usize, int>,
    t1: Map<usize, int>,
    t2: Map<usize, int>,
    a: Seq<usize>,
    b: Seq<usize>,
)
    requires
        touched(t0, t1, a),
        touched(t1, t2, b),
    ensures
        touched(t0, t2, a + b),
{
    let ab = a + b;
    assert forall|k: usize| !ab.contains(k) implies (#[trigger] t2.dom().contains(k))
        == t0.dom().contains(k) && (t0.dom().contains(k) ==> t2[k] == t0[k]) by {
        assert(!a.contains(k)) by {
            if a.contains(k) {
                let i = choose|i: int| 0 <= i < a.len() && a[i] == k;
                assert(ab[i] == k);
                assert(ab.contains(k));
            }
        }
        assert(!b.contains(k)) by {
            if b.contains(k) {
                let i = choose|i: int| 0 <= i < b.len() && b[i] == k;
                assert(ab[a.len() + i] == k);
                assert(ab.contains(k));
            }
        }
        assert(t1.dom().contains(k) == t0.dom().contains(k));
        assert(t2.dom().contains(k) == t1.dom().contains(k));
    }
}

/// Tables that differ at most at the numbers of two lists differ at most
/// at them whichever list comes first.
pub proof fn lemma_touched_turned(
    before: Map<usize, int>,
    after: Map<usize, int>,
    a: Seq<usize>,
    b: Seq<usize>,
)
    requires
        touched(before, after, a + b),
    ensures
        touched(before, after, b + a),
{
    let ab = a + b;
    let ba = b + a;
    assert forall|k: usize| !ba.contains(k) implies (#[trigger] after.dom().contains(k))
        == before.dom().contains(k) && (before.dom().contains(k) ==> after[k] == before[k]) by {
        assert(!ab.contains(k)) by {
            if ab.contains(k) {
                let j = choose|j: int| 0 <= j < ab.len() && ab[j] == k;
                if j < a.len() {
                    assert(ba[b.len() + j] == k);
                } else {
                    assert(ba[j - a.len()] == k);
                }
                assert(ba.contains(k));
            }
        }
        assert(after.dom().contains(k) == before.dom().contains(k));
    }
}

/// Tables that differ at most at some numbers differ at most at those and
/// others.
pub proof fn lemma_touched_wider(
    before: Map<usize, int>,
    after: Map<usize, int>,
    ids: Seq<usize>,
    a: Seq<usize>,
    b: Seq<usize>,
)
    requires
        touched(before, after, ids),
    ensures
        touched(before, after, a + ids),
        touched(before, after, ids + b),
        touched(before, after, a + ids + b),
{
    assert forall|k: usize| ids.contains(k) implies (a + ids).contains(k) && (ids + b).contains(
        k,
    ) && (a + ids + b).contains(k) by {
        let i = choose|i: int| 0 <= i < ids.len() && ids[i] == k;
        assert((a + ids)[a.len() + i] == k);
        assert((ids + b)[i] == k);
        assert((a + ids + b)[a.len() + i] == k);
    }
}

/// Whether the variables of an expression are filed as the rules say does
/// not turn on what the table files under other numbers.
pub proof fn lemma_expr_ok_stable(
    sigma: Scopes,
    x: Map<usize, int>,
    y: Map<usize, int>,
    e: ExprView,
)
    requires
        agree(x, y, expr_ids(e)),
    ensures
        expr_ok(sigma, x, e) == expr_ok(sigma, y, e),
    decreases e,
{
    match e {
        ExprView::Literal { literal } => {},
        ExprView::Grouping { expression } => {
            lemma_expr_ok_stable(sigma, x, y, *expression);
        },
        ExprView::Unary { operator, right } => {
            lemma_expr_ok_stable(sigma, x, y, *right);
        },
        ExprView::Binary { left, operator, right } => {
            lemma_agree_parts(x, y, expr_ids(*left), expr_ids(*right));
            lemma_expr_ok_stable(sigma, x, y, *left);
            lemma_expr_ok_stable(sigma, x, y, *right);
        },
        ExprView::Logical { left, operator, right } => {
            lemma_agree_parts(x, y, expr_ids(*left), expr_ids(*right));
            lemma_expr_ok_stable(sigma, x, y, *left);
            lemma_expr_ok_stable(sigma, x, y, *right);
        },
        ExprView::Variable { name, id } => {
            assert(expr_ids(e)[0] == id);
        },
        ExprView::Assign { name, value, id } => {
            lemma_agree_parts(x, y, seq![id], expr_ids(*value));
            lemma_expr_ok_stable(sigma, x, y, *value);
        },
        ExprView::Call { callee, paren, arguments } => {
            lemma_agree_parts(x, y, expr_ids(*callee), exprs_ids(arguments));
            lemma_expr_ok_stable(sigma, x, y, *callee);
            lemma_exprs_ok_stable(sigma, x, y, arguments);
        },
        ExprView::Get { object, name } => {
            lemma_expr_ok_stable(sigma, x, y, *object);
        },
    }
}

/// Whether the variables of a list of expressions are filed as the rules
/// say does not turn on what the table files under other numbers.
pub proof fn lemma_exprs_ok_stable(
    sigma: Scopes,
    x: Map<usize, int>,
    y: Map<usize, int>,
    list: Seq<ExprView>,
)
    requires
        agree(x, y, exprs_ids(list)),
    ensures
        exprs_ok(sigma, x, list) == exprs_ok(sigma, y, list),
    decreases list,
{
    if list.len() > 0 {
        lemma_agree_parts(x, y, exprs_ids(list.drop_last()), expr_ids(list.last()));
        lemma_exprs_ok_stable(sigma, x, y, list.drop_last());
        lemma_expr_ok_stable(sigma, x, y, list.last());
    }
}

/// Whether the variables of a statement are filed as the rules say does
/// not turn on what the table files under other numbers.
pub proof fn lemma_stmt_ok_stable(
    sigma: Scopes,
    inside: FunctionType,
    x: Map<usize, int>,
    y: Map<usize, int>,
    stmt: StmtView,
)
    requires
        agree(x, y, stmt_ids(stmt)),
    ensures
        stmt_ok(sigma, inside, x, stmt) == stmt_ok(sigma, inside, y, stmt),
    decreases stmt,
{
    match stmt {
        StmtView::Expression { expression } => {
            lemma_expr_ok_stable(sigma, x, y, expression);
        },
        StmtView::Print { expression } => {
            lemma_expr_ok_stable(sigma, x, y, expression);
        },
        StmtView::Variable { name, initializer } => match initializer {
            Some(expression) => {
                lemma_expr_ok_stable(declare(sigma, name.lexeme), x, y, expression);
            },
            None => {},
        },
        StmtView::Block { statements } => {
            lemma_stmts_ok_stable(sigma.push(Map::empty()), inside, x, y, statements);
        },
        StmtView::If { condition, then_branch, else_branch } => {
            let rest = match else_branch {
                Some(other) => stmt_ids(*other),
                None => Seq::empty(),
            };
            lemma_agree_parts(x, y, expr_ids(condition) + stmt_ids(*then_branch), rest);
            lemma_agree_parts(x, y, expr_ids(condition), stmt_ids(*then_branch));
            lemma_expr_ok_stable(sigma, x, y, condition);
            lemma_stmt_ok_stable(sigma, inside, x, y, *then_branch);
            match else_branch {
                Some(other) => {
                    lemma_stmt_ok_stable(sigma, inside, x, y, *other);
                },
                None => {},
            }
        },
        StmtView::While { condition, body } => {
            lemma_agree_parts(x, y, expr_ids(condition), stmt_ids(*body));
            lemma_expr_ok_stable(sigma, x, y, condition);
            lemma_stmt_ok_stable(sigma, inside, x, y, *body);
        },
        StmtView::Function { name, params, body } => {
            let outer = define(declare(sigma, name.lexeme), name.lexeme);
            match params_scopes(outer.push(Map::empty()), params) {
                Some(inner) => {
                    lemma_stmts_ok_stable(inner, FunctionType::Function, x, y, body);
                },
                None => {},
            }
        },
        StmtView::Return { keyword, value } => match value {
            Some(expression) => {
                lemma_expr_ok_stable(sigma, x, y, expression);
            },
            None => {},
        },
        StmtView::Class { name, methods } => {},
    }
}

/// Whether the variables of a list of statements are filed as the rules
/// say does not turn on what the table files under other numbers.
pub proof fn lemma_stmts_ok_stable(
    sigma: Scopes,
    inside: FunctionType,
    x: Map<usize, int>,
    y: Map<usize, int>,
    list: Seq<StmtView>,
)
    requires
        agree(x, y, stmts_ids(list)),
    ensures
        stmts_ok(sigma, inside, x, list) == stmts_ok(sigma, inside, y, list),
    decreases list,
{
    if list.len() > 0 {
        lemma_agree_parts(x, y, stmts_ids(list.drop_last()), stmt_ids(list.last()));
        lemma_stmts_ok_stable(sigma, inside, x, y, list.drop_last());
        match stmts_ok(sigma, inside, x, list.drop_last()) {
            Some(before) => {
                lemma_stmt_ok_stable(before, inside, x, y, list.last());
            },
            None => {},
        }
    }
}

/// The parameters of a function keep the scopes around the scope of the
/// body, and add none.
pub proof fn lemma_params_scopes_outer(sigma: Scopes, params: Seq<TokenView>)
    requires
        params_scopes(sigma, params) is Some,
    ensures
        params_scopes(sigma, params)->0.len() == sigma.len(),
        forall|i: int|
            0 <= i < sigma.len() - 1 ==> #[trigger] params_scopes(sigma, params)->0[i] == sigma[i],
    decreases params.len(),
{
    if params.len() > 0 {
        lemma_params_scopes_outer(sigma, params.drop_last());
    }
}

/// A statement that keeps the rules keeps the scopes around the innermost
/// one, and adds none. A statement that is no declaration keeps all scopes.
pub proof fn lemma_stmt_ok_outer(
    sigma: Scopes,
    inside: FunctionType,
    table: Map<usize, int>,
    stmt: StmtView,
)
    requires
        stmt_ok(sigma, inside, table, stmt) is Some,
    ensures
        stmt_ok(sigma, inside, table, stmt)->0.len() == sigma.len(),
        forall|i: int|
            0 <= i < sigma.len() - 1 ==> #[trigger] stmt_ok(sigma, inside, table, stmt)->0[i]
                == sigma[i],
        plain(stmt) ==> stmt_ok(sigma, inside, table, stmt)->0 == sigma,
{
}

/// A list of statements that keep the rules keeps the scopes around the
/// innermost one, and adds none.
pub proof fn lemma_stmts_ok_outer(
    sigma: Scopes,
    inside: FunctionType,
    table: Map<usize, int>,
    list: Seq<StmtView>,
)
    requires
        stmts_ok(sigma, inside, table, list) is Some,
    ensures
        stmts_ok(sigma, inside, table, list)->0.len() == sigma.len(),
        forall|i: int|
            0 <= i < sigma.len() - 1 ==> #[trigger] stmts_ok(sigma, inside, table, list)->0[i]
                == sigma[i],
    decreases list.len(),
{
    if list.len() > 0 {
        lemma_stmts_ok_outer(sigma, inside, table, list.drop_last());
        lemma_stmt_ok_outer(
            stmts_ok(sigma, inside, table, list.drop_last())->0,
            inside,
            table,
            list.last(),
        );
    }
}


/// Whether a statement has the shape of what the parser reads: the
/// branches of every `if` and the body of every loop are no declarations.
pub open spec fn grammatical(stmt: StmtView) -> bool
    decreases stmt,
{
    match stmt {
        StmtView::If { condition, then_branch, else_branch } => plain(*then_branch) && grammatical(
            *then_branch,
        ) && match else_branch {
            Some(other) => plain(*other) && grammatical(*other),
            None => true,
        },
        StmtView::While { condition, body } => plain(*body) && grammatical(*body),
        StmtView::Block { statements } => all_grammatical(statements),
        StmtView::Function { name, params, body } => all_grammatical(body),
        _ => true,
    }
}

/// Whether every statement of a list has the shape of what the parser
/// reads.
pub open spec fn all_grammatical(list: Seq<StmtView>) -> bool
    decreases list,
{
    list.len() == 0 || (all_grammatical(list.drop_last()) && grammatical(list.last()))
}

/// Whether the resolver `after` is the resolver `before` but for what it
/// has filed under the numbers of a list: it is in or outside of a function
/// as before, and the interpreter is as before but for the table.
pub open spec fn filed(before: Resolution, after: Resolution, ids: Seq<usize>) -> bool {
    &&& after.current_function == before.current_function
    &&& touched(before.interpreter.locals, after.interpreter.locals, ids)
    &&& after.interpreter == (crate::semantics::State {
        locals: after.interpreter.locals,
        ..before.interpreter
    })
}

/// The resolver files the variables of an expression that it resolves as
/// the rules of scoping say, and touches the table under no other number.
pub proof fn lemma_resolve_expr_filed(r: Resolution, e: ExprView)
    requires
        distinct(expr_ids(e)),
        fresh(r.interpreter.locals, expr_ids(e)),
        resolve_expr(r, e).1 is Ok,
    ensures
        resolve_expr(r, e).0.scopes == r.scopes,
        filed(r, resolve_expr(r, e).0, expr_ids(e)),
        expr_ok(r.scopes, resolve_expr(r, e).0.interpreter.locals, e),
    decreases e, 1nat,
{
    let end = resolve_expr(r, e).0;
    match e {
        ExprView::Literal { literal } => {},
        ExprView::Grouping { expression } => {
            lemma_resolve_expr_filed(r, *expression);
        },
        ExprView::Unary { operator, right } => {
            lemma_resolve_expr_filed(r, *right);
        },
        ExprView::Binary { left, operator, right } => {
            lemma_two_filed(r, e, *left, *right);
        },
        ExprView::Logical { left, operator, right } => {
            lemma_two_filed(r, e, *left, *right);
        },
        ExprView::Variable { name, id } => {
            assert(expr_ids(e)[0] == id);
            assert forall|k: usize| !expr_ids(e).contains(k) implies k != id by {
                if k == id {
                    assert(expr_ids(e)[0] == k);
                }
            }
        },
        ExprView::Assign { name, value, id } => {
            let ids = expr_ids(*value);
            lemma_distinct_parts(seq![id], ids);
            lemma_fresh_parts(r.interpreter.locals, seq![id], ids);
            lemma_resolve_expr_filed(r, *value);
            let r1 = resolve_expr(r, *value).0;
            assert(!ids.contains(id)) by {
                if ids.contains(id) {
                    let j = choose|j: int| 0 <= j < ids.len() && ids[j] == id;
                    assert(seq![id][0] != ids[j]);
                }
            }
            assert(touched(r1.interpreter.locals, end.interpreter.locals, seq![id])) by {
                assert forall|k: usize| !seq![id].contains(k) implies k != id by {
                    if k == id {
                        assert(seq![id][0] == k);
                    }
                }
            }
            lemma_untouched(r1.interpreter.locals, end.interpreter.locals, seq![id], ids);
            lemma_expr_ok_stable(r.scopes, r1.interpreter.locals, end.interpreter.locals, *value);
            lemma_touched_on(
                r.interpreter.locals,
                r1.interpreter.locals,
                end.interpreter.locals,
                ids,
                seq![id],
            );
            lemma_touched_turned(
                r.interpreter.locals,
                end.interpreter.locals,
                ids,
                seq![id],
            );
        },
        ExprView::Call { callee, paren, arguments } => {
            lemma_distinct_parts(expr_ids(*callee), exprs_ids(arguments));
            lemma_fresh_parts(r.interpreter.locals, expr_ids(*callee), exprs_ids(arguments));
            lemma_resolve_expr_filed(r, *callee);
            let r1 = resolve_expr(r, *callee).0;
            lemma_untouched(
                r.interpreter.locals,
                r1.interpreter.locals,
                expr_ids(*callee),
                exprs_ids(arguments),
            );
            lemma_resolve_exprs_filed(r1, arguments);
            let r2 = resolve_exprs(r1, arguments).0;
            lemma_untouched(
                r1.interpreter.locals,
                r2.interpreter.locals,
                exprs_ids(arguments),
                expr_ids(*callee),
            );
            lemma_expr_ok_stable(r.scopes, r1.interpreter.locals, r2.interpreter.locals, *callee);
            lemma_touched_on(
                r.interpreter.locals,
                r1.interpreter.locals,
                r2.interpreter.locals,
                expr_ids(*callee),
                exprs_ids(arguments),
            );
        },
        ExprView::Get { object, name } => {
            lemma_resolve_expr_filed(r, *object);
        },
    }
}

/// The resolver files the variables of two expressions that it resolves
/// one after the other as the rules of scoping say.
pub proof fn lemma_two_filed(r: Resolution, e: ExprView, left: ExprView, right: ExprView)
    requires
        e is Binary && *e->Binary_left == left && *e->Binary_right == right || e is Logical
            && *e->Logical_left == left && *e->Logical_right == right,
        distinct(expr_ids(left) + expr_ids(right)),
        fresh(r.interpreter.locals, expr_ids(left) + expr_ids(right)),
        resolve_expr(r, left).1 is Ok,
        resolve_expr(resolve_expr(r, left).0, right).1 is Ok,
    ensures
        ({
            let r1 = resolve_expr(r, left).0;
            let r2 = resolve_expr(r1, right).0;
            &&& r2.scopes == r.scopes
            &&& filed(r, r2, expr_ids(left) + expr_ids(right))
            &&& expr_ok(r.scopes, r2.interpreter.locals, left)
            &&& expr_ok(r.scopes, r2.interpreter.locals, right)
        }),
    decreases e, 0nat,
{
    lemma_distinct_parts(expr_ids(left), expr_ids(right));
    lemma_fresh_parts(r.interpreter.locals, expr_ids(left), expr_ids(right));
    lemma_resolve_expr_filed(r, left);
    let r1 = resolve_expr(r, left).0;
    lemma_untouched(r.interpreter.locals, r1.interpreter.locals, expr_ids(left), expr_ids(right));
    lemma_resolve_expr_filed(r1, right);
    let r2 = resolve_expr(r1, right).0;
    lemma_untouched(r1.interpreter.locals, r2.interpreter.locals, expr_ids(right), expr_ids(left));
    lemma_expr_ok_stable(r.scopes, r1.interpreter.locals, r2.interpreter.locals, left);
    lemma_touched_on(
        r.interpreter.locals,
        r1.interpreter.locals,
        r2.interpreter.locals,
        expr_ids(left),
        expr_ids(right),
    );
}

/// The resolver files the variables of a list of expressions that it
/// resolves as the rules of scoping say.
pub proof fn lemma_resolve_exprs_filed(r: Resolution, list: Seq<ExprView>)
    requires
        distinct(exprs_ids(list)),
        fresh(r.interpreter.locals, exprs_ids(list)),
        resolve_exprs(r, list).1 is Ok,
    ensures
        resolve_exprs(r, list).0.scopes == r.scopes,
        filed(r, resolve_exprs(r, list).0, exprs_ids(list)),
        exprs_ok(r.scopes, resolve_exprs(r, list).0.interpreter.locals, list),
    decreases list, 1nat,
{
    if list.len() > 0 {
        let front = list.drop_last();
        lemma_distinct_parts(exprs_ids(front), expr_ids(list.last()));
        lemma_fresh_parts(r.interpreter.locals, exprs_ids(front), expr_ids(list.last()));
        lemma_resolve_exprs_filed(r, front);
        let r1 = resolve_exprs(r, front).0;
        lemma_untouched(
            r.interpreter.locals,
            r1.interpreter.locals,
            exprs_ids(front),
            expr_ids(list.last()),
        );
        lemma_resolve_expr_filed(r1, list.last());
        let r2 = resolve_expr(r1, list.last()).0;
        lemma_untouched(
            r1.interpreter.locals,
            r2.interpreter.locals,
            expr_ids(list.last()),
            exprs_ids(front),
        );
        lemma_exprs_ok_stable(r.scopes, r1.interpreter.locals, r2.interpreter.locals, front);
        lemma_touched_on(
            r.interpreter.locals,
            r1.interpreter.locals,
            r2.interpreter.locals,
            exprs_ids(front),
            expr_ids(list.last()),
        );
    } else {
        assert(exprs_ids(list) =~= Seq::<usize>::empty());
    }
}

/// The scopes behind the parameters that the resolver has declared are the
/// scopes of the body of the function.
pub proof fn lemma_declare_params_filed(r: Resolution, params: Seq<TokenView>)
    requires
        declare_params(r, params).1 is Ok,
    ensures
        params_scopes(r.scopes, params) == Some(declare_params(r, params).0.scopes),
        declare_params(r, params).0.interpreter == r.interpreter,
        declare_params(r, params).0.current_function == r.current_function,
    decreases params.len(),
{
    if params.len() > 0 {
        lemma_declare_params_filed(r, params.drop_last());
    }
}


/// Lists that share no number share none whichever is named first, and
/// the parts of a list share none with what the list shares none.
pub proof fn lemma_disjoint_turned(a: Seq<usize>, b: Seq<usize>, x: Seq<usize>)
    requires
        disjoint(a + b, x),
    ensures
        disjoint(a, x),
        disjoint(b, x),
        disjoint(x, a),
        disjoint(x, b),
{
    let ab = a + b;
    assert forall|i: int, j: int| 0 <= i < a.len() && 0 <= j < x.len() implies a[i] != x[j] by {
        assert(ab[i] == a[i]);
    }
    assert forall|i: int, j: int| 0 <= i < b.len() && 0 <= j < x.len() implies b[i] != x[j] by {
        assert(ab[a.len() + i] == b[i]);
    }
}

/// The resolver files the variables of a condition and of the statement
/// that it governs as the rules of scoping say.
pub proof fn lemma_governed_filed(r: Resolution, whole: StmtView, condition: ExprView, body: StmtView)
    requires
        whole is If && whole->If_condition == condition && *whole->then_branch == body || whole
            is While && whole->While_condition == condition && *whole->While_body == body,
        distinct(expr_ids(condition) + stmt_ids(body)),
        fresh(r.interpreter.locals, expr_ids(condition) + stmt_ids(body)),
        plain(body),
        grammatical(body),
        resolve_expr(r, condition).1 is Ok,
        resolve_stmt(resolve_expr(r, condition).0, body).1 is Ok,
    ensures
        ({
            let r1 = resolve_expr(r, condition).0;
            let r2 = resolve_stmt(r1, body).0;
            &&& r2.scopes == r.scopes
            &&& filed(r, r2, expr_ids(condition) + stmt_ids(body))
            &&& expr_ok(r.scopes, r2.interpreter.locals, condition)
            &&& stmt_ok(r.scopes, r.current_function, r2.interpreter.locals, body) is Some
        }),
    decreases whole, 0nat,
{
    let c = expr_ids(condition);
    let b = stmt_ids(body);
    lemma_distinct_parts(c, b);
    lemma_fresh_parts(r.interpreter.locals, c, b);
    lemma_resolve_expr_filed(r, condition);
    let r1 = resolve_expr(r, condition).0;
    lemma_untouched(r.interpreter.locals, r1.interpreter.locals, c, b);
    lemma_resolve_stmt_filed(r1, body);
    let r2 = resolve_stmt(r1, body).0;
    lemma_stmt_ok_outer(r.scopes, r.current_function, r2.interpreter.locals, body);
    lemma_untouched(r1.interpreter.locals, r2.interpreter.locals, b, c);
    lemma_expr_ok_stable(r.scopes, r1.interpreter.locals, r2.interpreter.locals, condition);
    lemma_touched_on(r.interpreter.locals, r1.interpreter.locals, r2.interpreter.locals, c, b);
}

/// The resolver files the variables of a statement that it resolves as the
/// rules of scoping say, and touches the table under no other number: the
/// scopes with which it ends are those that the rules give.
pub proof fn lemma_resolve_stmt_filed(r: Resolution, stmt: StmtView)
    requires
        distinct(stmt_ids(stmt)),
        fresh(r.interpreter.locals, stmt_ids(stmt)),
        grammatical(stmt),
        resolve_stmt(r, stmt).1 is Ok,
    ensures
        filed(r, resolve_stmt(r, stmt).0, stmt_ids(stmt)),
        stmt_ok(r.scopes, r.current_function, resolve_stmt(r, stmt).0.interpreter.locals, stmt)
            == Some(resolve_stmt(r, stmt).0.scopes),
    decreases stmt, 1nat,
{
    let end = resolve_stmt(r, stmt).0;
    let sigma = r.scopes;
    match stmt {
        StmtView::Expression { expression } => {
            lemma_resolve_expr_filed(r, expression);
        },
        StmtView::Print { expression } => {
            lemma_resolve_expr_filed(r, expression);
        },
        StmtView::Variable { name, initializer } => {
            let r1 = r.declare(name.lexeme).0;
            match initializer {
                Some(expression) => {
                    lemma_resolve_expr_filed(r1, expression);
                },
                None => {
                    assert(optional_ids(initializer) =~= Seq::<usize>::empty());
                },
            }
        },
        StmtView::Block { statements } => {
            let entered = r.begin_scope();
            lemma_resolve_stmts_filed(entered, statements);
            let r1 = resolve_stmts(entered, statements).0;
            lemma_stmts_ok_outer(
                entered.scopes,
                r.current_function,
                r1.interpreter.locals,
                statements,
            );
            assert(r1.scopes.drop_last() =~= sigma);
        },
        StmtView::If { condition, then_branch, else_branch } => {
            let c = expr_ids(condition);
            let t = stmt_ids(*then_branch);
            let el = match else_branch {
                Some(other) => stmt_ids(*other),
                None => Seq::empty(),
            };
            lemma_distinct_parts(c + t, el);
            lemma_fresh_parts(r.interpreter.locals, c + t, el);
            lemma_governed_filed(r, stmt, condition, *then_branch);
            let r1 = resolve_expr(r, condition).0;
            let r2 = resolve_stmt(r1, *then_branch).0;
            match else_branch {
                Some(other) => {
                    lemma_untouched(r.interpreter.locals, r2.interpreter.locals, c + t, el);
                    lemma_resolve_stmt_filed(r2, *other);
                    let r3 = resolve_stmt(r2, *other).0;
                    lemma_stmt_ok_outer(sigma, r.current_function, r3.interpreter.locals, *other);
                    lemma_disjoint_turned(c, t, el);
                    lemma_untouched(r2.interpreter.locals, r3.interpreter.locals, el, c);
                    lemma_untouched(r2.interpreter.locals, r3.interpreter.locals, el, t);
                    lemma_expr_ok_stable(
                        sigma,
                        r2.interpreter.locals,
                        r3.interpreter.locals,
                        condition,
                    );
                    lemma_stmt_ok_stable(
                        sigma,
                        r.current_function,
                        r2.interpreter.locals,
                        r3.interpreter.locals,
                        *then_branch,
                    );
                    lemma_touched_on(
                        r.interpreter.locals,
                        r2.interpreter.locals,
                        r3.interpreter.locals,
                        c + t,
                        el,
                    );
                },
                None => {
                    assert(c + t + el =~= c + t);
                },
            }
        },
        StmtView::While { condition, body } => {
            lemma_governed_filed(r, stmt, condition, *body);
        },
        StmtView::Function { name, params, body } => {
            let r2 = r.declare(name.lexeme).0.define(name.lexeme);
            let entered = r2.within(FunctionType::Function).begin_scope();
            assert(r.declare(name.lexeme).1 is Ok);
            assert(resolve_stmt(r, stmt) == resolve_function(
                r2,
                params,
                body,
                FunctionType::Function,
            ));
            assert(declare_params(entered, params).1 is Ok);
            lemma_declare_params_filed(entered, params);
            let r4 = declare_params(entered, params).0;
            lemma_params_scopes_outer(entered.scopes, params);
            lemma_resolve_stmts_filed(r4, body);
            let r5 = resolve_stmts(r4, body).0;
            lemma_stmts_ok_outer(
                r4.scopes,
                FunctionType::Function,
                r5.interpreter.locals,
                body,
            );
            assert(r5.scopes.drop_last() =~= r2.scopes);
            assert(end == r5.end_scope().within(r2.current_function));
        },
        StmtView::Return { keyword, value } => match value {
            Some(expression) => {
                lemma_resolve_expr_filed(r, expression);
            },
            None => {
                assert(optional_ids(value) =~= Seq::<usize>::empty());
            },
        },
        StmtView::Class { name, methods } => {},
    }
}

/// The resolver files the variables of a list of statements that it
/// resolves as the rules of scoping say.
pub proof fn lemma_resolve_stmts_filed(r: Resolution, list: Seq<StmtView>)
    requires
        distinct(stmts_ids(list)),
        fresh(r.interpreter.locals, stmts_ids(list)),
        all_grammatical(list),
        resolve_stmts(r, list).1 is Ok,
    ensures
        filed(r, resolve_stmts(r, list).0, stmts_ids(list)),
        stmts_ok(r.scopes, r.current_function, resolve_stmts(r, list).0.interpreter.locals, list)
            == Some(resolve_stmts(r, list).0.scopes),
    decreases list, 1nat,
{
    if list.len() > 0 {
        let front = list.drop_last();
        let f = stmts_ids(front);
        let l = stmt_ids(list.last());
        lemma_distinct_parts(f, l);
        lemma_fresh_parts(r.interpreter.locals, f, l);
        lemma_resolve_stmts_filed(r, front);
        let r1 = resolve_stmts(r, front).0;
        lemma_untouched(r.interpreter.locals, r1.interpreter.locals, f, l);
        lemma_resolve_stmt_filed(r1, list.last());
        let r2 = resolve_stmt(r1, list.last()).0;
        lemma_untouched(r1.interpreter.locals, r2.interpreter.locals, l, f);
        lemma_stmts_ok_stable(
            r.scopes,
            r.current_function,
            r1.interpreter.locals,
            r2.interpreter.locals,
            front,
        );
        lemma_touched_on(r.interpreter.locals, r1.interpreter.locals, r2.interpreter.locals, f, l);
    } else {
        assert(stmts_ids(list) =~= Seq::<usize>::empty());
    }
}


/// Whether the interpreter of the resolver `after` is that of the resolver
/// `before` but for what the table files under the numbers of a list.
pub open spec fn noted(before: Resolution, after: Resolution, ids: Seq<usize>) -> bool {
    &&& touched(before.interpreter.locals, after.interpreter.locals, ids)
    &&& after.interpreter == (crate::semantics::State {
        locals: after.interpreter.locals,
        ..before.interpreter
    })
}

/// What was noted in one step after the other was noted in both.
pub proof fn lemma_noted_on(
    r: Resolution,
    r1: Resolution,
    r2: Resolution,
    a: Seq<usize>,
    b: Seq<usize>,
)
    requires
        noted(r, r1, a),
        noted(r1, r2, b),
    ensures
        noted(r, r2, a + b),
{
    lemma_touched_on(
        r.interpreter.locals,
        r1.interpreter.locals,
        r2.interpreter.locals,
        a,
        b,
    );
}

/// What was noted under some numbers was noted under those and others.
pub proof fn lemma_noted_wider(r: Resolution, r1: Resolution, ids: Seq<usize>, a: Seq<usize>, b: Seq<usize>)
    requires
        noted(r, r1, ids),
    ensures
        noted(r, r1, a + ids),
        noted(r, r1, ids + b),
        noted(r, r1, a + ids + b),
{
    lemma_touched_wider(r.interpreter.locals, r1.interpreter.locals, ids, a, b);
}

/// The resolver, whether it fails or not, touches the table only under the
/// numbers of the expression that it resolves, and leaves the rest of the
/// interpreter as it was.
pub proof fn lemma_resolve_expr_noted(r: Resolution, e: ExprView)
    ensures
        noted(r, resolve_expr(r, e).0, expr_ids(e)),
    decreases e,
{
    let end = resolve_expr(r, e).0;
    match e {
        ExprView::Literal { literal } => {},
        ExprView::Grouping { expression } => {
            lemma_resolve_expr_noted(r, *expression);
        },
        ExprView::Unary { operator, right } => {
            lemma_resolve_expr_noted(r, *right);
        },
        ExprView::Binary { left, operator, right } => {
            lemma_resolve_expr_noted(r, *left);
            let r1 = resolve_expr(r, *left).0;
            lemma_resolve_expr_noted(r1, *right);
            lemma_noted_on(r, r1, resolve_expr(r1, *right).0, expr_ids(*left), expr_ids(*right));
            lemma_noted_wider(r, r1, expr_ids(*left), Seq::empty(), expr_ids(*right));
        },
        ExprView::Logical { left, operator, right } => {
            lemma_resolve_expr_noted(r, *left);
            let r1 = resolve_expr(r, *left).0;
            lemma_resolve_expr_noted(r1, *right);
            lemma_noted_on(r, r1, resolve_expr(r1, *right).0, expr_ids(*left), expr_ids(*right));
            lemma_noted_wider(r, r1, expr_ids(*left), Seq::empty(), expr_ids(*right));
        },
        ExprView::Variable { name, id } => {
            assert forall|k: usize| !expr_ids(e).contains(k) implies k != id by {
                if k == id {
                    assert(expr_ids(e)[0] == k);
                }
            }
        },
        ExprView::Assign { name, value, id } => {
            lemma_resolve_expr_noted(r, *value);
            let r1 = resolve_expr(r, *value).0;
            lemma_noted_wider(r, r1, expr_ids(*value), seq![id], Seq::empty());
            assert(touched(r1.interpreter.locals, end.interpreter.locals, seq![id])) by {
                assert forall|k: usize| !seq![id].contains(k) implies k != id by {
                    if k == id {
                        assert(seq![id][0] == k);
                    }
                }
            }
            lemma_touched_on(
                r.interpreter.locals,
                r1.interpreter.locals,
                end.interpreter.locals,
                expr_ids(*value),
                seq![id],
            );
            lemma_touched_turned(
                r.interpreter.locals,
                end.interpreter.locals,
                expr_ids(*value),
                seq![id],
            );
        },
        ExprView::Call { callee, paren, arguments } => {
            lemma_resolve_expr_noted(r, *callee);
            let r1 = resolve_expr(r, *callee).0;
            lemma_resolve_exprs_noted(r1, arguments);
            lemma_noted_on(
                r,
                r1,
                resolve_exprs(r1, arguments).0,
                expr_ids(*callee),
                exprs_ids(arguments),
            );
            lemma_noted_wider(r, r1, expr_ids(*callee), Seq::empty(), exprs_ids(arguments));
        },
        ExprView::Get { object, name } => {
            lemma_resolve_expr_noted(r, *object);
        },
    }
}

/// The resolver touches the table only under the numbers of the list of
/// expressions that it resolves.
pub proof fn lemma_resolve_exprs_noted(r: Resolution, list: Seq<ExprView>)
    ensures
        noted(r, resolve_exprs(r, list).0, exprs_ids(list)),
    decreases list,
{
    if list.len() > 0 {
        let front = list.drop_last();
        lemma_resolve_exprs_noted(r, front);
        let r1 = resolve_exprs(r, front).0;
        lemma_resolve_expr_noted(r1, list.last());
        lemma_noted_on(
            r,
            r1,
            resolve_expr(r1, list.last()).0,
            exprs_ids(front),
            expr_ids(list.last()),
        );
        lemma_noted_wider(r, r1, exprs_ids(front), Seq::empty(), expr_ids(list.last()));
    }
}

/// The resolver does not touch the interpreter when it declares parameters.
pub proof fn lemma_declare_params_noted(r: Resolution, params: Seq<TokenView>)
    ensures
        declare_params(r, params).0.interpreter == r.interpreter,
    decreases params.len(),
{
    if params.len() > 0 {
        lemma_declare_params_noted(r, params.drop_last());
    }
}

/// The resolver, whether it fails or not, touches the table only under the
/// numbers of the statement that it resolves, and leaves the rest of the
/// interpreter as it was.
pub proof fn lemma_resolve_stmt_noted(r: Resolution, stmt: StmtView)
    ensures
        noted(r, resolve_stmt(r, stmt).0, stmt_ids(stmt)),
    decreases stmt,
{
    let end = resolve_stmt(r, stmt).0;
    match stmt {
        StmtView::Expression { expression } => {
            lemma_resolve_expr_noted(r, expression);
        },
        StmtView::Print { expression } => {
            lemma_resolve_expr_noted(r, expression);
        },
        StmtView::Variable { name, initializer } => {
            let r1 = r.declare(name.lexeme).0;
            match initializer {
                Some(expression) => {
                    lemma_resolve_expr_noted(r1, expression);
                },
                None => {},
            }
        },
        StmtView::Block { statements } => {
            lemma_resolve_stmts_noted(r.begin_scope(), statements);
        },
        StmtView::If { condition, then_branch, else_branch } => {
            let c = expr_ids(condition);
            let t = stmt_ids(*then_branch);
            let el = match else_branch {
                Some(other) => stmt_ids(*other),
                None => Seq::empty(),
            };
            lemma_resolve_expr_noted(r, condition);
            let r1 = resolve_expr(r, condition).0;
            lemma_noted_wider(r, r1, c, Seq::empty(), t);
            lemma_noted_wider(r, r1, c + t, Seq::empty(), el);
            lemma_resolve_stmt_noted(r1, *then_branch);
            let r2 = resolve_stmt(r1, *then_branch).0;
            lemma_noted_on(r, r1, r2, c, t);
            lemma_noted_wider(r, r2, c + t, Seq::empty(), el);
            match else_branch {
                Some(other) => {
                    lemma_resolve_stmt_noted(r2, *other);
                    lemma_noted_on(r, r2, resolve_stmt(r2, *other).0, c + t, el);
                },
                None => {},
            }
        },
        StmtView::While { condition, body } => {
            lemma_resolve_expr_noted(r, condition);
            let r1 = resolve_expr(r, condition).0;
            lemma_noted_wider(r, r1, expr_ids(condition), Seq::empty(), stmt_ids(*body));
            lemma_resolve_stmt_noted(r1, *body);
            lemma_noted_on(
                r,
                r1,
                resolve_stmt(r1, *body).0,
                expr_ids(condition),
                stmt_ids(*body),
            );
        },
        StmtView::Function { name, params, body } => {
            let r2 = r.declare(name.lexeme).0.define(name.lexeme);
            let entered = r2.within(FunctionType::Function).begin_scope();
            lemma_declare_params_noted(entered, params);
            let r4 = declare_params(entered, params).0;
            lemma_resolve_stmts_noted(r4, body);
            if r.declare(name.lexeme).1 is Ok {
                assert(end == resolve_function(r2, params, body, FunctionType::Function).0);
            }
        },
        StmtView::Return { keyword, value } => match value {
            Some(expression) => {
                lemma_resolve_expr_noted(r, expression);
            },
            None => {},
        },
        StmtView::Class { name, methods } => {},
    }
}

/// The resolver touches the table only under the numbers of the list of
/// statements that it resolves.
pub proof fn lemma_resolve_stmts_noted(r: Resolution, list: Seq<StmtView>)
    ensures
        noted(r, resolve_stmts(r, list).0, stmts_ids(list)),
    decreases list,
{
    if list.len() > 0 {
        let front = list.drop_last();
        lemma_resolve_stmts_noted(r, front);
        let r1 = resolve_stmts(r, front).0;
        lemma_resolve_stmt_noted(r1, list.last());
        lemma_noted_on(
            r,
            r1,
            resolve_stmt(r1, list.last()).0,
            stmts_ids(front),
            stmt_ids(list.last()),
        );
        lemma_noted_wider(r, r1, stmts_ids(front), Seq::empty(), stmt_ids(list.last()));
    }
}

} // verus!
