//! Programs that the resolver has accepted find every variable where it was
//! filed, and leave the interpreter fit for the next program.

use crate::expression::ExprView;
use crate::filing::{
    distinct, lemma_resolve_stmts_filed, lemma_resolve_stmts_noted, lemma_stmts_ok_stable, touched,
};
use crate::grammar::program;
use crate::interpreter::Signal;
use crate::invariants::{
    keeps, lemma_eval_keeps, lemma_exec_all_keeps, lemma_kept_is_well_formed, lemma_print_keeps,
};
use crate::laws::lemma_scan_ends_with_end_token;
use crate::lox::{msg_too_many_nodes, scan, scan_errors, LoxView};
use crate::lox_error::LoxErrorView;
use crate::numbering::{countable, lemma_program_is_numbered, numbered, stmts_ids};
use crate::object::value_text;
use crate::resolver::{
    declare_params, resolve_expr, resolve_exprs, resolve_function, resolve_stmt, resolve_stmts,
    FunctionType, Resolution,
};
use crate::semantics::{eval, exec_all, interpret, CallableView, State};
use crate::shape::lemma_program_shape;
use crate::soundness::{
    escapes, function_ok, functions_ok, lemma_eval_sound, lemma_exec_all_sound,
    lemma_functions_kept, lemma_kept_extends, params_scopes, stmt_ok, stmts_ok, unbound, Scopes,
};
use crate::statement::StmtView;
use crate::token::TokenView;
use vstd::prelude::*;

verus! {

/// Whether an interpreter is fit to run a program whose nodes are numbered
/// from `bound` on: it is well formed, every function of it was declared at
/// a place whose scopes its chain of scopes fits, and its table files only
/// numbers less than `bound`.
pub open spec fn fit(s: State, bound: int) -> bool {
    &&& s.wf()
    &&& functions_ok(s, bound)
    &&& forall|k: usize| s.locals.dom().contains(k) ==> k < bound
}

/// Whether every error of `after` behind those of `before` is an error of
/// the program, and none the error of a name that is not bound where it
/// was filed.
pub open spec fn adds_no_binding_error(before: Seq<LoxErrorView>, after: Seq<LoxErrorView>) -> bool {
    &&& before.len() <= after.len()
    &&& forall|i: int| 0 <= i < before.len() ==> after[i] == before[i]
    &&& forall|i: int| before.len() <= i < after.len() ==> after[i] is RuntimeError
}

/// Whether a result is neither the error of a name that is not bound where
/// it was filed nor a `return` that leaves what has run.
pub open spec fn binds<T>(r: Result<T, Signal>) -> bool {
    !unbound(r) && !escapes(r)
}

/// A new interpreter is fit for programs numbered from any number on.
pub proof fn lemma_initial_is_fit(bound: int)
    requires
        0 <= bound,
    ensures
        fit(State::initial(), bound),
{
    reveal(functions_ok);
}

/// An interpreter stays fit when the resolver files numbers from `bound` on
/// in its table, for programs numbered from a later number on.
pub proof fn lemma_fit_when_filed(
    s: State,
    locals: Map<usize, int>,
    ids: Seq<usize>,
    bound: int,
    wider: int,
)
    requires
        fit(s, bound),
        touched(s.locals, locals, ids),
        forall|j: int| 0 <= j < ids.len() ==> bound <= #[trigger] ids[j] < wider,
        bound <= wider,
    ensures
        fit((State { locals, ..s }), wider),
{
    reveal(functions_ok);
    let after = State { locals, ..s };
    assert forall|i: int| 0 <= i < after.functions.len() implies (
    #[trigger] after.functions[i] matches CallableView::Function(f) ==> exists|sigma: Scopes|
        function_ok(after, f, sigma, wider)) by {
        match after.functions[i] {
            CallableView::Function(f) => {
                let sigma = choose|sigma: Scopes| function_ok(s, f, sigma, bound);
                let inner = params_scopes(sigma.push(Map::empty()), f.params)->0;
                let body = stmts_ids(f.body);
                assert forall|j: int| 0 <= j < body.len() implies !ids.contains(
                    #[trigger] body[j],
                ) by {
                    if ids.contains(body[j]) {
                        let k = choose|k: int| 0 <= k < ids.len() && ids[k] == body[j];
                        assert(bound <= ids[k]);
                    }
                }
                lemma_stmts_ok_stable(inner, FunctionType::Function, s.locals, locals, f.body);
                assert(function_ok(after, f, sigma, wider));
            },
            CallableView::Clock => {},
        }
    }
    assert forall|k: usize| locals.dom().contains(k) implies k < wider by {
        if ids.contains(k) {
            let j = choose|j: int| 0 <= j < ids.len() && ids[j] == k;
            assert(ids[j] < wider);
        }
    }
}

/// Whether a result of the resolver that is a failure is a runtime error.
pub open spec fn refusal(done: Result<(), Signal>) -> bool {
    done matches Err(x) ==> x matches Signal::Error(LoxErrorView::RuntimeError(_))
}

/// Where the resolver fails on an expression, it fails with a runtime
/// error.
pub proof fn lemma_resolve_expr_refuses(r: Resolution, e: ExprView)
    ensures
        refusal(resolve_expr(r, e).1),
    decreases e,
{
    match e {
        ExprView::Literal { literal } => {},
        ExprView::Grouping { expression } => {
            lemma_resolve_expr_refuses(r, *expression);
        },
        ExprView::Unary { operator, right } => {
            lemma_resolve_expr_refuses(r, *right);
        },
        ExprView::Binary { left, operator, right } => {
            lemma_resolve_expr_refuses(r, *left);
            lemma_resolve_expr_refuses(resolve_expr(r, *left).0, *right);
        },
        ExprView::Logical { left, operator, right } => {
            lemma_resolve_expr_refuses(r, *left);
            lemma_resolve_expr_refuses(resolve_expr(r, *left).0, *right);
        },
        ExprView::Variable { name, id } => {},
        ExprView::Assign { name, value, id } => {
            lemma_resolve_expr_refuses(r, *value);
        },
        ExprView::Call { callee, paren, arguments } => {
            lemma_resolve_expr_refuses(r, *callee);
            lemma_resolve_exprs_refuses(resolve_expr(r, *callee).0, arguments);
        },
        ExprView::Get { object, name } => {
            lemma_resolve_expr_refuses(r, *object);
        },
    }
}

/// Where the resolver fails on a list of expressions, it fails with a
/// runtime error.
pub proof fn lemma_resolve_exprs_refuses(r: Resolution, list: Seq<ExprView>)
    ensures
        refusal(resolve_exprs(r, list).1),
    decreases list,
{
    if list.len() > 0 {
        lemma_resolve_exprs_refuses(r, list.drop_last());
        lemma_resolve_expr_refuses(resolve_exprs(r, list.drop_last()).0, list.last());
    }
}

/// Where the resolver fails on the parameters of a function, it fails with
/// a runtime error.
pub proof fn lemma_declare_params_refuses(r: Resolution, params: Seq<TokenView>)
    ensures
        refusal(declare_params(r, params).1),
    decreases params.len(),
{
    if params.len() > 0 {
        lemma_declare_params_refuses(r, params.drop_last());
    }
}

/// Where the resolver fails on a statement, it fails with a runtime error.
pub proof fn lemma_resolve_stmt_refuses(r: Resolution, stmt: StmtView)
    ensures
        refusal(resolve_stmt(r, stmt).1),
    decreases stmt,
{
    match stmt {
        StmtView::Expression { expression } => {
            lemma_resolve_expr_refuses(r, expression);
        },
        StmtView::Print { expression } => {
            lemma_resolve_expr_refuses(r, expression);
        },
        StmtView::Variable { name, initializer } => {
            match initializer {
                Some(expression) => {
                    lemma_resolve_expr_refuses(r.declare(name.lexeme).0, expression);
                },
                None => {},
            }
        },
        StmtView::Block { statements } => {
            lemma_resolve_stmts_refuses(r.begin_scope(), statements);
        },
        StmtView::If { condition, then_branch, else_branch } => {
            lemma_resolve_expr_refuses(r, condition);
            let r1 = resolve_expr(r, condition).0;
            lemma_resolve_stmt_refuses(r1, *then_branch);
            match else_branch {
                Some(other) => {
                    lemma_resolve_stmt_refuses(resolve_stmt(r1, *then_branch).0, *other);
                },
                None => {},
            }
        },
        StmtView::While { condition, body } => {
            lemma_resolve_expr_refuses(r, condition);
            lemma_resolve_stmt_refuses(resolve_expr(r, condition).0, *body);
        },
        StmtView::Function { name, params, body } => {
            let r2 = r.declare(name.lexeme).0.define(name.lexeme);
            let entered = r2.within(FunctionType::Function).begin_scope();
            lemma_declare_params_refuses(entered, params);
            lemma_resolve_stmts_refuses(declare_params(entered, params).0, body);
            if r.declare(name.lexeme).1 is Ok {
                assert(resolve_stmt(r, stmt) == resolve_function(
                    r2,
                    params,
                    body,
                    FunctionType::Function,
                ));
            }
        },
        StmtView::Return { keyword, value } => match value {
            Some(expression) => {
                lemma_resolve_expr_refuses(r, expression);
            },
            None => {},
        },
        StmtView::Class { name, methods } => {},
    }
}

/// Where the resolver fails on a list of statements, it fails with a
/// runtime error.
pub proof fn lemma_resolve_stmts_refuses(r: Resolution, list: Seq<StmtView>)
    ensures
        refusal(resolve_stmts(r, list).1),
    decreases list,
{
    if list.len() > 0 {
        lemma_resolve_stmts_refuses(r, list.drop_last());
        lemma_resolve_stmt_refuses(resolve_stmts(r, list.drop_last()).0, list.last());
    }
}

/// A program that the resolver has accepted finds every variable.
///
/// The program was read from a list of tokens and numbered from `bound`
/// on, for an interpreter that is fit for such a program. If the resolver
/// accepts it at the top level, the run of its statements fails neither
/// with the error of a name that is not bound where it was filed nor with a
/// `return` that reaches the top level, and the interpreter is fit for a
/// program that is numbered from behind the tokens on. If the resolver
/// refuses it, the interpreter is fit for such a program too.
pub proof fn lemma_accepted_program_binds(depth: nat, s: State, t: Seq<TokenView>, bound: int)
    requires
        fit(s, bound),
        countable(t, bound),
    ensures
        program(t, bound, 0, Seq::empty()) matches Ok((list, p)) ==> {
            let r = Resolution {
                interpreter: s,
                scopes: Seq::empty(),
                current_function: FunctionType::TopLevel,
                globals: Map::empty(),
            };
            let (resolved, done) = resolve_stmts(r, list);
            &&& fit(resolved.interpreter, bound + t.len())
            &&& done is Ok ==> {
                &&& fit(exec_all(depth, resolved.interpreter, list).0, bound + t.len())
                &&& binds(interpret(depth, resolved.interpreter, list).1)
                &&& list.len() == 1 && list[0] is Expression ==> {
                    let (s1, v) = eval(depth, resolved.interpreter, list[0]->Expression_expression);
                    &&& fit(s1, bound + t.len())
                    &&& binds(v)
                }
            }
        },
{
    match program(t, bound, 0, Seq::empty()) {
        Ok((list, p)) => {
            let wider = bound + t.len();
            let ids = stmts_ids(list);
            let r = Resolution {
                interpreter: s,
                scopes: Seq::empty(),
                current_function: FunctionType::TopLevel,
                globals: Map::empty(),
            };
            let (resolved, done) = resolve_stmts(r, list);
            lemma_program_is_numbered(t, bound);
            assert(distinct(ids) && (forall|j: int|
                0 <= j < ids.len() ==> bound <= #[trigger] ids[j] < wider)) by {
                reveal(numbered);
            }
            lemma_program_shape(t, bound, 0, Seq::empty());
            lemma_resolve_stmts_noted(r, list);
            lemma_fit_when_filed(s, resolved.interpreter.locals, ids, bound, wider);
            let s0 = resolved.interpreter;
            if done is Ok {
                lemma_resolve_stmts_filed(r, list);
                let sigma: Scopes = Seq::empty();
                lemma_exec_all_sound(depth, s0, sigma, FunctionType::TopLevel, list, wider);
                lemma_exec_all_keeps(depth, s0, list);
                let s1 = exec_all(depth, s0, list).0;
                lemma_kept_is_well_formed(s0, s1);
                assert(s1.locals == s0.locals) by {
                    reveal(keeps);
                }
                if list.len() == 1 && list[0] is Expression {
                    let e = list[0]->Expression_expression;
                    assert(stmts_ok(sigma, FunctionType::TopLevel, s0.locals, list.drop_last())
                        == Some(sigma));
                    assert(stmts_ok(sigma, FunctionType::TopLevel, s0.locals, list) == stmt_ok(
                        sigma,
                        FunctionType::TopLevel,
                        s0.locals,
                        list[0],
                    ));
                    lemma_eval_sound(depth, s0, sigma, e, wider);
                    lemma_eval_keeps(depth, s0, e);
                    let s2 = eval(depth, s0, e).0;
                    lemma_kept_is_well_formed(s0, s2);
                    assert(s2.locals == s0.locals) by {
                        reveal(keeps);
                    }
                }
            }
        },
        Err(_) => {},
    }
}

/// The front stays fit, and no run adds a binding error.
///
/// If the interpreter of the front is fit for a program numbered from the
/// next number on, it is so after every text that the front has run. Every
/// error that the run notes is a runtime error: none is the error of a name
/// that is not bound where it was filed, or of a `return` that reaches the
/// top level.
pub proof fn lemma_run_stays_fit(l: LoxView, depth: nat, source: Seq<char>)
    requires
        fit(l.interpreter, l.next_id as int),
    ensures
        fit(l.run(depth, source).interpreter, l.run(depth, source).next_id as int),
        adds_no_binding_error(l.errors, l.run(depth, source).errors),
{
    let end = l.run(depth, source);
    if source.len() < usize::MAX {
        let t = scan(source).tokens;
        lemma_scan_ends_with_end_token(source);
        let noted = LoxView { errors: l.errors + scan_errors(scan(source).errors), ..l };
        if l.next_id + t.len() <= usize::MAX {
            let bound = l.next_id as int;
            let wider = bound + t.len();
            let counted = LoxView { next_id: (l.next_id + t.len()) as usize, ..noted };
            lemma_accepted_program_binds(depth, l.interpreter, t, bound);
            lemma_program_is_numbered(t, bound);
            match program(t, bound, 0, Seq::empty()) {
                Ok((list, p)) => {
                    let (resolved, done) = counted.resolve(list);
                    match done {
                        Ok(_) => {
                            if list.len() == 1 && list[0] is Expression {
                                let (s1, v) = eval(
                                    depth,
                                    resolved.interpreter,
                                    list[0]->Expression_expression,
                                );
                                match v {
                                    Ok(shown) => {
                                        lemma_fit_when_printed(s1, value_text(shown), wider);
                                    },
                                    Err(x) => {
                                        lemma_one_more(noted.errors, x);
                                    },
                                }
                            } else {
                                let (s1, v) = interpret(depth, resolved.interpreter, list);
                                match v {
                                    Ok(_) => {},
                                    Err(x) => {
                                        lemma_one_more(noted.errors, x);
                                    },
                                }
                            }
                        },
                        Err(Signal::Error(e)) => {
                            lemma_resolve_stmts_refuses(
                                Resolution {
                                    interpreter: l.interpreter,
                                    scopes: Seq::empty(),
                                    current_function: FunctionType::TopLevel,
                                    globals: Map::empty(),
                                },
                                list,
                            );
                            lemma_one_more(noted.errors, Signal::Error(e));
                        },
                        Err(_) => {},
                    }
                },
                Err((e, _)) => {
                    lemma_fit_when_filed(
                        l.interpreter,
                        l.interpreter.locals,
                        Seq::empty(),
                        bound,
                        wider,
                    );
                    lemma_one_more(noted.errors, Signal::Error(e));
                },
            }
        } else {
            lemma_one_more(
                noted.errors,
                Signal::Error(LoxErrorView::RuntimeError(msg_too_many_nodes())),
            );
        }
        lemma_adds_on(l.errors, noted.errors, end.errors);
    }
}

/// What two runs add one after the other holds no binding error if what
/// each adds holds none.
pub proof fn lemma_adds_on(
    first: Seq<LoxErrorView>,
    second: Seq<LoxErrorView>,
    third: Seq<LoxErrorView>,
)
    requires
        adds_no_binding_error(first, second),
        adds_no_binding_error(second, third),
    ensures
        adds_no_binding_error(first, third),
{
}

/// The errors behind a run that failed in the program add no binding
/// error to those before it.
pub proof fn lemma_one_more(errors: Seq<LoxErrorView>, x: Signal)
    requires
        binds(Err::<(), Signal>(x)),
    ensures
        adds_no_binding_error(
            errors,
            match x {
                Signal::Error(e) => errors.push(e),
                _ => errors,
            },
        ),
{
}

/// An interpreter stays fit when its clock is set.
pub proof fn lemma_fit_when_clock_set(s: State, clock: i32, bound: int)
    requires
        fit(s, bound),
    ensures
        fit((State { clock, ..s }), bound),
{
    lemma_functions_kept(s, State { clock, ..s }, bound);
}

/// An interpreter stays fit when it prints a line.
pub proof fn lemma_fit_when_printed(s: State, line: Seq<char>, bound: int)
    requires
        fit(s, bound),
    ensures
        fit(s.print(line), bound),
{
    lemma_print_keeps(s, line);
    lemma_kept_is_well_formed(s, s.print(line));
    lemma_kept_extends(s, s.print(line));
    lemma_functions_kept(s, s.print(line), bound);
}

} // verus!
