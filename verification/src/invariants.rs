//! What every run of a program keeps of the state in which it starts.

use crate::environment::EnvironmentView;
use crate::expression::ExprView;
use crate::semantics::{
    bind_params, eval, eval_all, exec, exec_all, exec_while, CallableView, FunctionView, State,
};
use crate::statement::StmtView;
use crate::token::TokenView;
use vstd::prelude::*;

verus! {

/// Whether the state `after` has kept what a run must keep of the state
/// `before`.
///
/// The state is well formed and stands in the same scope. Every scope is
/// still there, lies in the scope in which it lay, and binds every name
/// that it bound. The table of the resolver, the clock and the limit of
/// loops are the same. Every callable is still at its place, and every line
/// that was printed is still there, with those printed since behind it.
#[verifier::opaque]
pub open spec fn keeps(before: State, after: State) -> bool {
    &&& after.wf()
    &&& after.environment.current == before.environment.current
    &&& before.environment.scopes.len() <= after.environment.scopes.len()
    &&& forall|i: int|
        0 <= i < before.environment.scopes.len() ==> (#[trigger] after.environment.scopes[i]).enclosing
            == before.environment.scopes[i].enclosing
    &&& forall|i: int, name: Seq<char>|
        0 <= i < before.environment.scopes.len()
            && before.environment.scopes[i].values.dom().contains(name)
            ==> #[trigger] after.environment.scopes[i].values.dom().contains(name)
    &&& after.locals == before.locals
    &&& after.clock == before.clock
    &&& after.loop_limit == before.loop_limit
    &&& before.functions.len() <= after.functions.len()
    &&& forall|i: int|
        0 <= i < before.functions.len() ==> #[trigger] after.functions[i] == before.functions[i]
    &&& before.output.len() <= after.output.len()
    &&& forall|i: int| 0 <= i < before.output.len() ==> #[trigger] after.output[i] == before.output[i]
}

/// A well-formed state keeps itself.
pub proof fn lemma_keeps_itself(s: State)
    requires
        s.wf(),
    ensures
        keeps(s, s),
{
    reveal(keeps);
}

/// What is kept through two runs, one after the other, is kept through
/// both.
pub proof fn lemma_keeps_on(a: State, b: State, c: State)
    requires
        keeps(a, b),
        keeps(b, c),
    ensures
        keeps(a, c),
{
    reveal(keeps);
    assert forall|i: int, name: Seq<char>|
        0 <= i < a.environment.scopes.len() && a.environment.scopes[i].values.dom().contains(
            name,
        ) implies #[trigger] c.environment.scopes[i].values.dom().contains(name) by {
        assert(b.environment.scopes[i].values.dom().contains(name));
    }
    assert forall|i: int| 0 <= i < a.environment.scopes.len() implies (
    #[trigger] c.environment.scopes[i]).enclosing == a.environment.scopes[i].enclosing by {
        assert(b.environment.scopes[i].enclosing == a.environment.scopes[i].enclosing);
    }
    assert forall|i: int| 0 <= i < a.functions.len() implies #[trigger] c.functions[i]
        == a.functions[i] by {
        assert(b.functions[i] == a.functions[i]);
    }
    assert forall|i: int| 0 <= i < a.output.len() implies #[trigger] c.output[i] == a.output[i] by {
        assert(b.output[i] == a.output[i]);
    }
}

/// A binding in a scope that exists keeps the state.
pub proof fn lemma_bind_keeps(s: State, scope: int, name: Seq<char>, value: crate::object::Value)
    requires
        s.wf(),
        0 <= scope < s.environment.scopes.len(),
    ensures
        keeps(s, s.with_environment(s.environment.bind(scope, name, value))),
{
    reveal(keeps);
    let after = s.with_environment(s.environment.bind(scope, name, value));
    assert forall|i: int| 0 < i < after.environment.scopes.len() implies (
    #[trigger] after.environment.scopes[i]).enclosing is Some && 0
        <= after.environment.scopes[i].enclosing->0 < i by {
        assert(s.environment.scopes[i].enclosing is Some);
    }
}

/// A line more keeps the state.
pub proof fn lemma_print_keeps(s: State, line: Seq<char>)
    requires
        s.wf(),
    ensures
        keeps(s, s.print(line)),
{
    reveal(keeps);
}

/// The declaration of a function keeps the state.
pub proof fn lemma_declare_keeps(
    s: State,
    name: TokenView,
    params: Seq<TokenView>,
    body: Seq<StmtView>,
)
    requires
        s.wf(),
    ensures
        keeps(s, s.declare(name, params, body)),
{
    reveal(keeps);
    let after = s.declare(name, params, body);
    assert forall|i: int| 0 < i < after.environment.scopes.len() implies (
    #[trigger] after.environment.scopes[i]).enclosing is Some && 0
        <= after.environment.scopes[i].enclosing->0 < i by {
        assert(s.environment.scopes[i].enclosing is Some);
    }
    assert forall|i: int| 0 <= i < after.functions.len() implies (
    #[trigger] after.functions[i] matches CallableView::Function(f) ==> 0 <= f.closure
        < after.environment.scopes.len()) by {
        if i < s.functions.len() {
            assert(after.functions[i] == s.functions[i]);
        }
    }
}

/// An assignment keeps the state, whether it finds the name or not.
pub proof fn lemma_store_keeps(s: State, name: Seq<char>, yielded: Result<
    crate::object::Value,
    crate::interpreter::Signal,
>)
    requires
        s.wf(),
    ensures
        keeps(s, s.store(name, yielded).0),
{
    lemma_keeps_itself(s);
    match yielded {
        Ok(v) => {
            match crate::environment::owner(s.environment.scopes, s.environment.current, name) {
                Some(scope) => {
                    lemma_owner_exists(s.environment, s.environment.current, name);
                    lemma_bind_keeps(s, scope, name, v);
                },
                None => {},
            }
        },
        Err(_) => {},
    }
}

/// The scope that binds a name for an assignment exists.
pub proof fn lemma_owner_exists(environment: EnvironmentView, start: int, name: Seq<char>)
    ensures
        crate::environment::owner(environment.scopes, start, name) matches Some(scope) ==> 0
            <= scope < environment.scopes.len(),
    decreases start,
{
    if 0 <= start < environment.scopes.len() && !environment.scopes[start].values.dom().contains(
        name,
    ) {
        match environment.scopes[start].enclosing {
            Some(p) => {
                if 0 <= p < start {
                    lemma_owner_exists(environment, p, name);
                }
            },
            None => {},
        }
    }
}

/// The state at the start of a block or of the body of a function: it is
/// well formed, and when the run from it is over and the program stands
/// again in the scope of the caller, everything of the state before is
/// kept.
pub proof fn lemma_scope_left(s: State, parent: int, entered: State, after: State)
    requires
        s.wf(),
        0 <= parent < s.environment.scopes.len(),
        keeps(s.with_environment(s.environment.child_of(parent).at(s.environment.scopes.len() as int)), entered),
        keeps(entered, after),
    ensures
        keeps(s, after.at(s.environment.current)),
{
    reveal(keeps);
    let scope = s.environment.scopes.len() as int;
    let first = s.with_environment(s.environment.child_of(parent).at(scope));
    lemma_keeps_on(first, entered, after);
    let left = after.at(s.environment.current);
    assert forall|i: int| 0 <= i < s.environment.scopes.len() implies (
    #[trigger] left.environment.scopes[i]).enclosing == s.environment.scopes[i].enclosing by {
        assert(first.environment.scopes[i] == s.environment.scopes[i]);
    }
    assert forall|i: int, name: Seq<char>|
        0 <= i < s.environment.scopes.len() && s.environment.scopes[i].values.dom().contains(
            name,
        ) implies #[trigger] left.environment.scopes[i].values.dom().contains(name) by {
        assert(first.environment.scopes[i] == s.environment.scopes[i]);
    }
}

/// A new scope inside a scope that exists leaves the state well formed, with
/// the new scope as the current one.
pub proof fn lemma_scope_entered(s: State, parent: int)
    requires
        s.wf(),
        0 <= parent < s.environment.scopes.len(),
    ensures
        s.with_environment(
            s.environment.child_of(parent).at(s.environment.scopes.len() as int),
        ).wf(),
{
    let scope = s.environment.scopes.len() as int;
    let entered = s.with_environment(s.environment.child_of(parent).at(scope));
    assert forall|i: int| 0 < i < entered.environment.scopes.len() implies (
    #[trigger] entered.environment.scopes[i]).enclosing is Some && 0
        <= entered.environment.scopes[i].enclosing->0 < i by {
        if i < s.environment.scopes.len() {
            assert(s.environment.scopes[i].enclosing is Some);
        }
    }
    assert forall|i: int| 0 <= i < entered.functions.len() implies (
    #[trigger] entered.functions[i] matches CallableView::Function(f) ==> 0 <= f.closure
        < entered.environment.scopes.len()) by {
        assert(entered.functions[i] == s.functions[i]);
    }
}

/// The binding of parameters keeps the state.
pub proof fn lemma_params_keep(s: State, params: Seq<TokenView>, arguments: Seq<
    crate::object::Value,
>)
    requires
        s.wf(),
    ensures
        keeps(s, s.with_environment(bind_params(s.environment, params, arguments))),
    decreases params.len(),
{
    if params.len() == 0 || arguments.len() < params.len() {
        lemma_keeps_itself(s);
        assert(s.with_environment(s.environment) == s);
    } else {
        lemma_params_keep(s, params.drop_last(), arguments);
        let bound = s.with_environment(bind_params(s.environment, params.drop_last(), arguments));
        assert(bound.wf() && bound.environment.current == s.environment.current) by {
            reveal(keeps);
        }
        lemma_bind_keeps(
            bound,
            bound.environment.current,
            params.last().lexeme,
            arguments[params.len() - 1],
        );
        lemma_keeps_on(
            s,
            bound,
            bound.with_environment(
                bound.environment.bind(
                    bound.environment.current,
                    params.last().lexeme,
                    arguments[params.len() - 1],
                ),
            ),
        );
    }
}


/// What is kept is well formed, and allows loops as many rounds.
pub proof fn lemma_kept_is_well_formed(before: State, after: State)
    requires
        keeps(before, after),
    ensures
        after.wf(),
        after.loop_limit == before.loop_limit,
        after.environment.current == before.environment.current,
{
    reveal(keeps);
}

/// The evaluation of an expression keeps the state: it ends in the scope in
/// which it began, whatever the expression calls, and takes nothing away.
pub proof fn lemma_eval_keeps(depth: nat, s: State, e: ExprView)
    requires
        s.wf(),
    ensures
        keeps(s, eval(depth, s, e).0),
    decreases depth, 1nat, e, 0nat,
{
    lemma_keeps_itself(s);
    match e {
        ExprView::Literal { literal } => {},
        ExprView::Grouping { expression } => {
            lemma_eval_keeps(depth, s, *expression);
        },
        ExprView::Unary { operator, right } => {
            lemma_eval_keeps(depth, s, *right);
        },
        ExprView::Binary { left, operator, right } => {
            lemma_eval_keeps(depth, s, *left);
            let (s1, l) = eval(depth, s, *left);
            lemma_kept_is_well_formed(s, s1);
            if l is Ok {
                lemma_eval_keeps(depth, s1, *right);
                lemma_keeps_on(s, s1, eval(depth, s1, *right).0);
            }
        },
        ExprView::Logical { left, operator, right } => {
            lemma_eval_keeps(depth, s, *left);
            let (s1, l) = eval(depth, s, *left);
            lemma_kept_is_well_formed(s, s1);
            lemma_eval_keeps(depth, s1, *right);
            lemma_keeps_on(s, s1, eval(depth, s1, *right).0);
        },
        ExprView::Variable { name, id } => {},
        ExprView::Assign { name, value, id } => {
            lemma_eval_keeps(depth, s, *value);
            let (s1, r) = eval(depth, s, *value);
            lemma_kept_is_well_formed(s, s1);
            lemma_store_keeps(s1, name.lexeme, r);
            lemma_keeps_on(s, s1, s1.store(name.lexeme, r).0);
        },
        ExprView::Call { callee, paren, arguments } => {
            lemma_eval_keeps(depth, s, *callee);
            let (s1, c) = eval(depth, s, *callee);
            lemma_kept_is_well_formed(s, s1);
            match c {
                Ok(cv) => {
                    lemma_eval_all_keeps(depth, s1, arguments);
                    let (s2, a) = eval_all(depth, s1, arguments);
                    lemma_kept_is_well_formed(s1, s2);
                    lemma_keeps_on(s, s1, s2);
                    match a {
                        Ok(values) => match s2.callable(cv, values.len()) {
                            Ok(CallableView::Function(f)) => {
                                if depth > 0 {
                                    lemma_call_keeps(depth, s2, f, values);
                                    lemma_keeps_on(
                                        s,
                                        s2,
                                        crate::semantics::call_function(depth, s2, f, values).0,
                                    );
                                }
                            },
                            _ => {},
                        },
                        Err(_) => {},
                    }
                },
                Err(_) => {},
            }
        },
        ExprView::Get { object, name } => {},
    }
}

/// A call of a function that lies in a scope that exists keeps the state.
pub proof fn lemma_call_keeps(depth: nat, s: State, f: FunctionView, arguments: Seq<
    crate::object::Value,
>)
    requires
        s.wf(),
        0 <= f.closure < s.environment.scopes.len(),
    ensures
        keeps(s, crate::semantics::call_function(depth, s, f, arguments).0),
    decreases depth, 0nat, f.body, 0nat,
{
    lemma_keeps_itself(s);
    if depth > 0 {
        let scope = s.environment.scopes.len() as int;
        let first = s.with_environment(s.environment.child_of(f.closure).at(scope));
        lemma_scope_entered(s, f.closure);
        lemma_params_keep(first, f.params, arguments);
        let entered = s.enter_call(f, arguments);
        assert(entered == first.with_environment(
            bind_params(first.environment, f.params, arguments),
        ));
        lemma_kept_is_well_formed(first, entered);
        lemma_exec_all_keeps((depth - 1) as nat, entered, f.body);
        let (after, ended) = exec_all((depth - 1) as nat, entered, f.body);
        lemma_scope_left(s, f.closure, entered, after);
    }
}

/// The evaluation of a list of expressions keeps the state.
pub proof fn lemma_eval_all_keeps(depth: nat, s: State, list: Seq<ExprView>)
    requires
        s.wf(),
    ensures
        keeps(s, eval_all(depth, s, list).0),
    decreases depth, 1nat, list, 0nat,
{
    lemma_keeps_itself(s);
    if list.len() > 0 {
        lemma_eval_all_keeps(depth, s, list.drop_last());
        let (s1, r) = eval_all(depth, s, list.drop_last());
        lemma_kept_is_well_formed(s, s1);
        if r is Ok {
            lemma_eval_keeps(depth, s1, list.last());
            lemma_keeps_on(s, s1, eval(depth, s1, list.last()).0);
        }
    }
}

/// A statement keeps the state, however it ends: normally, with a failure
/// or with a `return`, the program stands in the scope in which the
/// statement began, and the global scope is still the only one without a
/// scope around it.
pub proof fn lemma_exec_keeps(depth: nat, s: State, stmt: StmtView)
    requires
        s.wf(),
    ensures
        keeps(s, exec(depth, s, stmt).0),
    decreases depth, 2nat, stmt, s.loop_limit + 1,
{
    lemma_keeps_itself(s);
    match stmt {
        StmtView::Expression { expression } => {
            lemma_eval_keeps(depth, s, expression);
        },
        StmtView::Print { expression } => {
            lemma_eval_keeps(depth, s, expression);
            let (s1, r) = eval(depth, s, expression);
            lemma_kept_is_well_formed(s, s1);
            match r {
                Ok(v) => {
                    lemma_print_keeps(s1, crate::object::value_text(v));
                    lemma_keeps_on(s, s1, s1.print(crate::object::value_text(v)));
                },
                Err(_) => {},
            }
        },
        StmtView::Variable { name, initializer } => match initializer {
            Some(expression) => {
                lemma_eval_keeps(depth, s, expression);
                let (s1, r) = eval(depth, s, expression);
                lemma_kept_is_well_formed(s, s1);
                match r {
                    Ok(v) => {
                        lemma_bind_keeps(s1, s1.environment.current, name.lexeme, v);
                        lemma_keeps_on(
                            s,
                            s1,
                            s1.with_environment(s1.environment.define(name.lexeme, v)),
                        );
                    },
                    Err(_) => {},
                }
            },
            None => {
                lemma_bind_keeps(s, s.environment.current, name.lexeme, crate::object::Value::Nil);
            },
        },
        StmtView::Block { statements } => {
            let entered = s.enter_block();
            lemma_scope_entered(s, s.environment.current);
            lemma_keeps_itself(entered);
            lemma_exec_all_keeps(depth, entered, statements);
            lemma_scope_left(
                s,
                s.environment.current,
                entered,
                exec_all(depth, entered, statements).0,
            );
        },
        StmtView::If { condition, then_branch, else_branch } => {
            lemma_eval_keeps(depth, s, condition);
            let (s1, r) = eval(depth, s, condition);
            lemma_kept_is_well_formed(s, s1);
            match r {
                Ok(v) => {
                    if crate::object::truthy(v) {
                        lemma_exec_keeps(depth, s1, *then_branch);
                        lemma_keeps_on(s, s1, exec(depth, s1, *then_branch).0);
                    } else {
                        match else_branch {
                            Some(other) => {
                                lemma_exec_keeps(depth, s1, *other);
                                lemma_keeps_on(s, s1, exec(depth, s1, *other).0);
                            },
                            None => {},
                        }
                    }
                },
                Err(_) => {},
            }
        },
        StmtView::While { condition, body } => {
            lemma_exec_while_keeps(depth, s, stmt, s.loop_limit as nat);
        },
        StmtView::Function { name, params, body } => {
            lemma_declare_keeps(s, name, params, body);
        },
        StmtView::Return { keyword, value } => match value {
            Some(expression) => {
                lemma_eval_keeps(depth, s, expression);
            },
            None => {},
        },
        StmtView::Class { name, methods } => {},
    }
}

/// A loop keeps the state, however many rounds it runs.
pub proof fn lemma_exec_while_keeps(depth: nat, s: State, stmt: StmtView, rounds: nat)
    requires
        s.wf(),
    ensures
        keeps(s, exec_while(depth, s, stmt, rounds).0),
    decreases depth, 2nat, stmt, rounds,
{
    lemma_keeps_itself(s);
    match stmt {
        StmtView::While { condition, body } => {
            lemma_eval_keeps(depth, s, condition);
            let (s1, r) = eval(depth, s, condition);
            lemma_kept_is_well_formed(s, s1);
            match r {
                Ok(v) => {
                    if crate::object::truthy(v) && rounds > 0 {
                        lemma_exec_keeps(depth, s1, *body);
                        let (s2, ended) = exec(depth, s1, *body);
                        lemma_kept_is_well_formed(s1, s2);
                        lemma_keeps_on(s, s1, s2);
                        if ended is Ok {
                            lemma_exec_while_keeps(depth, s2, stmt, (rounds - 1) as nat);
                            lemma_keeps_on(
                                s,
                                s2,
                                exec_while(depth, s2, stmt, (rounds - 1) as nat).0,
                            );
                        }
                    }
                },
                Err(_) => {},
            }
        },
        _ => {},
    }
}

/// A list of statements keeps the state.
pub proof fn lemma_exec_all_keeps(depth: nat, s: State, list: Seq<StmtView>)
    requires
        s.wf(),
    ensures
        keeps(s, exec_all(depth, s, list).0),
    decreases depth, 2nat, list, 0nat,
{
    lemma_keeps_itself(s);
    if list.len() > 0 {
        lemma_exec_all_keeps(depth, s, list.drop_last());
        let (s1, r) = exec_all(depth, s, list.drop_last());
        lemma_kept_is_well_formed(s, s1);
        if r is Ok {
            lemma_exec_keeps(depth, s1, list.last());
            lemma_keeps_on(s, s1, exec(depth, s1, list.last()).0);
        }
    }
}

/// A program that runs at the top level keeps the state.
pub proof fn lemma_interpret_keeps(depth: nat, s: State, program: Seq<StmtView>)
    requires
        s.wf(),
    ensures
        keeps(s, crate::semantics::interpret(depth, s, program).0),
{
    lemma_exec_all_keeps(depth, s, program);
}

} // verus!
