//! The resolver and the interpreter agree: in a program whose variables are
//! filed as the rules of scoping say, every variable that was filed is
//! found where it was filed when the program runs.

use crate::environment::{ancestor, EnvironmentView, ScopeView};
use crate::expression::ExprView;
use crate::interpreter::Signal;
use crate::invariants::{
    keeps, lemma_bind_keeps, lemma_declare_keeps, lemma_eval_all_keeps, lemma_eval_keeps,
    lemma_exec_all_keeps, lemma_exec_keeps, lemma_kept_is_well_formed, lemma_params_keep,
    lemma_print_keeps, lemma_scope_entered, lemma_store_keeps,
};
use crate::lox_error::LoxErrorView;
use crate::numbering::{expr_ids, stmt_ids, stmts_ids};
use crate::object::Value;
use crate::resolver::{innermost, FunctionType};
use crate::semantics::{
    bind_params, call_function, eval, eval_all, exec, exec_all, exec_while, CallableView,
    FunctionView, State,
};
use crate::statement::StmtView;
use crate::token::TokenView;
use vstd::prelude::*;

verus! {

/// The scopes of a place in a program, from the outermost block or function
/// to the innermost: each tells of the names that it declares whether they
/// are initialized.
pub type Scopes = Seq<Map<Seq<char>, bool>>;

/// Whether the innermost scope declares `name`.
pub open spec fn declared_here(sigma: Scopes, name: Seq<char>) -> bool {
    sigma.len() > 0 && sigma.last().dom().contains(name)
}

/// Whether the innermost scope declares `name` without having initialized
/// it.
pub open spec fn own_initializer(sigma: Scopes, name: Seq<char>) -> bool {
    declared_here(sigma, name) && !sigma.last()[name]
}

/// The scopes after `name` was declared in the innermost scope.
pub open spec fn declare(sigma: Scopes, name: Seq<char>) -> Scopes {
    if sigma.len() == 0 {
        sigma
    } else {
        sigma.update(sigma.len() - 1, sigma.last().insert(name, false))
    }
}

/// The scopes after `name` was initialized in the innermost scope.
pub open spec fn define(sigma: Scopes, name: Seq<char>) -> Scopes {
    if sigma.len() == 0 {
        sigma
    } else {
        sigma.update(sigma.len() - 1, sigma.last().insert(name, true))
    }
}

/// Whether every name of every scope is initialized.
pub open spec fn all_defined(sigma: Scopes) -> bool {
    forall|i: int, name: Seq<char>|
        0 <= i < sigma.len() && (#[trigger] sigma[i].dom().contains(name)) ==> sigma[i][name]
}

/// Whether every name of every scope but the innermost is initialized.
pub open spec fn settled(sigma: Scopes) -> bool {
    forall|i: int, name: Seq<char>|
        0 <= i < sigma.len() - 1 && (#[trigger] sigma[i].dom().contains(name)) ==> sigma[i][name]
}

/// Whether the chain of scopes of a running program fits the scopes of a
/// place in the program, seen from the scope `at`: as many levels around
/// `at` as the place has scopes inside a scope, a scope lies that binds
/// every name that the scope of the place has initialized.
pub open spec fn fits(sigma: Scopes, scopes: Seq<ScopeView>, at: int) -> bool {
    forall|i: int, name: Seq<char>|
        0 <= i < sigma.len() && (#[trigger] sigma[i].dom().contains(name)) && sigma[i][name]
            ==> bound_at(scopes, at, sigma.len() - 1 - i, name)
}

/// Whether the scope `distance` levels around `at` exists and binds `name`.
pub open spec fn bound_at(scopes: Seq<ScopeView>, at: int, distance: int, name: Seq<char>) -> bool {
    distance >= 0 && (ancestor(scopes, at, distance as nat) matches Some(k) && 0 <= k < scopes.len()
        && scopes[k].values.dom().contains(name))
}

/// Whether the chain `after` still holds every scope of the chain `before`,
/// in the scope in which it lay and with every name that it bound.
pub open spec fn extends(before: Seq<ScopeView>, after: Seq<ScopeView>) -> bool {
    &&& before.len() <= after.len()
    &&& forall|i: int|
        0 <= i < before.len() ==> (#[trigger] after[i]).enclosing == before[i].enclosing
    &&& forall|i: int, name: Seq<char>|
        0 <= i < before.len() && before[i].values.dom().contains(name)
            ==> #[trigger] after[i].values.dom().contains(name)
}

/// What a run keeps, it still holds.
pub proof fn lemma_kept_extends(s: State, after: State)
    requires
        keeps(s, after),
    ensures
        extends(s.environment.scopes, after.environment.scopes),
        after.locals == s.locals,
        s.functions.len() <= after.functions.len(),
        forall|i: int| 0 <= i < s.functions.len() ==> #[trigger] after.functions[i] == s.functions[i],
{
    reveal(keeps);
}

/// A scope that is found around a scope of a well-formed chain is found at
/// the same place in every chain that still holds the scopes of the chain.
pub proof fn lemma_ancestor_kept(
    before: EnvironmentView,
    after: Seq<ScopeView>,
    at: int,
    distance: nat,
)
    requires
        before.wf(),
        extends(before.scopes, after),
        0 <= at < before.scopes.len(),
    ensures
        ancestor(before.scopes, at, distance) matches Some(k) ==> 0 <= k < before.scopes.len()
            && ancestor(after, at, distance) == Some(k),
    decreases distance,
{
    if distance > 0 {
        assert(after[at].enclosing == before.scopes[at].enclosing);
        match before.scopes[at].enclosing {
            Some(p) => {
                assert(0 <= p < at);
                lemma_ancestor_kept(before, after, p, (distance - 1) as nat);
            },
            None => {},
        }
    }
}

/// What fits a chain fits every chain that still holds its scopes.
pub proof fn lemma_fits_kept(sigma: Scopes, before: EnvironmentView, after: Seq<ScopeView>, at: int)
    requires
        before.wf(),
        extends(before.scopes, after),
        0 <= at < before.scopes.len(),
        fits(sigma, before.scopes, at),
    ensures
        fits(sigma, after, at),
{
    assert forall|i: int, name: Seq<char>|
        0 <= i < sigma.len() && (#[trigger] sigma[i].dom().contains(name))
            && sigma[i][name] implies bound_at(after, at, sigma.len() - 1 - i, name) by {
        assert(bound_at(before.scopes, at, sigma.len() - 1 - i, name));
        lemma_ancestor_kept(before, after, at, (sigma.len() - 1 - i) as nat);
    }
}

/// A scope around a scope is found at the same distance when a new scope
/// has been made.
pub proof fn lemma_ancestor_of_child(scopes: Seq<ScopeView>, parent: int, at: int, distance: nat)
    requires
        0 <= at < scopes.len(),
        scopes[0].enclosing is None,
        forall|i: int|
            0 < i < scopes.len() ==> (#[trigger] scopes[i]).enclosing is Some && 0
                <= scopes[i].enclosing->0 < i,
    ensures
        ancestor(
            scopes.push(ScopeView { values: Map::empty(), enclosing: Some(parent) }),
            at,
            distance,
        ) == ancestor(scopes, at, distance),
    decreases distance,
{
    let longer = scopes.push(ScopeView { values: Map::empty(), enclosing: Some(parent) });
    assert(longer[at] == scopes[at]);
    if distance > 0 && at > 0 {
        lemma_ancestor_of_child(scopes, parent, scopes[at].enclosing->0, (distance - 1) as nat);
    }
}

/// What fits a chain seen from a scope fits, with one more empty scope, the
/// chain with a new scope inside that scope, seen from the new scope.
pub proof fn lemma_fits_child(sigma: Scopes, s: State, parent: int)
    requires
        s.wf(),
        0 <= parent < s.environment.scopes.len(),
        fits(sigma, s.environment.scopes, parent),
    ensures
        fits(
            sigma.push(Map::empty()),
            s.environment.child_of(parent).scopes,
            s.environment.scopes.len() as int,
        ),
{
    let scopes = s.environment.scopes;
    let longer = s.environment.child_of(parent).scopes;
    let child = scopes.len() as int;
    let inner = sigma.push(Map::empty());
    assert forall|i: int, name: Seq<char>|
        0 <= i < inner.len() && (#[trigger] inner[i].dom().contains(name))
            && inner[i][name] implies bound_at(longer, child, inner.len() - 1 - i, name) by {
        assert(i < sigma.len());
        assert(inner[i] == sigma[i]);
        let d = sigma.len() - 1 - i;
        assert(bound_at(scopes, parent, d, name));
        lemma_ancestor_of_child(scopes, parent, parent, d as nat);
        assert(longer[child].enclosing == Some(parent));
        assert(ancestor(longer, child, (d + 1) as nat) == ancestor(longer, parent, d as nat));
        let k = ancestor(scopes, parent, d as nat)->0;
        assert(longer[k] == scopes[k]);
    }
}

/// A name less that is initialized leaves what fitted fitting.
pub proof fn lemma_fits_declare(sigma: Scopes, scopes: Seq<ScopeView>, at: int, name: Seq<char>)
    requires
        fits(sigma, scopes, at),
    ensures
        fits(declare(sigma, name), scopes, at),
{
    let declared = declare(sigma, name);
    assert forall|i: int, n: Seq<char>|
        0 <= i < declared.len() && (#[trigger] declared[i].dom().contains(n))
            && declared[i][n] implies bound_at(scopes, at, declared.len() - 1 - i, n) by {
        assert(sigma[i].dom().contains(n) && sigma[i][n]);
    }
}

/// A name that is initialized where the program stands, in the scopes and
/// in the chain, leaves what fitted fitting.
pub proof fn lemma_fits_define(sigma: Scopes, s: State, name: Seq<char>, value: Value)
    requires
        s.wf(),
        fits(sigma, s.environment.scopes, s.environment.current),
    ensures
        fits(
            define(sigma, name),
            s.environment.define(name, value).scopes,
            s.environment.current,
        ),
{
    let at = s.environment.current;
    let defined = define(sigma, name);
    let after = s.with_environment(s.environment.define(name, value));
    lemma_bind_keeps(s, at, name, value);
    lemma_kept_extends(s, after);
    lemma_fits_kept(sigma, s.environment, after.environment.scopes, at);
    assert forall|i: int, n: Seq<char>|
        0 <= i < defined.len() && (#[trigger] defined[i].dom().contains(n))
            && defined[i][n] implies bound_at(
        after.environment.scopes,
        at,
        defined.len() - 1 - i,
        n,
    ) by {
        if i == sigma.len() - 1 && n == name {
            assert(ancestor(after.environment.scopes, at, 0) == Some(at));
        } else {
            assert(sigma[i].dom().contains(n) && sigma[i][n]);
        }
    }
}


/// Whether the variables of an expression are filed in `table` as the rules
/// of scoping say for a place with the scopes `sigma`.
///
/// A variable is no reference to the variable that is being initialized in
/// the innermost scope. If a scope declares its name, the variable is filed
/// with the number of scopes that lie inside the innermost such scope; if
/// none does, it is not filed, and is a global. An assignment is not read
/// from the table when it runs, so that nothing is asked of its own entry.
pub open spec fn expr_ok(sigma: Scopes, table: Map<usize, int>, e: ExprView) -> bool
    decreases e,
{
    match e {
        ExprView::Literal { literal } => true,
        ExprView::Grouping { expression } => expr_ok(sigma, table, *expression),
        ExprView::Unary { operator, right } => expr_ok(sigma, table, *right),
        ExprView::Binary { left, operator, right } => expr_ok(sigma, table, *left) && expr_ok(
            sigma,
            table,
            *right,
        ),
        ExprView::Logical { left, operator, right } => expr_ok(sigma, table, *left) && expr_ok(
            sigma,
            table,
            *right,
        ),
        ExprView::Variable { name, id } => !own_initializer(sigma, name.lexeme) && match innermost(
            sigma,
            name.lexeme,
            sigma.len() as int,
        ) {
            Some(i) => table.dom().contains(id) && table[id] == sigma.len() - 1 - i,
            None => !table.dom().contains(id),
        },
        ExprView::Assign { name, value, id } => expr_ok(sigma, table, *value),
        ExprView::Call { callee, paren, arguments } => expr_ok(sigma, table, *callee) && exprs_ok(
            sigma,
            table,
            arguments,
        ),
        ExprView::Get { object, name } => expr_ok(sigma, table, *object),
    }
}

/// Whether the variables of every expression of a list are filed as the
/// rules of scoping say.
pub open spec fn exprs_ok(sigma: Scopes, table: Map<usize, int>, list: Seq<ExprView>) -> bool
    decreases list,
{
    if list.len() == 0 {
        true
    } else {
        exprs_ok(sigma, table, list.drop_last()) && expr_ok(sigma, table, list.last())
    }
}

/// Whether a statement is no declaration. The branches of an `if` and the
/// body of a loop that the parser reads are no declarations.
pub open spec fn plain(stmt: StmtView) -> bool {
    !(stmt is Variable || stmt is Function || stmt is Class)
}

/// The scopes of the body of a function with these parameters, whose scope
/// is the innermost of `sigma`: each parameter is declared and initialized
/// there. There are none if two parameters have one name.
pub open spec fn params_scopes(sigma: Scopes, params: Seq<TokenView>) -> Option<Scopes>
    decreases params.len(),
{
    if params.len() == 0 {
        Some(sigma)
    } else {
        match params_scopes(sigma, params.drop_last()) {
            Some(before) => if declared_here(before, params.last().lexeme) {
                None
            } else {
                Some(define(declare(before, params.last().lexeme), params.last().lexeme))
            },
            None => None,
        }
    }
}

/// The scopes behind a statement whose variables are filed in `table` as
/// the rules of scoping say for a place with the scopes `sigma`, inside or
/// outside of a function; none if they are not filed so, or if the
/// statement breaks a rule of scoping.
///
/// A block and the body of a function have a scope of their own. A variable
/// is declared before its initializer and initialized behind it. A function
/// is initialized before its body, whose scope holds its parameters. No
/// name is declared twice in one scope, `return` stands in a function, and
/// no declaration is the branch of an `if` or the body of a loop.
pub open spec fn stmt_ok(
    sigma: Scopes,
    inside: FunctionType,
    table: Map<usize, int>,
    stmt: StmtView,
) -> Option<Scopes>
    decreases stmt,
{
    match stmt {
        StmtView::Expression { expression } => if expr_ok(sigma, table, expression) {
            Some(sigma)
        } else {
            None
        },
        StmtView::Print { expression } => if expr_ok(sigma, table, expression) {
            Some(sigma)
        } else {
            None
        },
        StmtView::Variable { name, initializer } => if declared_here(sigma, name.lexeme) {
            None
        } else {
            match initializer {
                Some(expression) => if expr_ok(declare(sigma, name.lexeme), table, expression) {
                    Some(define(declare(sigma, name.lexeme), name.lexeme))
                } else {
                    None
                },
                None => Some(define(declare(sigma, name.lexeme), name.lexeme)),
            }
        },
        StmtView::Block { statements } => match stmts_ok(
            sigma.push(Map::empty()),
            inside,
            table,
            statements,
        ) {
            Some(_) => Some(sigma),
            None => None,
        },
        StmtView::If { condition, then_branch, else_branch } => if expr_ok(sigma, table, condition)
            && plain(*then_branch) && stmt_ok(sigma, inside, table, *then_branch) is Some && (
        match else_branch {
            Some(other) => plain(*other) && stmt_ok(sigma, inside, table, *other) is Some,
            None => true,
        }) {
            Some(sigma)
        } else {
            None
        },
        StmtView::While { condition, body } => if expr_ok(sigma, table, condition) && plain(*body)
            && stmt_ok(sigma, inside, table, *body) is Some {
            Some(sigma)
        } else {
            None
        },
        StmtView::Function { name, params, body } => if declared_here(sigma, name.lexeme) {
            None
        } else {
            let outer = define(declare(sigma, name.lexeme), name.lexeme);
            match params_scopes(outer.push(Map::empty()), params) {
                Some(inner) => if stmts_ok(inner, FunctionType::Function, table, body) is Some {
                    Some(outer)
                } else {
                    None
                },
                None => None,
            }
        },
        StmtView::Return { keyword, value } => if inside == FunctionType::Function && (
        match value {
            Some(expression) => expr_ok(sigma, table, expression),
            None => true,
        }) {
            Some(sigma)
        } else {
            None
        },
        StmtView::Class { name, methods } => if declared_here(sigma, name.lexeme) {
            None
        } else {
            Some(define(declare(sigma, name.lexeme), name.lexeme))
        },
    }
}

/// The scopes behind a list of statements whose variables are filed as the
/// rules of scoping say.
pub open spec fn stmts_ok(
    sigma: Scopes,
    inside: FunctionType,
    table: Map<usize, int>,
    list: Seq<StmtView>,
) -> Option<Scopes>
    decreases list,
{
    if list.len() == 0 {
        Some(sigma)
    } else {
        match stmts_ok(sigma, inside, table, list.drop_last()) {
            Some(before) => stmt_ok(before, inside, table, list.last()),
            None => None,
        }
    }
}

/// Whether every number of a list is less than `bound`.
pub open spec fn below(ids: Seq<usize>, bound: int) -> bool {
    forall|j: int| 0 <= j < ids.len() ==> #[trigger] ids[j] < bound
}

/// Every number of the parts of a list is less than `bound` if every
/// number of the list is.
pub proof fn lemma_below_parts(a: Seq<usize>, b: Seq<usize>, bound: int)
    requires
        below(a + b, bound),
    ensures
        below(a, bound),
        below(b, bound),
{
    let ab = a + b;
    assert forall|j: int| 0 <= j < a.len() implies #[trigger] a[j] < bound by {
        assert(ab[j] == a[j]);
    }
    assert forall|j: int| 0 <= j < b.len() implies #[trigger] b[j] < bound by {
        assert(ab[a.len() + j] == b[j]);
    }
}

/// Whether the function `f` was declared at a place with the scopes
/// `sigma`: the chain of scopes fits them, seen from the scope of the
/// declaration, the variables of the body are filed as the rules of
/// scoping say, and the numbers of its nodes are less than `bound`.
pub open spec fn function_ok(s: State, f: FunctionView, sigma: Scopes, bound: int) -> bool {
    &&& below(stmts_ids(f.body), bound)
    &&& all_defined(sigma)
    &&& 0 <= f.closure < s.environment.scopes.len()
    &&& fits(sigma, s.environment.scopes, f.closure)
    &&& params_scopes(sigma.push(Map::empty()), f.params) is Some
    &&& stmts_ok(
        params_scopes(sigma.push(Map::empty()), f.params)->0,
        FunctionType::Function,
        s.locals,
        f.body,
    ) is Some
}

/// Whether every function of the state was declared at a place whose scopes
/// the chain of scopes fits.
#[verifier::opaque]
pub open spec fn functions_ok(s: State, bound: int) -> bool {
    forall|i: int|
        0 <= i < s.functions.len() ==> (#[trigger] s.functions[i] matches CallableView::Function(f)
            ==> exists|sigma: Scopes| function_ok(s, f, sigma, bound))
}

/// Whether a result is a `return` that leaves what has run.
pub open spec fn escapes<T>(r: Result<T, Signal>) -> bool {
    r matches Err(Signal::Return(_))
}

/// Whether a result is the error of a name that is not bound where it was
/// filed.
pub open spec fn unbound<T>(r: Result<T, Signal>) -> bool {
    r matches Err(Signal::Error(LoxErrorView::BindingError(_, _)))
}

/// The functions of a state fit every state that still holds its scopes and
/// has the same functions and the same table.
pub proof fn lemma_functions_kept(s: State, after: State, bound: int)
    requires
        s.wf(),
        functions_ok(s, bound),
        extends(s.environment.scopes, after.environment.scopes),
        after.locals == s.locals,
        after.functions == s.functions,
    ensures
        functions_ok(after, bound),
{
    reveal(functions_ok);
    assert forall|i: int| 0 <= i < after.functions.len() implies (
    #[trigger] after.functions[i] matches CallableView::Function(f) ==> exists|sigma: Scopes|
        function_ok(after, f, sigma, bound)) by {
        match after.functions[i] {
            CallableView::Function(f) => {
                assert(s.functions[i] == CallableView::Function(f));
                let sigma = choose|sigma: Scopes| function_ok(s, f, sigma, bound);
                lemma_fits_kept(sigma, s.environment, after.environment.scopes, f.closure);
                assert(function_ok(after, f, sigma, bound));
            },
            _ => {},
        }
    }
}

/// A new scope and another current scope leave the functions fitting.
pub proof fn lemma_functions_entered(s: State, parent: int, bound: int)
    requires
        s.wf(),
        functions_ok(s, bound),
    ensures
        functions_ok(
            s.with_environment(s.environment.child_of(parent).at(s.environment.scopes.len() as int)),
            bound,
        ),
        forall|scope: int| functions_ok(#[trigger] s.at(scope), bound),
{
    let entered = s.with_environment(
        s.environment.child_of(parent).at(s.environment.scopes.len() as int),
    );
    lemma_functions_kept(s, entered, bound);
    assert forall|scope: int| functions_ok(#[trigger] s.at(scope), bound) by {
        lemma_functions_kept(s, s.at(scope), bound);
    }
}

/// The chain after the parameters of a function were bound to as many
/// arguments or more fits the scopes of the body.
pub proof fn lemma_params_fit(
    sigma: Scopes,
    s: State,
    params: Seq<TokenView>,
    arguments: Seq<Value>,
)
    requires
        s.wf(),
        all_defined(sigma),
        fits(sigma, s.environment.scopes, s.environment.current),
        params.len() <= arguments.len(),
        params_scopes(sigma, params) is Some,
    ensures
        all_defined(params_scopes(sigma, params)->0),
        params_scopes(sigma, params)->0.len() == sigma.len(),
        fits(
            params_scopes(sigma, params)->0,
            bind_params(s.environment, params, arguments).scopes,
            s.environment.current,
        ),
        keeps(s, s.with_environment(bind_params(s.environment, params, arguments))),
    decreases params.len(),
{
    lemma_params_keep(s, params, arguments);
    if params.len() > 0 {
        let before = params_scopes(sigma, params.drop_last())->0;
        lemma_params_fit(sigma, s, params.drop_last(), arguments);
        let bound = s.with_environment(bind_params(s.environment, params.drop_last(), arguments));
        lemma_kept_is_well_formed(s, bound);
        let name = params.last().lexeme;
        lemma_fits_declare(before, bound.environment.scopes, bound.environment.current, name);
        lemma_fits_define(declare(before, name), bound, name, arguments[params.len() - 1]);
    }
}

/// The scopes behind a statement that keeps the rules have as many scopes
/// as those before it, and every name of them is initialized if every name
/// before was.
pub proof fn lemma_stmt_ok_shape(
    sigma: Scopes,
    inside: FunctionType,
    table: Map<usize, int>,
    stmt: StmtView,
)
    requires
        all_defined(sigma),
        stmt_ok(sigma, inside, table, stmt) is Some,
    ensures
        all_defined(stmt_ok(sigma, inside, table, stmt)->0),
        stmt_ok(sigma, inside, table, stmt)->0.len() == sigma.len(),
        plain(stmt) ==> stmt_ok(sigma, inside, table, stmt)->0 == sigma,
{
}

/// The scopes behind a list of statements that keep the rules have as many
/// scopes as those before it, and every name of them is initialized if
/// every name before was.
pub proof fn lemma_stmts_ok_shape(
    sigma: Scopes,
    inside: FunctionType,
    table: Map<usize, int>,
    list: Seq<StmtView>,
)
    requires
        all_defined(sigma),
        stmts_ok(sigma, inside, table, list) is Some,
    ensures
        all_defined(stmts_ok(sigma, inside, table, list)->0),
        stmts_ok(sigma, inside, table, list)->0.len() == sigma.len(),
    decreases list.len(),
{
    if list.len() > 0 {
        lemma_stmts_ok_shape(sigma, inside, table, list.drop_last());
        lemma_stmt_ok_shape(
            stmts_ok(sigma, inside, table, list.drop_last())->0,
            inside,
            table,
            list.last(),
        );
    }
}


/// Whether a run may start in the state `s` at a place with the scopes
/// `sigma`: the state is well formed, its functions fit, and its chain of
/// scopes fits the scopes of the place, seen from where the program stands.
pub open spec fn ready(s: State, sigma: Scopes, bound: int) -> bool {
    &&& s.wf()
    &&& functions_ok(s, bound)
    &&& fits(sigma, s.environment.scopes, s.environment.current)
}

/// A state that was ready is ready after a run that keeps it and leaves the
/// functions fitting.
pub proof fn lemma_ready_on(s: State, after: State, sigma: Scopes, bound: int)
    requires
        ready(s, sigma, bound),
        keeps(s, after),
        functions_ok(after, bound),
    ensures
        ready(after, sigma, bound),
{
    lemma_kept_is_well_formed(s, after);
    lemma_kept_extends(s, after);
    lemma_fits_kept(sigma, s.environment, after.environment.scopes, s.environment.current);
}

/// The innermost scope that declares a name is one of the scopes, and
/// declares the name.
pub proof fn lemma_innermost_declares(sigma: Scopes, name: Seq<char>, upto: int)
    ensures
        innermost(sigma, name, upto) matches Some(i) ==> 0 <= i < upto && i < sigma.len()
            && sigma[i].dom().contains(name),
    decreases upto,
{
    if 0 < upto <= sigma.len() && !sigma[upto - 1].dom().contains(name) {
        lemma_innermost_declares(sigma, name, upto - 1);
    }
}

/// A variable that is filed as the rules say is found when it is read.
pub proof fn lemma_variable_found(s: State, sigma: Scopes, name: TokenView, id: usize, bound: int)
    requires
        ready(s, sigma, bound),
        settled(sigma),
        expr_ok(sigma, s.locals, ExprView::Variable { name, id }),
    ensures
        !unbound(s.look_up(name.lexeme, ExprView::Variable { name, id })),
{
    lemma_innermost_declares(sigma, name.lexeme, sigma.len() as int);
    match innermost(sigma, name.lexeme, sigma.len() as int) {
        Some(i) => {
            assert(sigma[i].dom().contains(name.lexeme));
            assert(sigma[i][name.lexeme]);
            assert(bound_at(
                s.environment.scopes,
                s.environment.current,
                sigma.len() - 1 - i,
                name.lexeme,
            ));
        },
        None => {},
    }
}

/// In a program whose variables are filed as the rules of scoping say, the
/// evaluation of an expression finds every variable that it reads, and
/// leaves the functions fitting.
pub proof fn lemma_eval_sound(depth: nat, s: State, sigma: Scopes, e: ExprView, bound: int)
    requires
        ready(s, sigma, bound),
        settled(sigma),
        expr_ok(sigma, s.locals, e),
    ensures
        functions_ok(eval(depth, s, e).0, bound),
        !unbound(eval(depth, s, e).1),
        !escapes(eval(depth, s, e).1),
    decreases depth, 1nat, e, 0nat,
{
    lemma_eval_keeps(depth, s, e);
    crate::laws::lemma_eval_never_returns(depth, s, e);
    match e {
        ExprView::Literal { literal } => {},
        ExprView::Grouping { expression } => {
            lemma_eval_sound(depth, s, sigma, *expression, bound);
        },
        ExprView::Unary { operator, right } => {
            lemma_eval_sound(depth, s, sigma, *right, bound);
        },
        ExprView::Binary { left, operator, right } => {
            lemma_eval_sound(depth, s, sigma, *left, bound);
            let (s1, l) = eval(depth, s, *left);
            lemma_eval_keeps(depth, s, *left);
            lemma_ready_on(s, s1, sigma, bound);
            lemma_kept_extends(s, s1);
            lemma_eval_sound(depth, s1, sigma, *right, bound);
        },
        ExprView::Logical { left, operator, right } => {
            lemma_eval_sound(depth, s, sigma, *left, bound);
            let (s1, l) = eval(depth, s, *left);
            lemma_eval_keeps(depth, s, *left);
            lemma_ready_on(s, s1, sigma, bound);
            lemma_kept_extends(s, s1);
            lemma_eval_sound(depth, s1, sigma, *right, bound);
        },
        ExprView::Variable { name, id } => {
            lemma_variable_found(s, sigma, name, id, bound);
        },
        ExprView::Assign { name, value, id } => {
            lemma_eval_sound(depth, s, sigma, *value, bound);
            let (s1, r) = eval(depth, s, *value);
            lemma_eval_keeps(depth, s, *value);
            lemma_kept_is_well_formed(s, s1);
            lemma_store_keeps(s1, name.lexeme, r);
            let stored = s1.store(name.lexeme, r).0;
            lemma_kept_extends(s1, stored);
            lemma_functions_kept(s1, stored, bound);
        },
        ExprView::Call { callee, paren, arguments } => {
            lemma_eval_sound(depth, s, sigma, *callee, bound);
            let (s1, c) = eval(depth, s, *callee);
            lemma_eval_keeps(depth, s, *callee);
            lemma_ready_on(s, s1, sigma, bound);
            lemma_kept_extends(s, s1);
            match c {
                Ok(cv) => {
                    lemma_eval_all_sound(depth, s1, sigma, arguments, bound);
                    let (s2, a) = eval_all(depth, s1, arguments);
                    lemma_eval_all_keeps(depth, s1, arguments);
                    lemma_kept_is_well_formed(s1, s2);
                    match a {
                        Ok(values) => match s2.callable(cv, values.len()) {
                            Ok(CallableView::Function(f)) => {
                                if depth > 0 {
                                    let id = cv->id;
                                    assert(s2.functions[id] == CallableView::Function(f));
                                    assert(exists|at: Scopes| function_ok(s2, f, at, bound)) by {
                                        reveal(functions_ok);
                                    }
                                    let at = choose|at: Scopes| function_ok(s2, f, at, bound);
                                    lemma_call_sound(depth, s2, f, at, values, bound);
                                }
                            },
                            _ => {},
                        },
                        Err(_) => {},
                    }
                },
                Err(_) => {},
            }
        },
        ExprView::Get { object, name } => {},
    }
}

/// A call of a function that fits finds every variable that it reads, and
/// leaves the functions fitting.
pub proof fn lemma_call_sound(
    depth: nat,
    s: State,
    f: FunctionView,
    sigma: Scopes,
    arguments: Seq<Value>,
    bound: int,
)
    requires
        s.wf(),
        functions_ok(s, bound),
        function_ok(s, f, sigma, bound),
        arguments.len() == f.params.len(),
    ensures
        functions_ok(call_function(depth, s, f, arguments).0, bound),
        !unbound(call_function(depth, s, f, arguments).1),
    decreases depth, 0nat, f.body, 0nat,
{
    if depth > 0 {
        let scope = s.environment.scopes.len() as int;
        let first = s.with_environment(s.environment.child_of(f.closure).at(scope));
        lemma_scope_entered(s, f.closure);
        lemma_functions_entered(s, f.closure, bound);
        lemma_fits_child(sigma, s, f.closure);
        let outer = sigma.push(Map::empty());
        assert(all_defined(outer));
        lemma_params_fit(outer, first, f.params, arguments);
        let inner = params_scopes(outer, f.params)->0;
        let entered = s.enter_call(f, arguments);
        assert(entered == first.with_environment(
            bind_params(first.environment, f.params, arguments),
        ));
        lemma_kept_is_well_formed(first, entered);
        lemma_kept_extends(first, entered);
        lemma_functions_kept(first, entered, bound);
        lemma_exec_all_sound(
            (depth - 1) as nat,
            entered,
            inner,
            FunctionType::Function,
            f.body,
            bound,
        );
        let (after, ended) = exec_all((depth - 1) as nat, entered, f.body);
        lemma_exec_all_keeps((depth - 1) as nat, entered, f.body);
        lemma_kept_is_well_formed(entered, after);
        lemma_functions_entered(after, 0, bound);
    }
}

/// The evaluation of a list of expressions finds every variable that it
/// reads.
pub proof fn lemma_eval_all_sound(depth: nat, s: State, sigma: Scopes, list: Seq<ExprView>, bound: int)
    requires
        ready(s, sigma, bound),
        settled(sigma),
        exprs_ok(sigma, s.locals, list),
    ensures
        functions_ok(eval_all(depth, s, list).0, bound),
        !unbound(eval_all(depth, s, list).1),
    decreases depth, 1nat, list, 0nat,
{
    if list.len() > 0 {
        lemma_eval_all_sound(depth, s, sigma, list.drop_last(), bound);
        let (s1, r) = eval_all(depth, s, list.drop_last());
        lemma_eval_all_keeps(depth, s, list.drop_last());
        lemma_ready_on(s, s1, sigma, bound);
        lemma_kept_extends(s, s1);
        if r is Ok {
            lemma_eval_sound(depth, s1, sigma, list.last(), bound);
        }
    }
}

/// In a program whose variables are filed as the rules of scoping say, a
/// statement finds every variable that it reads. Where it ends normally,
/// the chain of scopes fits the scopes behind the statement.
pub proof fn lemma_exec_sound(
    depth: nat,
    s: State,
    sigma: Scopes,
    inside: FunctionType,
    stmt: StmtView,
    bound: int,
)
    requires
        ready(s, sigma, bound),
        all_defined(sigma),
        stmt_ok(sigma, inside, s.locals, stmt) is Some,
        below(stmt_ids(stmt), bound),
    ensures
        functions_ok(exec(depth, s, stmt).0, bound),
        !unbound(exec(depth, s, stmt).1),
        inside == FunctionType::TopLevel ==> !escapes(exec(depth, s, stmt).1),
        exec(depth, s, stmt).1 is Ok ==> fits(
            stmt_ok(sigma, inside, s.locals, stmt)->0,
            exec(depth, s, stmt).0.environment.scopes,
            s.environment.current,
        ),
    decreases depth, 2nat, stmt, s.loop_limit + 1,
{
    lemma_exec_keeps(depth, s, stmt);
    let (end, ended) = exec(depth, s, stmt);
    lemma_kept_extends(s, end);
    lemma_fits_kept(sigma, s.environment, end.environment.scopes, s.environment.current);
    match stmt {
        StmtView::Expression { expression } => {
            lemma_eval_sound(depth, s, sigma, expression, bound);
        },
        StmtView::Print { expression } => {
            lemma_eval_sound(depth, s, sigma, expression, bound);
            let (s1, r) = eval(depth, s, expression);
            lemma_eval_keeps(depth, s, expression);
            lemma_kept_is_well_formed(s, s1);
            match r {
                Ok(v) => {
                    lemma_print_keeps(s1, crate::object::value_text(v));
                    lemma_kept_extends(s1, s1.print(crate::object::value_text(v)));
                    lemma_functions_kept(s1, s1.print(crate::object::value_text(v)), bound);
                },
                Err(_) => {},
            }
        },
        StmtView::Variable { name, initializer } => {
            let declared = declare(sigma, name.lexeme);
            lemma_fits_declare(
                sigma,
                s.environment.scopes,
                s.environment.current,
                name.lexeme,
            );
            match initializer {
                Some(expression) => {
                    lemma_eval_sound(depth, s, declared, expression, bound);
                    let (s1, r) = eval(depth, s, expression);
                    lemma_eval_keeps(depth, s, expression);
                    lemma_ready_on(s, s1, declared, bound);
                    lemma_kept_is_well_formed(s, s1);
                    match r {
                        Ok(v) => {
                            let named = s1.with_environment(
                                s1.environment.define(name.lexeme, v),
                            );
                            lemma_bind_keeps(s1, s1.environment.current, name.lexeme, v);
                            lemma_kept_extends(s1, named);
                            lemma_functions_kept(s1, named, bound);
                            lemma_fits_define(declared, s1, name.lexeme, v);
                        },
                        Err(_) => {},
                    }
                },
                None => {
                    let named = s.with_environment(s.environment.define(name.lexeme, Value::Nil));
                    lemma_bind_keeps(s, s.environment.current, name.lexeme, Value::Nil);
                    lemma_kept_extends(s, named);
                    lemma_functions_kept(s, named, bound);
                    lemma_fits_define(declared, s, name.lexeme, Value::Nil);
                },
            }
        },
        StmtView::Block { statements } => {
            let entered = s.enter_block();
            lemma_scope_entered(s, s.environment.current);
            lemma_functions_entered(s, s.environment.current, bound);
            lemma_fits_child(sigma, s, s.environment.current);
            lemma_exec_all_sound(depth, entered, sigma.push(Map::empty()), inside, statements, bound);
            let (after, r) = exec_all(depth, entered, statements);
            lemma_exec_all_keeps(depth, entered, statements);
            lemma_kept_is_well_formed(entered, after);
            lemma_functions_entered(after, 0, bound);
        },
        StmtView::If { condition, then_branch, else_branch } => {
            lemma_below_parts(
                expr_ids(condition) + stmt_ids(*then_branch),
                match else_branch {
                    Some(other) => stmt_ids(*other),
                    None => Seq::empty(),
                },
                bound,
            );
            lemma_below_parts(expr_ids(condition), stmt_ids(*then_branch), bound);
            lemma_eval_sound(depth, s, sigma, condition, bound);
            let (s1, r) = eval(depth, s, condition);
            lemma_eval_keeps(depth, s, condition);
            lemma_ready_on(s, s1, sigma, bound);
            lemma_kept_extends(s, s1);
            match r {
                Ok(v) => {
                    if crate::object::truthy(v) {
                        lemma_exec_sound(depth, s1, sigma, inside, *then_branch, bound);
                    } else {
                        match else_branch {
                            Some(other) => {
                                lemma_exec_sound(depth, s1, sigma, inside, *other, bound);
                            },
                            None => {},
                        }
                    }
                },
                Err(_) => {},
            }
        },
        StmtView::While { condition, body } => {
            lemma_exec_while_sound(depth, s, sigma, inside, stmt, s.loop_limit as nat, bound);
        },
        StmtView::Function { name, params, body } => {
            let outer = define(declare(sigma, name.lexeme), name.lexeme);
            let value = Value::Callable {
                id: s.functions.len() as int,
                arity: params.len() as int,
            };
            lemma_declare_keeps(s, name, params, body);
            lemma_fits_declare(
                sigma,
                s.environment.scopes,
                s.environment.current,
                name.lexeme,
            );
            lemma_fits_define(declare(sigma, name.lexeme), s, name.lexeme, value);
            lemma_function_declared(s, sigma, inside, name, params, body, bound);
        },
        StmtView::Return { keyword, value } => match value {
            Some(expression) => {
                lemma_eval_sound(depth, s, sigma, expression, bound);
            },
            None => {},
        },
        StmtView::Class { name, methods } => {},
    }
}

/// The declaration of a function that keeps the rules leaves the functions
/// fitting: the new function fits the scopes of its declaration.
pub proof fn lemma_function_declared(
    s: State,
    sigma: Scopes,
    inside: FunctionType,
    name: TokenView,
    params: Seq<TokenView>,
    body: Seq<StmtView>,
    bound: int,
)
    requires
        ready(s, sigma, bound),
        all_defined(sigma),
        stmt_ok(sigma, inside, s.locals, StmtView::Function { name, params, body }) is Some,
        below(stmts_ids(body), bound),
    ensures
        functions_ok(s.declare(name, params, body), bound),
{
    let after = s.declare(name, params, body);
    let outer = define(declare(sigma, name.lexeme), name.lexeme);
    let value = Value::Callable { id: s.functions.len() as int, arity: params.len() as int };
    lemma_declare_keeps(s, name, params, body);
    lemma_kept_extends(s, after);
    lemma_fits_declare(sigma, s.environment.scopes, s.environment.current, name.lexeme);
    lemma_fits_define(declare(sigma, name.lexeme), s, name.lexeme, value);
    let new = FunctionView { name, params, body, closure: s.environment.current };
    assert(function_ok(after, new, outer, bound));
    reveal(functions_ok);
    assert forall|i: int| 0 <= i < after.functions.len() implies (
    #[trigger] after.functions[i] matches CallableView::Function(f) ==> exists|at: Scopes|
        function_ok(after, f, at, bound)) by {
        if i < s.functions.len() {
            match after.functions[i] {
                CallableView::Function(f) => {
                    assert(s.functions[i] == CallableView::Function(f));
                    let at = choose|at: Scopes| function_ok(s, f, at, bound);
                    lemma_fits_kept(at, s.environment, after.environment.scopes, f.closure);
                    assert(function_ok(after, f, at, bound));
                },
                _ => {},
            }
        } else {
            assert(after.functions[i] == CallableView::Function(new));
        }
    }
}

/// A loop finds every variable that it reads, however many rounds it runs.
pub proof fn lemma_exec_while_sound(
    depth: nat,
    s: State,
    sigma: Scopes,
    inside: FunctionType,
    stmt: StmtView,
    rounds: nat,
    bound: int,
)
    requires
        ready(s, sigma, bound),
        all_defined(sigma),
        stmt is While,
        stmt_ok(sigma, inside, s.locals, stmt) is Some,
        below(stmt_ids(stmt), bound),
    ensures
        functions_ok(exec_while(depth, s, stmt, rounds).0, bound),
        !unbound(exec_while(depth, s, stmt, rounds).1),
        inside == FunctionType::TopLevel ==> !escapes(exec_while(depth, s, stmt, rounds).1),
    decreases depth, 2nat, stmt, rounds,
{
    match stmt {
        StmtView::While { condition, body } => {
            lemma_below_parts(expr_ids(condition), stmt_ids(*body), bound);
            lemma_eval_sound(depth, s, sigma, condition, bound);
            let (s1, r) = eval(depth, s, condition);
            lemma_eval_keeps(depth, s, condition);
            lemma_ready_on(s, s1, sigma, bound);
            lemma_kept_extends(s, s1);
            match r {
                Ok(v) => {
                    if crate::object::truthy(v) && rounds > 0 {
                        lemma_exec_sound(depth, s1, sigma, inside, *body, bound);
                        let (s2, ended) = exec(depth, s1, *body);
                        lemma_exec_keeps(depth, s1, *body);
                        lemma_ready_on(s1, s2, sigma, bound);
                        lemma_kept_extends(s1, s2);
                        if ended is Ok {
                            lemma_exec_while_sound(
                                depth,
                                s2,
                                sigma,
                                inside,
                                stmt,
                                (rounds - 1) as nat,
            bound,
                            );
                        }
                    }
                },
                Err(_) => {},
            }
        },
        _ => {},
    }
}

/// In a program whose variables are filed as the rules of scoping say, a
/// list of statements finds every variable that it reads. Where it ends
/// normally, the chain of scopes fits the scopes behind the list.
pub proof fn lemma_exec_all_sound(
    depth: nat,
    s: State,
    sigma: Scopes,
    inside: FunctionType,
    list: Seq<StmtView>,
    bound: int,
)
    requires
        ready(s, sigma, bound),
        all_defined(sigma),
        stmts_ok(sigma, inside, s.locals, list) is Some,
        below(stmts_ids(list), bound),
    ensures
        functions_ok(exec_all(depth, s, list).0, bound),
        !unbound(exec_all(depth, s, list).1),
        inside == FunctionType::TopLevel ==> !escapes(exec_all(depth, s, list).1),
        exec_all(depth, s, list).1 is Ok ==> fits(
            stmts_ok(sigma, inside, s.locals, list)->0,
            exec_all(depth, s, list).0.environment.scopes,
            s.environment.current,
        ),
    decreases depth, 2nat, list, 0nat,
{
    if list.len() > 0 {
        lemma_below_parts(stmts_ids(list.drop_last()), stmt_ids(list.last()), bound);
        lemma_exec_all_sound(depth, s, sigma, inside, list.drop_last(), bound);
        let (s1, r) = exec_all(depth, s, list.drop_last());
        lemma_exec_all_keeps(depth, s, list.drop_last());
        lemma_kept_is_well_formed(s, s1);
        lemma_kept_extends(s, s1);
        let before = stmts_ok(sigma, inside, s.locals, list.drop_last())->0;
        lemma_stmts_ok_shape(sigma, inside, s.locals, list.drop_last());
        if r is Ok {
            lemma_exec_sound(depth, s1, before, inside, list.last(), bound);
        }
    }
}

} // verus!
