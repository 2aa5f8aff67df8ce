//! Laws of the language: what holds of every program and every state.

use crate::environment::ScopeView;
use crate::expression::ExprView;
use crate::interpreter::Signal;
use crate::lox::LoxView;
use crate::object::{literal_value, value_text, Value};
use crate::resolver::{
    bound_globally, lemma_resolve_stmts_fails, msg_already_defined, msg_own_initializer,
    resolve_stmt, resolve_stmts, FunctionType, Resolution,
};
use crate::semantics::{
    callable_arity, eval, eval_all, exec, exec_all, failure, msg_arity, msg_not_callable,
    msg_top_level_return, State,
};
use crate::statement::StmtView;
use crate::token::TokenView;
use vstd::prelude::*;

verus! {

/// Statements run in the order in which they stand.
///
/// A list made of two lists runs the first list and then, in the state that
/// the first has left, the second. If the first ends with a signal, that
/// ends the run and nothing of the second runs.
pub proof fn lemma_sequencing(depth: nat, s: State, first: Seq<StmtView>, second: Seq<StmtView>)
    ensures
        exec_all(depth, s, first + second) == ({
            let (s1, r) = exec_all(depth, s, first);
            match r {
                Ok(_) => exec_all(depth, s1, second),
                Err(x) => (s1, Err(x)),
            }
        }),
    decreases second.len(),
{
    let (s1, r) = exec_all(depth, s, first);
    if second.len() == 0 {
        assert(first + second =~= first);
        assert(exec_all(depth, s1, second) == (s1, Ok::<(), Signal>(())));
    } else {
        let whole = first + second;
        lemma_sequencing(depth, s, first, second.drop_last());
        assert(whole.drop_last() =~= first + second.drop_last());
        assert(whole.last() == second.last());
        let (a, b) = exec_all(depth, s, whole.drop_last());
        assert(exec_all(depth, s, whole) == match b {
            Ok(_) => exec(depth, a, whole.last()),
            Err(x) => (a, Err(x)),
        });
        match r {
            Ok(_) => {
                let (c, d) = exec_all(depth, s1, second.drop_last());
                assert(exec_all(depth, s1, second) == match d {
                    Ok(_) => exec(depth, c, second.last()),
                    Err(x) => (c, Err(x)),
                });
            },
            Err(_) => {},
        }
    }
    match r {
        Ok(u) => {
            assert(u == ());
            assert(exec_all(depth, s, first + second) == exec_all(depth, s1, second));
        },
        Err(x) => {
            assert(exec_all(depth, s, first + second) == (s1, Err::<(), Signal>(x)));
        },
    }
}

/// A list of one statement runs as the statement does.
pub proof fn lemma_single_statement(depth: nat, s: State, stmt: StmtView)
    ensures
        exec_all(depth, s, seq![stmt]) == exec(depth, s, stmt),
{
    reveal_with_fuel(exec_all, 2);
    assert(seq![stmt].drop_last() =~= Seq::<StmtView>::empty());
}

/// A statement that stands before a list runs before the list.
pub proof fn lemma_first_statement_runs_first(
    depth: nat,
    s: State,
    stmt: StmtView,
    rest: Seq<StmtView>,
)
    ensures
        exec_all(depth, s, seq![stmt] + rest) == ({
            let (s1, r) = exec(depth, s, stmt);
            match r {
                Ok(_) => exec_all(depth, s1, rest),
                Err(x) => (s1, Err(x)),
            }
        }),
{
    lemma_sequencing(depth, s, seq![stmt], rest);
    lemma_single_statement(depth, s, stmt);
}

/// A `return` does not leave an expression: the call of a function takes
/// up the signal with which `return` leaves the body, so that the
/// evaluation of an expression yields a value or fails, and nothing else.
pub proof fn lemma_eval_never_returns(depth: nat, s: State, e: ExprView)
    ensures
        !(eval(depth, s, e).1 matches Err(Signal::Return(_))),
    decreases e,
{
    match e {
        ExprView::Literal { literal } => {},
        ExprView::Grouping { expression } => {
            lemma_eval_never_returns(depth, s, *expression);
        },
        ExprView::Unary { operator, right } => {
            lemma_eval_never_returns(depth, s, *right);
        },
        ExprView::Binary { left, operator, right } => {
            lemma_eval_never_returns(depth, s, *left);
            lemma_eval_never_returns(depth, eval(depth, s, *left).0, *right);
        },
        ExprView::Logical { left, operator, right } => {
            lemma_eval_never_returns(depth, s, *left);
            lemma_eval_never_returns(depth, eval(depth, s, *left).0, *right);
        },
        ExprView::Variable { name, id } => {},
        ExprView::Assign { name, value, id } => {
            lemma_eval_never_returns(depth, s, *value);
        },
        ExprView::Call { callee, paren, arguments } => {
            lemma_eval_never_returns(depth, s, *callee);
            lemma_eval_all_never_returns(depth, eval(depth, s, *callee).0, arguments);
        },
        ExprView::Get { object, name } => {},
    }
}

/// A `return` does not leave a list of expressions.
pub proof fn lemma_eval_all_never_returns(depth: nat, s: State, list: Seq<ExprView>)
    ensures
        !(eval_all(depth, s, list).1 matches Err(Signal::Return(_))),
    decreases list,
{
    if list.len() > 0 {
        lemma_eval_all_never_returns(depth, s, list.drop_last());
        lemma_eval_never_returns(depth, eval_all(depth, s, list.drop_last()).0, list.last());
    }
}

/// `print` shows the value of its expression: it leaves the state that the
/// evaluation of the expression leaves, with the text of the value as one
/// more line. Where the evaluation fails, `print` fails in the same way and
/// prints nothing.
pub proof fn lemma_print_shows_value(depth: nat, s: State, e: ExprView)
    ensures
        exec(depth, s, StmtView::Print { expression: e }) == ({
            let (s1, r) = eval(depth, s, e);
            match r {
                Ok(v) => (s1.print(value_text(v)), Ok::<(), Signal>(())),
                Err(x) => (s1, Err::<(), Signal>(x)),
            }
        }),
{
}

/// A program that is one bare expression has the effect of the program
/// that prints the expression: where the expression has a value, the text
/// of the value is the line that either prints; where it has none, both
/// fail in the same way and print nothing.
pub proof fn lemma_bare_expression_prints_like_print(l: LoxView, depth: nat, e: ExprView)
    ensures
        l.run_statements(depth, seq![StmtView::Expression { expression: e }]) == l.run_statements(
            depth,
            seq![StmtView::Print { expression: e }],
        ),
        eval(depth, l.interpreter, e).1 matches Ok(v) ==> l.run_statements(
            depth,
            seq![StmtView::Expression { expression: e }],
        ) == l.with_interpreter(eval(depth, l.interpreter, e).0.print(value_text(v))),
{
    lemma_single_statement(depth, l.interpreter, StmtView::Print { expression: e });
    lemma_eval_never_returns(depth, l.interpreter, e);
}

/// A call of a value that is no callable fails: with the error of calling
/// what cannot be called if the arguments have values, and with the error
/// of the arguments if they have none.
pub proof fn lemma_call_of_non_callable(
    depth: nat,
    s: State,
    callee: ExprView,
    paren: TokenView,
    arguments: Seq<ExprView>,
)
    requires
        eval(depth, s, callee).1 matches Ok(v) && !(v is Callable),
    ensures
        eval(depth, s, ExprView::Call { callee: Box::new(callee), paren, arguments }).1 is Err,
        eval_all(depth, eval(depth, s, callee).0, arguments).1 is Ok ==> eval(
            depth,
            s,
            ExprView::Call { callee: Box::new(callee), paren, arguments },
        ) == (
            eval_all(depth, eval(depth, s, callee).0, arguments).0,
            Err::<Value, Signal>(failure(msg_not_callable())),
        ),
{
}

/// A call with more or with fewer arguments than the callable takes fails
/// with the error of a wrong number of arguments, and runs nothing of the
/// callable.
pub proof fn lemma_call_with_wrong_arity(
    depth: nat,
    s: State,
    callee: ExprView,
    paren: TokenView,
    arguments: Seq<ExprView>,
)
    requires
        eval(depth, s, callee).1 matches Ok(v) && v is Callable,
        eval_all(depth, eval(depth, s, callee).0, arguments).1 is Ok,
        ({
            let id = eval(depth, s, callee).1->Ok_0->id;
            let (s2, values) = eval_all(depth, eval(depth, s, callee).0, arguments);
            0 <= id < s2.functions.len() && values->Ok_0.len() != callable_arity(s2.functions[id])
        }),
    ensures
        eval(depth, s, ExprView::Call { callee: Box::new(callee), paren, arguments }) == (
            eval_all(depth, eval(depth, s, callee).0, arguments).0,
            Err::<Value, Signal>(failure(msg_arity())),
        ),
{
}

/// The tokens of every source text end with the token that marks the end,
/// so that the parser can read them.
pub proof fn lemma_scan_ends_with_end_token(source: Seq<char>)
    ensures
        crate::grammar::well_formed(crate::lox::scan(source).tokens),
        crate::lox::scan(source).tokens.last().lexeme == Seq::<char>::empty(),
        crate::lox::scan(source).tokens.last().literal is None,
{
}

/// A variable that is declared in a block and initialized with a literal
/// touches no scope that was there before the block: when the block is
/// left, every scope binds what it bound, and the program stands where it
/// stood. The new scope alone binds the name.
pub proof fn lemma_shadowing(
    depth: nat,
    s: State,
    name: TokenView,
    literal: crate::literal::LiteralView,
)
    ensures
        exec(
            depth,
            s,
            StmtView::Block {
                statements: seq![
                    StmtView::Variable {
                        name,
                        initializer: Some(ExprView::Literal { literal }),
                    },
                ],
            },
        ) == (
            s.with_environment(
                crate::environment::EnvironmentView {
                    scopes: s.environment.scopes.push(
                        ScopeView {
                            values: Map::empty().insert(name.lexeme, literal_value(literal)),
                            enclosing: Some(s.environment.current),
                        },
                    ),
                    current: s.environment.current,
                },
            ),
            Ok::<(), Signal>(()),
        ),
{
    let declaration = StmtView::Variable {
        name,
        initializer: Some(ExprView::Literal { literal }),
    };
    let entered = s.enter_block();
    lemma_single_statement(depth, entered, declaration);
    assert(eval(depth, entered, ExprView::Literal { literal }) == (
        entered,
        Ok::<Value, Signal>(literal_value(literal)),
    ));
    let declared = entered.with_environment(
        entered.environment.define(name.lexeme, literal_value(literal)),
    );
    assert(exec(depth, entered, declaration) == (declared, Ok::<(), Signal>(())));
    let (after, done) = exec(depth, s, StmtView::Block { statements: seq![declaration] });
    assert(after == declared.at(s.environment.current));
    let expected = s.environment.scopes.push(
        ScopeView {
            values: Map::empty().insert(name.lexeme, literal_value(literal)),
            enclosing: Some(s.environment.current),
        },
    );
    assert(entered.environment.current == s.environment.scopes.len());
    assert(after.environment.scopes =~= expected);
}

/// A declaration in a block changes nothing but the scope in which the
/// program stands when the initializer has been evaluated: every other
/// scope is as the evaluation left it.
pub proof fn lemma_block_declaration_is_local(
    depth: nat,
    s: State,
    name: TokenView,
    initializer: ExprView,
    k: int,
)
    requires
        eval(depth, s.enter_block(), initializer).1 is Ok,
        0 <= k < eval(depth, s.enter_block(), initializer).0.environment.scopes.len(),
        k != eval(depth, s.enter_block(), initializer).0.environment.current,
        eval(depth, s.enter_block(), initializer).0.environment.wf(),
    ensures
        ({
            let (after, done) = exec(
                depth,
                s,
                StmtView::Block {
                    statements: seq![StmtView::Variable { name, initializer: Some(initializer) }],
                },
            );
            let evaluated = eval(depth, s.enter_block(), initializer).0;
            &&& done is Ok
            &&& after.environment.current == s.environment.current
            &&& after.environment.scopes.len() == evaluated.environment.scopes.len()
            &&& after.environment.scopes[k] == evaluated.environment.scopes[k]
        }),
{
    let declaration = StmtView::Variable { name, initializer: Some(initializer) };
    let entered = s.enter_block();
    lemma_single_statement(depth, entered, declaration);
    let (evaluated, value) = eval(depth, entered, initializer);
    let declared = evaluated.with_environment(
        evaluated.environment.define(name.lexeme, value->Ok_0),
    );
    assert(exec(depth, entered, declaration) == (declared, Ok::<(), Signal>(())));
    let (after, done) = exec(depth, s, StmtView::Block { statements: seq![declaration] });
    assert(after == declared.at(s.environment.current));
}

/// A variable whose initializer is the variable itself does not resolve.
///
/// Inside a block or a function: where the innermost scope does not declare
/// the name yet, the initializer reads it before it is initialized; where it
/// does, the name is declared twice. At the top level, where no name has
/// come before it: where the global scope does not bind the name and the
/// program has not initialized it at its top level, the initializer reads
/// it before it is initialized.
pub proof fn lemma_own_initializer(r: Resolution, name: TokenView, reference: TokenView, id: usize)
    requires
        reference.lexeme == name.lexeme,
        r.scopes.len() == 0 ==> !bound_globally(r.interpreter, name.lexeme) && !(
        r.globals.dom().contains(name.lexeme) && r.globals[name.lexeme]),
    ensures
        resolve_stmt(
            r,
            StmtView::Variable {
                name,
                initializer: Some(ExprView::Variable { name: reference, id }),
            },
        ).1 == Err::<(), Signal>(
            if r.scopes.len() > 0 && r.scopes.last().dom().contains(name.lexeme) {
                failure(msg_already_defined())
            } else {
                failure(msg_own_initializer())
            },
        ),
{
}

/// A program that begins with a variable whose initializer is the variable
/// itself does not resolve for a new interpreter, whatever follows.
pub proof fn lemma_own_initializer_at_the_start(
    name: TokenView,
    reference: TokenView,
    id: usize,
    rest: Seq<StmtView>,
)
    requires
        reference.lexeme == name.lexeme,
        name.lexeme != "Clock"@,
    ensures
        resolve_stmts(
            Resolution {
                interpreter: State::initial(),
                scopes: Seq::empty(),
                current_function: FunctionType::TopLevel,
                globals: Map::empty(),
            },
            seq![
                StmtView::Variable {
                    name,
                    initializer: Some(ExprView::Variable { name: reference, id }),
                },
            ] + rest,
        ).1 == Err::<(), Signal>(failure(msg_own_initializer())),
{
    let r = Resolution {
        interpreter: State::initial(),
        scopes: Seq::empty(),
        current_function: FunctionType::TopLevel,
        globals: Map::empty(),
    };
    let first = StmtView::Variable {
        name,
        initializer: Some(ExprView::Variable { name: reference, id }),
    };
    lemma_own_initializer(r, name, reference, id);
    assert(seq![first].drop_last() =~= Seq::<StmtView>::empty());
    assert(resolve_stmts(r, seq![first]).1 == resolve_stmt(r, first).1) by {
        reveal_with_fuel(resolve_stmts, 2);
    }
    let whole = seq![first] + rest;
    assert(whole.take(1) =~= seq![first]);
    lemma_resolve_stmts_fails(r, whole, 1);
}

/// A `return` outside of every function does not resolve, and the resolver
/// is left as it was.
pub proof fn lemma_top_level_return(r: Resolution, keyword: TokenView, value: Option<ExprView>)
    requires
        r.current_function == FunctionType::TopLevel,
    ensures
        resolve_stmt(r, StmtView::Return { keyword, value }) == (
            r,
            Err::<(), Signal>(failure(msg_top_level_return())),
        ),
{
}

/// A program does not resolve if a `return` stands at its top level behind
/// statements that resolve.
pub proof fn lemma_program_with_top_level_return(
    r: Resolution,
    before: Seq<StmtView>,
    keyword: TokenView,
    value: Option<ExprView>,
    after: Seq<StmtView>,
)
    requires
        resolve_stmts(r, before).1 is Ok,
        resolve_stmts(r, before).0.current_function == FunctionType::TopLevel,
    ensures
        resolve_stmts(r, before + seq![StmtView::Return { keyword, value }] + after).1 == Err::<
            (),
            Signal,
        >(failure(msg_top_level_return())),
{
    let stmt = StmtView::Return { keyword, value };
    let upto = before + seq![stmt];
    assert(upto.drop_last() =~= before);
    assert(upto.last() == stmt);
    lemma_top_level_return(resolve_stmts(r, before).0, keyword, value);
    assert(resolve_stmts(r, upto).1 == Err::<(), Signal>(failure(msg_top_level_return())));
    let list = upto + after;
    assert(list.take(upto.len() as int) =~= upto);
    crate::resolver::lemma_resolve_stmts_fails(r, list, upto.len() as int);
}


/// A function reads the variables of the scope of its declaration as they
/// are when it is called, not as they were when it was declared: a function
/// without parameters whose body returns a variable that the resolver found
/// one scope around the body hands back what the scope of the declaration
/// binds to the name in the state of the call.
pub proof fn lemma_call_reads_scope_of_declaration(
    depth: nat,
    s: State,
    f: crate::semantics::FunctionView,
    keyword: TokenView,
    name: TokenView,
    id: usize,
)
    requires
        depth > 0,
        0 <= f.closure < s.environment.scopes.len(),
        f.params.len() == 0,
        f.body == seq![
            StmtView::Return { keyword, value: Some(ExprView::Variable { name, id }) },
        ],
        s.locals.dom().contains(id),
        s.locals[id] == 1,
        s.environment.scopes[f.closure].values.dom().contains(name.lexeme),
    ensures
        crate::semantics::call_function(depth, s, f, Seq::empty()) == (
            s.with_environment(s.environment.child_of(f.closure)),
            Ok::<Option<Value>, Signal>(
                Some(s.environment.scopes[f.closure].values[name.lexeme]),
            ),
        ),
{
    let entered = s.enter_call(f, Seq::empty());
    let scope = s.environment.scopes.len() as int;
    assert(entered == s.with_environment(s.environment.child_of(f.closure).at(scope)));
    let node = ExprView::Variable { name, id };
    let ret = StmtView::Return { keyword, value: Some(node) };
    lemma_single_statement((depth - 1) as nat, entered, ret);
    let scopes = entered.environment.scopes;
    assert(scopes[scope].enclosing == Some(f.closure));
    assert(crate::environment::ancestor(scopes, f.closure, 0) == Some(f.closure));
    assert(crate::environment::ancestor(scopes, scope, 1) == Some(f.closure));
    assert(scopes[f.closure] == s.environment.scopes[f.closure]);
    let value = s.environment.scopes[f.closure].values[name.lexeme];
    assert(entered.look_up(name.lexeme, node) == Ok::<Value, Signal>(value));
    assert(eval((depth - 1) as nat, entered, node) == (entered, Ok::<Value, Signal>(value)));
    assert(exec((depth - 1) as nat, entered, ret) == (
        entered,
        Err::<(), Signal>(Signal::Return(Some(value))),
    ));
}

/// A function writes the variables of the scope of its declaration: a
/// function without parameters whose body assigns a literal to a name that
/// the scope of its declaration binds leaves that scope with the name bound
/// to the value of the literal, for every later reader.
pub proof fn lemma_call_writes_scope_of_declaration(
    depth: nat,
    s: State,
    f: crate::semantics::FunctionView,
    name: TokenView,
    id: usize,
    literal: crate::literal::LiteralView,
)
    requires
        depth > 0,
        0 <= f.closure < s.environment.scopes.len(),
        f.params.len() == 0,
        f.body == seq![
            StmtView::Expression {
                expression: ExprView::Assign {
                    name,
                    value: Box::new(ExprView::Literal { literal }),
                    id,
                },
            },
        ],
        s.environment.scopes[f.closure].values.dom().contains(name.lexeme),
    ensures
        ({
            let (after, handed) = crate::semantics::call_function(depth, s, f, Seq::empty());
            &&& handed == Ok::<Option<Value>, Signal>(Some(Value::Nil))
            &&& after.environment.current == s.environment.current
            &&& after.environment.scopes.len() == s.environment.scopes.len() + 1
            &&& after.environment.scopes[f.closure].values
                == s.environment.scopes[f.closure].values.insert(
                name.lexeme,
                literal_value(literal),
            )
        }),
{
    let entered = s.enter_call(f, Seq::empty());
    let scope = s.environment.scopes.len() as int;
    assert(entered == s.with_environment(s.environment.child_of(f.closure).at(scope)));
    let value = literal_value(literal);
    let node = ExprView::Assign { name, value: Box::new(ExprView::Literal { literal }), id };
    let stmt = StmtView::Expression { expression: node };
    lemma_single_statement((depth - 1) as nat, entered, stmt);
    let scopes = entered.environment.scopes;
    assert(!scopes[scope].values.dom().contains(name.lexeme));
    assert(scopes[scope].enclosing == Some(f.closure));
    assert(scopes[f.closure] == s.environment.scopes[f.closure]);
    assert(crate::environment::owner(scopes, f.closure, name.lexeme) == Some(
        f.closure,
    ));
    assert(crate::environment::owner(scopes, scope, name.lexeme) == Some(f.closure));
    assert(eval((depth - 1) as nat, entered, ExprView::Literal { literal }) == (
        entered,
        Ok::<Value, Signal>(value),
    ));
    let written = entered.with_environment(
        entered.environment.bind(f.closure, name.lexeme, value),
    );
    assert(eval((depth - 1) as nat, entered, node) == (written, Ok::<Value, Signal>(value)));
    assert(exec((depth - 1) as nat, entered, stmt) == (written, Ok::<(), Signal>(())));
}

/// A function can call itself by its name: the resolver defines the name of
/// a function before it resolves the body, so that a call of the name in
/// the body of a function that is declared in a block resolves, and is
/// filed one scope around the body.
pub proof fn lemma_function_can_name_itself(
    r: Resolution,
    name: TokenView,
    reference: TokenView,
    id: usize,
    paren: TokenView,
)
    requires
        r.scopes.len() > 0,
        !r.scopes.last().dom().contains(name.lexeme),
        reference.lexeme == name.lexeme,
    ensures
        ({
            let (resolved, done) = resolve_stmt(
                r,
                StmtView::Function {
                    name,
                    params: Seq::empty(),
                    body: seq![
                        StmtView::Expression {
                            expression: ExprView::Call {
                                callee: Box::new(ExprView::Variable { name: reference, id }),
                                paren,
                                arguments: Seq::empty(),
                            },
                        },
                    ],
                },
            );
            &&& done is Ok
            &&& resolved.interpreter.locals == r.interpreter.locals.insert(id, 1)
            &&& resolved.current_function == r.current_function
            &&& resolved.scopes.len() == r.scopes.len()
        }),
{
    let callee = ExprView::Variable { name: reference, id };
    let call = ExprView::Call { callee: Box::new(callee), paren, arguments: Seq::empty() };
    let stmt = StmtView::Expression { expression: call };
    let body = seq![stmt];
    let declared = r.declare(name.lexeme).0.define(name.lexeme);
    let entered = declared.within(FunctionType::Function).begin_scope();
    assert(crate::resolver::declare_params(entered, Seq::empty()) == (
        entered,
        Ok::<(), Signal>(()),
    ));
    assert(body.drop_last() =~= Seq::<StmtView>::empty());
    assert(resolve_stmts(entered, body.drop_last()) == (entered, Ok::<(), Signal>(())));
    assert(resolve_stmts(entered, body) == resolve_stmt(entered, stmt)) by {
        reveal_with_fuel(resolve_stmts, 2);
    }
    let depth = entered.scopes.len() as int;
    assert(entered.scopes.last() == Map::<Seq<char>, bool>::empty());
    assert(!entered.in_own_initializer(name.lexeme));
    assert(entered.scopes[depth - 2].dom().contains(name.lexeme));
    assert(crate::resolver::innermost(entered.scopes, name.lexeme, depth - 1) == Some(depth - 2));
    assert(crate::resolver::innermost(entered.scopes, name.lexeme, depth) == Some(depth - 2));
    let filed = entered.resolve_local(callee, name.lexeme);
    assert(crate::resolver::resolve_expr(entered, callee) == (filed, Ok::<(), Signal>(())));
    assert(crate::resolver::resolve_exprs(filed, Seq::empty()) == (filed, Ok::<(), Signal>(())));
    assert(crate::resolver::resolve_expr(entered, call) == (filed, Ok::<(), Signal>(())));
    assert(filed.end_scope().scopes =~= declared.scopes);
    assert(resolve_stmts(entered, body) == (filed, Ok::<(), Signal>(())));
    let left = filed.end_scope().within(declared.current_function);
    assert(crate::resolver::resolve_function(
        declared,
        Seq::empty(),
        body,
        FunctionType::Function,
    ) == (left, Ok::<(), Signal>(())));
    assert(r.declare(name.lexeme).1 is Ok);
    assert(resolve_stmt(r, StmtView::Function { name, params: Seq::empty(), body }) == (
        left,
        Ok::<(), Signal>(()),
    ));
    assert(left.interpreter.locals == r.interpreter.locals.insert(id, 1));
}

} // verus!
