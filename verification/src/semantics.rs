//! What a program means: the state of the interpreter as a mathematical
//! value, and the result of each expression and statement as a function of
//! the state in which it runs.

use crate::environment::EnvironmentView;
use crate::expression::ExprView;
use crate::interpreter::Signal;
use crate::lox_error::LoxErrorView;
use crate::object::{
    literal_value, msg_divide_by_zero, quotient, truthy, value_text, wrap, Value,
};
use crate::statement::StmtView;
use crate::token::TokenView;
use crate::token_type::TokenType;
use vstd::prelude::*;

verus! {

/// A function that a program declared: its text, and the scope in which it
/// was declared.
pub struct FunctionView {
    pub name: TokenView,
    pub params: Seq<TokenView>,
    pub body: Seq<StmtView>,
    pub closure: int,
}

/// What a callable value names: the built-in clock, or a declared function.
pub enum CallableView {
    Clock,
    Function(FunctionView),
}

/// The state of the interpreter.
pub struct State {
    /// The chain of scopes; its first scope holds the globals.
    pub environment: EnvironmentView,
    /// The scope distance filed for each resolved variable node.
    pub locals: Map<usize, int>,
    /// The callables made so far; a callable value names one by its place.
    pub functions: Seq<CallableView>,
    /// The lines printed so far.
    pub output: Seq<Seq<char>>,
    /// What the clock shows.
    pub clock: i32,
    /// How many times one loop may run its body.
    pub loop_limit: u64,
}

/// The message for a left operand of the wrong kind.
pub open spec fn msg_left_operand() -> Seq<char> {
    "Make sure the left operand is a number."@
}

/// The message for a right operand that is no number.
pub open spec fn msg_right_operand() -> Seq<char> {
    "Make sure right operand is a number"@
}

/// The message for a right operand that is no text.
pub open spec fn msg_right_operand_string() -> Seq<char> {
    "Make sure right operand is a string"@
}

/// The message for a token that is no operator.
pub open spec fn msg_unknown_operator() -> Seq<char> {
    "Unknown operator."@
}

/// The message for a negation of what is no number.
pub open spec fn msg_unary_operand() -> Seq<char> {
    "Operand must be a number."@
}

/// The message for a call with the wrong number of arguments.
pub open spec fn msg_arity() -> Seq<char> {
    "Wrong number of arguments."@
}

/// The message for a call of what is no callable.
pub open spec fn msg_not_callable() -> Seq<char> {
    "Can only call functions and classes."@
}

/// The message for a property access.
pub open spec fn msg_properties() -> Seq<char> {
    "Only instances have properties."@
}

/// The message for a class declaration.
pub open spec fn msg_classes() -> Seq<char> {
    "Classes are not supported."@
}

/// The message for calls that nest too deep.
pub open spec fn msg_depth() -> Seq<char> {
    "Stack overflow."@
}

/// The message for a loop that runs too long.
pub open spec fn msg_loop_limit() -> Seq<char> {
    "Loop limit reached."@
}

/// The message for a `return` outside of every function.
pub open spec fn msg_top_level_return() -> Seq<char> {
    "Can't return from top-level code"@
}

/// The failure of a run with the given message.
pub open spec fn failure(message: Seq<char>) -> Signal {
    Signal::Error(LoxErrorView::RuntimeError(message))
}

/// What a binary operator makes of two values.
///
/// The arithmetic and comparison operators take two numbers; `+` also takes
/// two texts and joins them. Arithmetic wraps to 32 bits, and a division by
/// zero fails. An operand of the wrong kind fails with a message that tells
/// which operand it is.
pub open spec fn binary_value(op: TokenType, left: Value, right: Value) -> Result<Value, Signal> {
    match op {
        TokenType::PLUS => match left {
            Value::Number(x) => match right {
                Value::Number(y) => Ok(Value::Number(wrap(x + y))),
                _ => Err(failure(msg_right_operand())),
            },
            Value::Str(x) => match right {
                Value::Str(y) => Ok(Value::Str(x + y)),
                _ => Err(failure(msg_right_operand_string())),
            },
            _ => Err(failure(msg_left_operand())),
        },
        TokenType::MINUS | TokenType::SLASH | TokenType::STAR | TokenType::GREATER
        | TokenType::GREATER_EQUAL | TokenType::LESS | TokenType::LESS_EQUAL
        | TokenType::EQUAL_EQUAL | TokenType::BANG_EQUAL => match left {
            Value::Number(x) => match right {
                Value::Number(y) => match op {
                    TokenType::MINUS => Ok(Value::Number(wrap(x - y))),
                    TokenType::STAR => Ok(Value::Number(wrap(x * y))),
                    TokenType::SLASH => if y == 0 {
                        Err(failure(msg_divide_by_zero()))
                    } else {
                        Ok(Value::Number(wrap(quotient(x as int, y as int))))
                    },
                    TokenType::GREATER => Ok(Value::Boolean(x > y)),
                    TokenType::GREATER_EQUAL => Ok(Value::Boolean(x >= y)),
                    TokenType::LESS => Ok(Value::Boolean(x < y)),
                    TokenType::LESS_EQUAL => Ok(Value::Boolean(x <= y)),
                    TokenType::EQUAL_EQUAL => Ok(Value::Boolean(x == y)),
                    _ => Ok(Value::Boolean(x != y)),
                },
                _ => Err(failure(msg_right_operand())),
            },
            _ => Err(failure(msg_left_operand())),
        },
        _ => Err(failure(msg_unknown_operator())),
    }
}

/// What a unary operator makes of a value: `-` the negative of a number,
/// wrapped to 32 bits; `!` the opposite of its truth.
pub open spec fn unary_value(op: TokenType, right: Value) -> Result<Value, Signal> {
    match op {
        TokenType::MINUS => match right {
            Value::Number(n) => Ok(Value::Number(wrap(-n))),
            _ => Err(failure(msg_unary_operand())),
        },
        TokenType::BANG => Ok(Value::Boolean(!truthy(right))),
        _ => Err(failure(msg_unknown_operator())),
    }
}

/// The number under which the resolver files a node: only a variable and an
/// assignment have one.
pub open spec fn node_id(e: ExprView) -> Option<usize> {
    match e {
        ExprView::Variable { name, id } => Some(id),
        ExprView::Assign { name, value, id } => Some(id),
        _ => None,
    }
}

impl State {
    /// The state of a new interpreter: the global scope binds `Clock` to the
    /// built-in clock, nothing is resolved and nothing was printed.
    pub open spec fn initial() -> State {
        State {
            environment: EnvironmentView::initial().define(
                "Clock"@,
                Value::Callable { id: 0, arity: 0 },
            ),
            locals: Map::empty(),
            functions: seq![CallableView::Clock],
            output: Seq::empty(),
            clock: 0,
            loop_limit: u64::MAX,
        }
    }

    /// The state with another chain of scopes.
    pub open spec fn with_environment(self, environment: EnvironmentView) -> State {
        State { environment, ..self }
    }

    /// The state with `scope` as its current scope.
    pub open spec fn at(self, scope: int) -> State {
        self.with_environment(self.environment.at(scope))
    }

    /// The state after one more line was printed.
    pub open spec fn print(self, line: Seq<char>) -> State {
        State { output: self.output.push(line), ..self }
    }

    /// The state in which the node `id` is filed with `distance`.
    pub open spec fn resolve_local(self, e: ExprView, distance: int) -> State {
        match node_id(e) {
            Some(id) => State { locals: self.locals.insert(id, distance), ..self },
            None => self,
        }
    }

    /// Every declared function lies in a scope that exists.
    pub open spec fn wf(self) -> bool {
        &&& self.environment.wf()
        &&& forall|i: int|
            0 <= i < self.functions.len() ==> (#[trigger] self.functions[i] matches CallableView::Function(f)
                ==> 0 <= f.closure < self.environment.scopes.len())
    }

    /// What the variable node `e` with the name `name` stands for.
    ///
    /// A node that the resolver filed is read at its distance from the
    /// current scope. Any other is read in the global scope, where a name
    /// that is not bound stands for `nil`.
    pub open spec fn look_up(self, name: Seq<char>, e: ExprView) -> Result<Value, Signal> {
        match node_id(e) {
            Some(id) => if self.locals.dom().contains(id) {
                self.environment.get_at(self.locals[id] as nat, name)
            } else {
                Ok(self.environment.get(name))
            },
            None => Ok(self.environment.get(name)),
        }
    }

    /// The state after what the right side of an assignment yielded was
    /// given to `name`, and what the assignment yields: the value, unless the
    /// right side failed or no scope binds the name.
    pub open spec fn store(self, name: Seq<char>, yielded: Result<Value, Signal>) -> (
        State,
        Result<Value, Signal>,
    ) {
        match yielded {
            Ok(v) => match self.environment.assign(name, v) {
                Ok(environment) => (self.with_environment(environment), Ok(v)),
                Err(x) => (self, Err(x)),
            },
            Err(x) => (self, Err(x)),
        }
    }

    /// The state after the function was declared in the current scope, under
    /// its name.
    pub open spec fn declare(self, name: TokenView, params: Seq<TokenView>, body: Seq<StmtView>) -> State {
        let function = FunctionView { name, params, body, closure: self.environment.current };
        let value = Value::Callable {
            id: self.functions.len() as int,
            arity: params.len() as int,
        };
        State {
            functions: self.functions.push(CallableView::Function(function)),
            environment: self.environment.define(name.lexeme, value),
            ..self
        }
    }

    /// What a call of `callee` with `count` arguments runs: the callable that
    /// the value names, if it is one and takes that many arguments.
    pub open spec fn callable(self, callee: Value, count: nat) -> Result<CallableView, Signal> {
        match callee {
            Value::Callable { id, arity } => if id < 0 || id >= self.functions.len() {
                Err(failure(msg_not_callable()))
            } else if count != callable_arity(self.functions[id]) {
                Err(failure(msg_arity()))
            } else {
                Ok(self.functions[id])
            },
            _ => Err(failure(msg_not_callable())),
        }
    }

    /// The state at the start of the body of `f`: a new scope inside the
    /// scope of its declaration binds each parameter to its argument and is
    /// the current scope.
    pub open spec fn enter_call(self, f: FunctionView, arguments: Seq<Value>) -> State {
        let scope = self.environment.scopes.len() as int;
        self.with_environment(
            bind_params(self.environment.child_of(f.closure).at(scope), f.params, arguments),
        )
    }

    /// The state at the start of a block: a new, empty scope inside the
    /// current one is the current scope.
    pub open spec fn enter_block(self) -> State {
        let scope = self.environment.scopes.len() as int;
        self.with_environment(self.environment.child_of(self.environment.current).at(scope))
    }
}

/// The number of arguments that a callable takes.
pub open spec fn callable_arity(c: CallableView) -> nat {
    match c {
        CallableView::Clock => 0,
        CallableView::Function(f) => f.params.len(),
    }
}

/// The chain after each of the first parameters was bound, in order, to the
/// argument at its place, in the current scope.
pub open spec fn bind_params(
    environment: EnvironmentView,
    params: Seq<TokenView>,
    arguments: Seq<Value>,
) -> EnvironmentView
    decreases params.len(),
{
    if params.len() == 0 || arguments.len() < params.len() {
        environment
    } else {
        bind_params(environment, params.drop_last(), arguments).define(
            params.last().lexeme,
            arguments[params.len() - 1],
        )
    }
}

/// What a call hands back, given how the body of the function ended: the
/// value that it returned, nothing if it returned without a value, `nil` if
/// it ran to its end, and any other signal as it is. The current scope is
/// again that of the caller.
pub open spec fn leave_call(caller: State, after: State, ended: Result<(), Signal>) -> (
    State,
    Result<Option<Value>, Signal>,
) {
    let state = after.at(caller.environment.current);
    match ended {
        Ok(_) => (state, Ok(Some(Value::Nil))),
        Err(Signal::Return(v)) => (state, Ok(v)),
        Err(other) => (state, Err(other)),
    }
}

/// The value of a call: a call that hands back nothing has the value `nil`.
pub open spec fn call_value(handed: Result<Option<Value>, Signal>) -> Result<Value, Signal> {
    match handed {
        Ok(Some(v)) => Ok(v),
        Ok(None) => Ok(Value::Nil),
        Err(x) => Err(x),
    }
}

/// The value of an expression and the state after its evaluation, in a
/// state in which `depth` more calls may be nested.
pub open spec fn eval(depth: nat, s: State, e: ExprView) -> (State, Result<Value, Signal>)
    decreases depth, 0nat, e, 0nat,
{
    match e {
        ExprView::Literal { literal } => (s, Ok(literal_value(literal))),
        ExprView::Grouping { expression } => eval(depth, s, *expression),
        ExprView::Unary { operator, right } => {
            let (s1, r) = eval(depth, s, *right);
            match r {
                Ok(v) => (s1, unary_value(operator.of_type, v)),
                Err(x) => (s1, Err(x)),
            }
        },
        ExprView::Binary { left, operator, right } => {
            let (s1, l) = eval(depth, s, *left);
            match l {
                Ok(lv) => {
                    let (s2, r) = eval(depth, s1, *right);
                    match r {
                        Ok(rv) => (s2, binary_value(operator.of_type, lv, rv)),
                        Err(x) => (s2, Err(x)),
                    }
                },
                Err(x) => (s1, Err(x)),
            }
        },
        ExprView::Logical { left, operator, right } => {
            let (s1, l) = eval(depth, s, *left);
            match l {
                Ok(lv) => if (operator.of_type == TokenType::OR) == truthy(lv) {
                    (s1, Ok(lv))
                } else {
                    eval(depth, s1, *right)
                },
                Err(x) => (s1, Err(x)),
            }
        },
        ExprView::Variable { name, id } => (s, s.look_up(name.lexeme, e)),
        ExprView::Assign { name, value, id } => {
            let (s1, r) = eval(depth, s, *value);
            s1.store(name.lexeme, r)
        },
        ExprView::Call { callee, paren, arguments } => {
            let (s1, c) = eval(depth, s, *callee);
            match c {
                Ok(cv) => {
                    let (s2, a) = eval_all(depth, s1, arguments);
                    match a {
                        Ok(values) => match s2.callable(cv, values.len()) {
                            Ok(CallableView::Clock) => (s2, Ok(Value::Number(s2.clock))),
                            Ok(CallableView::Function(f)) => if depth == 0 {
                                (s2, Err(failure(msg_depth())))
                            } else {
                                let (s3, ended) = exec_all(
                                    (depth - 1) as nat,
                                    s2.enter_call(f, values),
                                    f.body,
                                );
                                let (s4, handed) = leave_call(s2, s3, ended);
                                (s4, call_value(handed))
                            },
                            Err(x) => (s2, Err(x)),
                        },
                        Err(x) => (s2, Err(x)),
                    }
                },
                Err(x) => (s1, Err(x)),
            }
        },
        ExprView::Get { object, name } => (s, Err(failure(msg_properties()))),
    }
}

/// The values of the expressions of a list, evaluated from the first to the
/// last, and the state after them. The first that fails ends the evaluation.
pub open spec fn eval_all(depth: nat, s: State, list: Seq<ExprView>) -> (State, Result<Seq<Value>, Signal>)
    decreases depth, 0nat, list, 0nat,
{
    if list.len() == 0 {
        (s, Ok(Seq::empty()))
    } else {
        let (s1, r) = eval_all(depth, s, list.drop_last());
        match r {
            Ok(values) => {
                let (s2, v) = eval(depth, s1, list.last());
                match v {
                    Ok(value) => (s2, Ok(values.push(value))),
                    Err(x) => (s2, Err(x)),
                }
            },
            Err(x) => (s1, Err(x)),
        }
    }
}

/// The state after a statement ran, and how it ended: normally, or with a
/// signal.
pub open spec fn exec(depth: nat, s: State, stmt: StmtView) -> (State, Result<(), Signal>)
    decreases depth, 1nat, stmt, s.loop_limit + 1,
{
    match stmt {
        StmtView::Expression { expression } => {
            let (s1, r) = eval(depth, s, expression);
            match r {
                Ok(_) => (s1, Ok(())),
                Err(x) => (s1, Err(x)),
            }
        },
        StmtView::Print { expression } => {
            let (s1, r) = eval(depth, s, expression);
            match r {
                Ok(v) => (s1.print(value_text(v)), Ok(())),
                Err(x) => (s1, Err(x)),
            }
        },
        StmtView::Variable { name, initializer } => match initializer {
            Some(expression) => {
                let (s1, r) = eval(depth, s, expression);
                match r {
                    Ok(v) => (s1.with_environment(s1.environment.define(name.lexeme, v)), Ok(())),
                    Err(x) => (s1, Err(x)),
                }
            },
            None => (s.with_environment(s.environment.define(name.lexeme, Value::Nil)), Ok(())),
        },
        StmtView::Block { statements } => {
            let (s1, r) = exec_all(depth, s.enter_block(), statements);
            (s1.at(s.environment.current), r)
        },
        StmtView::If { condition, then_branch, else_branch } => {
            let (s1, r) = eval(depth, s, condition);
            match r {
                Ok(v) => if truthy(v) {
                    exec(depth, s1, *then_branch)
                } else {
                    match else_branch {
                        Some(other) => exec(depth, s1, *other),
                        None => (s1, Ok(())),
                    }
                },
                Err(x) => (s1, Err(x)),
            }
        },
        StmtView::While { condition, body } => exec_while(depth, s, stmt, s.loop_limit as nat),
        StmtView::Function { name, params, body } => (s.declare(name, params, body), Ok(())),
        StmtView::Return { keyword, value } => match value {
            Some(expression) => {
                let (s1, r) = eval(depth, s, expression);
                match r {
                    Ok(v) => (s1, Err(Signal::Return(Some(v)))),
                    Err(x) => (s1, Err(x)),
                }
            },
            None => (s, Err(Signal::Return(None))),
        },
        StmtView::Class { name, methods } => (s, Err(failure(msg_classes()))),
    }
}

/// The state after the loop `stmt` ran while its condition held, at most
/// `rounds` times, and how it ended. A loop whose condition still holds
/// after `rounds` rounds fails.
pub open spec fn exec_while(depth: nat, s: State, stmt: StmtView, rounds: nat) -> (State, Result<(), Signal>)
    decreases depth, 1nat, stmt, rounds,
{
    match stmt {
        StmtView::While { condition, body } => {
            let (s1, r) = eval(depth, s, condition);
            match r {
                Ok(v) => if !truthy(v) {
                    (s1, Ok(()))
                } else if rounds == 0 {
                    (s1, Err(failure(msg_loop_limit())))
                } else {
                    let (s2, ended) = exec(depth, s1, *body);
                    match ended {
                        Ok(_) => exec_while(depth, s2, stmt, (rounds - 1) as nat),
                        Err(x) => (s2, Err(x)),
                    }
                },
                Err(x) => (s1, Err(x)),
            }
        },
        _ => (s, Ok(())),
    }
}

/// The state after the statements of a list ran, from the first to the
/// last, and how the run ended. A statement that ends with a signal ends
/// the run: those after it do not run.
pub open spec fn exec_all(depth: nat, s: State, list: Seq<StmtView>) -> (State, Result<(), Signal>)
    decreases depth, 1nat, list, 0nat,
{
    if list.len() == 0 {
        (s, Ok(()))
    } else {
        let (s1, r) = exec_all(depth, s, list.drop_last());
        match r {
            Ok(_) => exec(depth, s1, list.last()),
            Err(x) => (s1, Err(x)),
        }
    }
}

/// What a call of the function `f` hands back, and the state after it.
pub open spec fn call_function(depth: nat, s: State, f: FunctionView, arguments: Seq<Value>) -> (
    State,
    Result<Option<Value>, Signal>,
) {
    if depth == 0 {
        (s, Err(failure(msg_depth())))
    } else {
        let (s1, ended) = exec_all((depth - 1) as nat, s.enter_call(f, arguments), f.body);
        leave_call(s, s1, ended)
    }
}

/// The state after a program ran at the top level, and how the run ended. A
/// `return` that reaches the top level is an error.
pub open spec fn interpret(depth: nat, s: State, program: Seq<StmtView>) -> (State, Result<(), Signal>) {
    let (s1, r) = exec_all(depth, s, program);
    match r {
        Err(Signal::Return(_)) => (
            s1,
            Err(Signal::Error(LoxErrorView::BindingError("return"@, msg_top_level_return()))),
        ),
        _ => (s1, r),
    }
}

} // verus!
