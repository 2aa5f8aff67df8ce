use crate::environment::Environment;
use crate::expression::{expr_view, exprs_view, lemma_call_view, Expr, ExprView};
use crate::literal::Literal;
use crate::lox_error::{LoxError, LoxErrorView};
use crate::natives::NativeClock;
use crate::object::{
    truthy, values_view, wrapping_difference, wrapping_product, wrapping_quotient, wrapping_sum,
    Object, Value,
};
use crate::semantics::{
    call_function, eval, eval_all, exec, exec_all, exec_while, CallableView, FunctionView, State,
};
use crate::statement::{clone_statements, lemma_list_views, stmts_view, Statement, StmtView};
use crate::token::{clone_tokens, tokens_view, Token};
use crate::token_type::TokenType;
use std::collections::HashMap;
use std::rc::Rc;
use vstd::prelude::*;
use vstd::string::StringExecFns;

verus! {

broadcast use vstd::std_specs::hash::group_hash_axioms;

/// What a computation yields: a value, or the reason why it gave none.
pub type LoxResult<T> = std::result::Result<T, ReturnStatus>;

/// Why a statement or an expression did not run to its end.
#[derive(Debug)]
pub enum ReturnStatus {
    /// A failure, which ends the run of the program.
    Error(LoxError),
    /// A loop is being left.
    Break,
    /// A function is being left, with the value it hands back if it has one.
    Return(Option<Object>),
}

/// The mathematical value of a [`ReturnStatus`].
pub enum Signal {
    Error(LoxErrorView),
    Break,
    Return(Option<Value>),
}

impl View for ReturnStatus {
    type V = Signal;

    open spec fn view(&self) -> Signal {
        match self {
            ReturnStatus::Error(e) => Signal::Error(e@),
            ReturnStatus::Break => Signal::Break,
            ReturnStatus::Return(v) => Signal::Return(
                match v {
                    Some(o) => Some(o@),
                    None => None,
                },
            ),
        }
    }
}

/// The value or the signal that a result stands for.
pub open spec fn value_result(r: LoxResult<Object>) -> Result<Value, Signal> {
    match r {
        Ok(v) => Ok(v@),
        Err(e) => Err(e@),
    }
}

/// How a statement ended: normally, or with a signal.
pub open spec fn unit_result<T>(r: LoxResult<T>) -> Result<(), Signal> {
    match r {
        Ok(_) => Ok(()),
        Err(e) => Err(e@),
    }
}

/// What a call handed back: a value, nothing, or a signal.
pub open spec fn call_result(r: LoxResult<Option<Object>>) -> Result<Option<Value>, Signal> {
    match r {
        Ok(Some(v)) => Ok(Some(v@)),
        Ok(None) => Ok(None),
        Err(e) => Err(e@),
    }
}

/// The failure of a run with the given message.
pub fn failure<T>(message: &str) -> (r: LoxResult<T>)
    ensures
        r matches Err(e) && e@ == crate::semantics::failure(message@),
{
    Err(ReturnStatus::Error(LoxError::runtime(message)))
}

/// A function that a program declared, with the scope of its declaration.
pub struct LoxFunction {
    name: Token,
    params: Vec<Token>,
    body: Vec<Box<Statement>>,
    closure: usize,
}

impl View for LoxFunction {
    type V = FunctionView;

    closed spec fn view(&self) -> FunctionView {
        FunctionView {
            name: self.name@,
            params: tokens_view(self.params@),
            body: stmts_view(self.body@),
            closure: self.closure as int,
        }
    }
}

impl LoxFunction {
    fn new(name: &Token, params: &Vec<Token>, body: &Vec<Box<Statement>>, closure: usize) -> (r:
        Self)
        ensures
            r@ == (FunctionView {
                name: name@,
                params: tokens_view(params@),
                body: stmts_view(body@),
                closure: closure as int,
            }),
    {
        Self {
            name: name.clone(),
            params: clone_tokens(params),
            body: clone_statements(body),
            closure,
        }
    }
}

/// What the interpreter can call: the built-in clock and the functions that
/// programs declare.
pub trait LoxCallable {
    /// The number of arguments that the callable takes.
    spec fn arity_of(&self) -> nat;

    /// What a call with these arguments hands back, and the state after it.
    spec fn outcome(&self, depth: nat, s: State, arguments: Seq<Value>) -> (
        State,
        Result<Option<Value>, Signal>,
    );

    /// Calls the callable with as many arguments as it takes.
    fn call(&self, interpreter: &mut Interpreter, arguments: &Vec<Object>) -> (r: LoxResult<
        Option<Object>,
    >)
        requires
            old(interpreter).wf(),
            arguments@.len() == self.arity_of(),
            self.callable_in(old(interpreter)@),
        ensures
            final(interpreter).follows(old(interpreter)),
            (final(interpreter)@, call_result(r)) == self.outcome(
                old(interpreter).depth as nat,
                old(interpreter)@,
                values_view(arguments@),
            ),
    ;

    /// Whether the callable may run in the state `s`.
    spec fn callable_in(&self, s: State) -> bool;

    /// The number of arguments that the callable takes.
    fn arity(&self) -> (n: usize)
        ensures
            n == self.arity_of(),
    ;
}

/// An entry of the interpreter's list of callables.
pub enum Routine {
    Clock(NativeClock),
    Function(LoxFunction),
}

impl View for Routine {
    type V = CallableView;

    open spec fn view(&self) -> CallableView {
        match self {
            Routine::Clock(_) => CallableView::Clock,
            Routine::Function(f) => CallableView::Function(f@),
        }
    }
}

/// The views of the callables of a list, in order.
pub open spec fn routines_view(list: Seq<Rc<Routine>>) -> Seq<CallableView> {
    Seq::new(list.len(), |i: int| (*list[i])@)
}

/// The table of the resolver, with each distance as a number.
pub open spec fn distances(table: Map<usize, usize>) -> Map<usize, int> {
    Map::new(|id: usize| table.dom().contains(id), |id: usize| table[id] as int)
}

/// The texts of the lines of a list, in order.
pub open spec fn lines_view(list: Seq<String>) -> Seq<Seq<char>> {
    Seq::new(list.len(), |i: int| list[i]@)
}

/// How many calls may be nested in a new interpreter.
pub const MAX_DEPTH: usize = 200;

/// The interpreter: the state of a running program.
pub struct Interpreter {
    /// The chain of scopes; its first scope holds the globals.
    pub environment: Environment,
    /// The scope distance filed for each resolved variable node.
    pub locals: HashMap<usize, usize>,
    /// The callables made so far; a callable value names one by its place.
    pub functions: Vec<Rc<Routine>>,
    /// The lines printed so far.
    pub output: Vec<String>,
    /// What the clock shows, in seconds.
    pub clock: i32,
    /// How many more calls may be nested.
    pub depth: usize,
    /// How many times one loop may run its body.
    pub loop_limit: u64,
}

impl View for Interpreter {
    type V = State;

    open spec fn view(&self) -> State {
        State {
            environment: self.environment@,
            locals: distances(self.locals@),
            functions: routines_view(self.functions@),
            output: lines_view(self.output@),
            clock: self.clock,
            loop_limit: self.loop_limit,
        }
    }
}

/// `Rc::clone` of std: another handle to the same callable. The contract
/// claims that the new handle points to the value that the old one points to.
#[verifier::external_body]
fn share(routine: &Rc<Routine>) -> (r: Rc<Routine>)
    ensures
        r == *routine,
{
    Rc::clone(routine)
}

impl Interpreter {
    /// The scopes are well formed, and every declared function lies in a
    /// scope that exists.
    pub open spec fn wf(&self) -> bool {
        &&& self.environment.wf()
        &&& self@.wf()
    }

    /// What the variable node `expr` with the name `name` stands for.
    pub fn look_up_variable(&self, name: &Token, expr: &Expr) -> (r: LoxResult<Object>)
        requires
            self.wf(),
        ensures
            value_result(r) == self@.look_up(name.lexeme@, expr@),
    {
        let key = match expr {
            Expr::Variable { name: _, id } => Some(*id),
            Expr::Assign { name: _, value: _, id } => Some(*id),
            _ => None,
        };
        match key {
            Some(id) => match self.locals.get(&id) {
                Some(distance) => self.environment.get_at(*distance, name.lexeme.as_str()),
                None => Ok(self.environment.get(name)),
            },
            None => Ok(self.environment.get(name)),
        }
    }

    /// The chain of scopes of the interpreter.
    pub fn environment(&self) -> (r: &Environment)
        ensures
            *r == self.environment,
    {
        &self.environment
    }

    /// Files the scope distance `depth` for the node `variable`. A node that
    /// is neither a variable nor an assignment is not filed.
    pub fn resolve_local(&mut self, variable: &Expr, depth: usize)
        ensures
            final(self)@ == old(self)@.resolve_local(variable@, depth as int),
            final(self).depth == old(self).depth,
            old(self).wf() ==> final(self).wf(),
            final(self).environment == old(self).environment,
    {
        match variable {
            Expr::Variable { name: _, id } => {
                self.locals.insert(*id, depth);
                assert(distances(self.locals@) =~= distances(old(self).locals@).insert(
                    *id,
                    depth as int,
                ));
            },
            Expr::Assign { name: _, value: _, id } => {
                self.locals.insert(*id, depth);
                assert(distances(self.locals@) =~= distances(old(self).locals@).insert(
                    *id,
                    depth as int,
                ));
            },
            _ => {},
        }
    }

    /// A new interpreter: the global scope binds `Clock` to the built-in
    /// clock, nothing is resolved and nothing was printed.
    pub fn new() -> (r: Self)
        ensures
            r.wf(),
            r.depth == MAX_DEPTH,
            r@ == State::initial(),
    {
        let mut globals = Environment::new();
        globals.define("Clock", &Object::Callable { id: 0, arity: 0 });
        let mut functions: Vec<Rc<Routine>> = Vec::new();
        functions.push(Rc::new(Routine::Clock(NativeClock::new())));
        let r = Interpreter {
            environment: globals,
            locals: HashMap::new(),
            functions,
            output: Vec::new(),
            clock: 0,
            depth: MAX_DEPTH,
            loop_limit: u64::MAX,
        };
        assert(r@.functions =~= seq![CallableView::Clock]);
        assert(r@.output =~= Seq::empty());
        assert(r@.locals =~= Map::empty());
        r
    }

    /// The truth of a value, as a truth value of the language.
    pub fn is_truthy(&mut self, result: Object) -> (r: Object)
        ensures
            r@ == Value::Boolean(truthy(result@)),
            *final(self) == *old(self),
    {
        match result {
            Object::Nil => Object::Boolean(false),
            Object::Number(_) => Object::Boolean(true),
            Object::Str(_) => Object::Boolean(true),
            Object::Boolean(value) => Object::Boolean(value),
            Object::Callable { .. } => Object::Boolean(true),
        }
    }
}

impl Interpreter {
    /// The interpreter is well formed; it nests as many calls and stands in
    /// the same scope as `before`, and has kept every scope of it.
    pub open spec fn follows(&self, before: &Interpreter) -> bool {
        &&& self.wf()
        &&& self.depth == before.depth
        &&& self.environment.current == before.environment.current
        &&& before@.environment.scopes.len() <= self@.environment.scopes.len()
    }

    /// Evaluates an expression.
    pub fn evaluate(&mut self, expr: &Box<Expr>) -> (r: LoxResult<Object>)
        requires
            old(self).wf(),
        ensures
            final(self).follows(old(self)),
            (final(self)@, value_result(r)) == eval(
                old(self).depth as nat,
                old(self)@,
                expr_view(**expr),
            ),
        decreases old(self).depth, 1nat, expr, 1nat,
    {
        match &**expr {
            Expr::Get { object, name } => self.visit_get_expression(&**expr, object, name),
            Expr::Binary { left, operator, right } => self.visit_binary_expression(
                left,
                operator,
                right,
            ),
            Expr::Grouping { expression } => self.visit_group_expression(expression),
            Expr::Literal { literal } => self.visit_literal_expression(literal),
            Expr::Logical { left, operator, right } => self.visit_logical_expression(
                &**expr,
                left,
                operator,
                right,
            ),
            Expr::Assign { name, value, id } => self.visit_assign_expression(&**expr, name, value),
            Expr::Unary { operator, right } => self.visit_unary_expression(operator, right),
            Expr::Variable { name, id } => self.visit_variable_expression(&**expr, name),
            Expr::Call { callee, paren, arguments } => {
                proof {
                    lemma_call_view(*callee, *paren, *arguments);
                }
                self.visit_call_expression(callee, paren, arguments)
            },
        }
    }

    /// Evaluates a property access, which always fails.
    pub fn visit_get_expression(&mut self, expr: &Expr, object: &Box<Expr>, name: &Token) -> (r:
        LoxResult<Object>)
        ensures
            *final(self) == *old(self),
            r matches Err(e) && e@ == crate::semantics::failure(crate::semantics::msg_properties()),
    {
        failure("Only instances have properties.")
    }

    /// Evaluates a literal.
    pub fn visit_literal_expression(&mut self, literal: &Literal) -> (r: LoxResult<Object>)
        requires
            old(self).wf(),
        ensures
            final(self).follows(old(self)),
            (final(self)@, value_result(r)) == eval(
                old(self).depth as nat,
                old(self)@,
                (ExprView::Literal { literal: literal@ }),
            ),
    {
        return Ok(Object::from_literal(literal));
    }

    /// Evaluates an expression in brackets.
    pub fn visit_group_expression(&mut self, content: &Box<Expr>) -> (r: LoxResult<Object>)
        requires
            old(self).wf(),
        ensures
            final(self).follows(old(self)),
            (final(self)@, value_result(r)) == eval(
                old(self).depth as nat,
                old(self)@,
                (ExprView::Grouping { expression: Box::new(expr_view(**content)) }),
            ),
        decreases old(self).depth, 1nat, (Expr::Grouping { expression: *content }), 0nat,
    {
        proof {
            let node = Expr::Grouping { expression: *content };
            assert(node->expression == *content);
        }
        self.evaluate(content)
    }

    /// Evaluates the operand of a unary operator and applies the operator.
    pub fn visit_unary_expression(&mut self, operator: &Token, right: &Box<Expr>) -> (r: LoxResult<
        Object,
    >)
        requires
            old(self).wf(),
        ensures
            final(self).follows(old(self)),
            (final(self)@, value_result(r)) == eval(
                old(self).depth as nat,
                old(self)@,
                (ExprView::Unary { operator: operator@, right: Box::new(expr_view(**right)) }),
            ),
        decreases old(self).depth, 1nat, (Expr::Unary { operator: *operator, right: *right }), 0nat,
    {
        proof {
            let node = Expr::Unary { operator: *operator, right: *right };
            assert(node->Unary_right == *right);
        }
        let mut right = match self.evaluate(right) {
            Ok(v) => v,
            Err(e) => {
                return Err(e);
            },
        };
        match operator.of_type {
            TokenType::MINUS => match right {
                Object::Number(n) => Ok(Object::Number(wrapping_difference(0, n))),
                _ => failure("Operand must be a number."),
            },
            TokenType::BANG => Ok(Object::Boolean(!right.is_truthy())),
            _ => failure("Unknown operator."),
        }
    }

    /// Evaluates the operands of a binary operator, the left one first, and
    /// applies the operator.
    pub fn visit_binary_expression(
        &mut self,
        left: &Box<Expr>,
        operator: &Token,
        right: &Box<Expr>,
    ) -> (r: LoxResult<Object>)
        requires
            old(self).wf(),
        ensures
            final(self).follows(old(self)),
            (final(self)@, value_result(r)) == eval(
                old(self).depth as nat,
                old(self)@,
                (ExprView::Binary {
                    left: Box::new(expr_view(**left)),
                    operator: operator@,
                    right: Box::new(expr_view(**right)),
                }),
            ),
        decreases old(self).depth,
            1nat,
            (Expr::Binary { left: *left, operator: *operator, right: *right }),
            0nat,
    {
        proof {
            let node = Expr::Binary { left: *left, operator: *operator, right: *right };
            assert(node->Binary_left == *left);
            assert(node->Binary_right == *right);
        }
        let left = match self.evaluate(left) {
            Ok(v) => v,
            Err(e) => {
                return Err(e);
            },
        };
        let right = match self.evaluate(right) {
            Ok(v) => v,
            Err(e) => {
                return Err(e);
            },
        };
        match operator.of_type {
            TokenType::MINUS => {
                if let Object::Number(left) = left {
                    if let Object::Number(right) = right {
                        Ok(Object::Number(wrapping_difference(left, right)))
                    } else {
                        failure("Make sure right operand is a number")
                    }
                } else {
                    failure("Make sure the left operand is a number.")
                }
            },
            TokenType::SLASH => {
                if let Object::Number(left) = left {
                    if let Object::Number(right) = right {
                        if right == 0 {
                            failure("Division by zero.")
                        } else {
                            Ok(Object::Number(wrapping_quotient(left, right)))
                        }
                    } else {
                        failure("Make sure right operand is a number")
                    }
                } else {
                    failure("Make sure the left operand is a number.")
                }
            },
            TokenType::STAR => {
                if let Object::Number(left) = left {
                    if let Object::Number(right) = right {
                        Ok(Object::Number(wrapping_product(left, right)))
                    } else {
                        failure("Make sure right operand is a number")
                    }
                } else {
                    failure("Make sure the left operand is a number.")
                }
            },
            TokenType::PLUS => {
                match left {
                    Object::Number(left) => {
                        if let Object::Number(right) = right {
                            Ok(Object::Number(wrapping_sum(left, right)))
                        } else {
                            failure("Make sure right operand is a number")
                        }
                    },
                    Object::Str(left) => {
                        if let Object::Str(right) = right {
                            let mut joined = left;
                            joined.append(right.as_str());
                            Ok(Object::Str(joined))
                        } else {
                            failure("Make sure right operand is a string")
                        }
                    },
                    _ => failure("Make sure the left operand is a number."),
                }
            },
            TokenType::GREATER => {
                if let Object::Number(left) = left {
                    if let Object::Number(right) = right {
                        Ok(Object::Boolean(left > right))
                    } else {
                        failure("Make sure right operand is a number")
                    }
                } else {
                    failure("Make sure the left operand is a number.")
                }
            },
            TokenType::GREATER_EQUAL => {
                if let Object::Number(left) = left {
                    if let Object::Number(right) = right {
                        Ok(Object::Boolean(left >= right))
                    } else {
                        failure("Make sure right operand is a number")
                    }
                } else {
                    failure("Make sure the left operand is a number.")
                }
            },
            TokenType::LESS => {
                if let Object::Number(left) = left {
                    if let Object::Number(right) = right {
                        Ok(Object::Boolean(left < right))
                    } else {
                        failure("Make sure right operand is a number")
                    }
                } else {
                    failure("Make sure the left operand is a number.")
                }
            },
            TokenType::LESS_EQUAL => {
                if let Object::Number(left) = left {
                    if let Object::Number(right) = right {
                        Ok(Object::Boolean(left <= right))
                    } else {
                        failure("Make sure right operand is a number")
                    }
                } else {
                    failure("Make sure the left operand is a number.")
                }
            },
            TokenType::EQUAL_EQUAL => {
                if let Object::Number(left) = left {
                    if let Object::Number(right) = right {
                        Ok(Object::Boolean(left == right))
                    } else {
                        failure("Make sure right operand is a number")
                    }
                } else {
                    failure("Make sure the left operand is a number.")
                }
            },
            TokenType::BANG_EQUAL => {
                if let Object::Number(left) = left {
                    if let Object::Number(right) = right {
                        Ok(Object::Boolean(left != right))
                    } else {
                        failure("Make sure right operand is a number")
                    }
                } else {
                    failure("Make sure the left operand is a number.")
                }
            },
            _ => failure("Unknown operator."),
        }
    }

    /// Evaluates `and` or `or`: the right operand only if the left one does
    /// not decide.
    pub fn visit_logical_expression(
        &mut self,
        expr: &Expr,
        left: &Box<Expr>,
        operator: &Token,
        right: &Box<Expr>,
    ) -> (r: LoxResult<Object>)
        requires
            old(self).wf(),
        ensures
            final(self).follows(old(self)),
            (final(self)@, value_result(r)) == eval(
                old(self).depth as nat,
                old(self)@,
                (ExprView::Logical {
                    left: Box::new(expr_view(**left)),
                    operator: operator@,
                    right: Box::new(expr_view(**right)),
                }),
            ),
        decreases old(self).depth,
            1nat,
            (Expr::Logical { left: *left, operator: *operator, right: *right }),
            0nat,
    {
        proof {
            let node = Expr::Logical { left: *left, operator: *operator, right: *right };
            assert(node->Logical_left == *left);
            assert(node->Logical_right == *right);
        }
        let left_expr = match self.evaluate(left) {
            Ok(v) => v,
            Err(e) => {
                return Err(e);
            },
        };
        let is_truthy: Object = self.is_truthy(left_expr.clone());
        if operator.of_type == TokenType::OR {
            match is_truthy {
                Object::Boolean(true) => Ok(left_expr),
                _ => self.evaluate(right),
            }
        } else {
            match is_truthy {
                Object::Boolean(false) => Ok(left_expr),
                _ => self.evaluate(right),
            }
        }
    }

    /// Evaluates the value of an assignment and gives it to the variable.
    pub fn visit_assign_expression(&mut self, expr: &Expr, name: &Token, value: &Box<Expr>) -> (r:
        LoxResult<Object>)
        requires
            old(self).wf(),
        ensures
            final(self).follows(old(self)),
            ({
                let (evaluated, yielded) = eval(
                    old(self).depth as nat,
                    old(self)@,
                    expr_view(**value),
                );
                (final(self)@, value_result(r)) == evaluated.store(name.lexeme@, yielded)
            }),
        decreases old(self).depth, 1nat, value, 2nat,
    {
        let value = match self.evaluate(value) {
            Ok(v) => v,
            Err(e) => {
                return Err(e);
            },
        };
        match self.environment.assign(name, value.clone()) {
            Ok(_) => Ok(value),
            Err(e) => Err(e),
        }
    }

    /// Reads a variable.
    pub fn visit_variable_expression(&mut self, expr: &Expr, name: &Token) -> (r: LoxResult<Object>)
        requires
            old(self).wf(),
        ensures
            *final(self) == *old(self),
            value_result(r) == old(self)@.look_up(name.lexeme@, expr_view(*expr)),
    {
        self.look_up_variable(name, expr)
    }
}


impl LoxCallable for LoxFunction {
    open spec fn arity_of(&self) -> nat {
        self@.params.len()
    }

    open spec fn outcome(&self, depth: nat, s: State, arguments: Seq<Value>) -> (
        State,
        Result<Option<Value>, Signal>,
    ) {
        call_function(depth, s, self@, arguments)
    }

    open spec fn callable_in(&self, s: State) -> bool {
        self@.closure < s.environment.scopes.len()
    }

    fn call(&self, interpreter: &mut Interpreter, arguments: &Vec<Object>) -> (r: LoxResult<
        Option<Object>,
    >)
        decreases old(interpreter).depth, 0nat, self, 0nat,
    {
        if interpreter.depth == 0 {
            return failure("Stack overflow.");
        }
        let previous = interpreter.environment.current;
        let scope = interpreter.environment.child_of(self.closure);
        interpreter.environment.current = scope;
        let ghost entered = interpreter.environment@;
        let ghost params = tokens_view(self.params@);
        let ghost values = values_view(arguments@);
        let mut i: usize = 0;
        while i < self.params.len()
            invariant
                i <= self.params@.len(),
                self.params@.len() == arguments@.len(),
                params == tokens_view(self.params@),
                values == values_view(arguments@),
                interpreter.environment.wf(),
                interpreter.environment.current == scope,
                interpreter.environment.scopes@.len() == entered.scopes.len(),
                interpreter.environment@ == crate::semantics::bind_params(
                    entered,
                    params.take(i as int),
                    values,
                ),
                interpreter.depth == old(interpreter).depth,
                interpreter.locals == old(interpreter).locals,
                interpreter.functions == old(interpreter).functions,
                interpreter.output == old(interpreter).output,
                interpreter.clock == old(interpreter).clock,
                interpreter.loop_limit == old(interpreter).loop_limit,
            decreases self.params@.len() - i,
        {
            interpreter.environment.define(self.params[i].lexeme.as_str(), &arguments[i]);
            assert(params.take(i + 1).drop_last() =~= params.take(i as int));
            i += 1;
        }
        assert(params.take(i as int) =~= params);
        interpreter.environment.current = previous;
        interpreter.depth = interpreter.depth - 1;
        let ended = interpreter.execute_block(&self.body, scope);
        interpreter.depth = interpreter.depth + 1;
        match ended {
            Ok(_) => Ok(Some(Object::Nil)),
            Err(e) => match e {
                ReturnStatus::Return(x) => match x {
                    Some(x) => Ok(Some(x)),
                    None => Ok(None),
                },
                _ => Err(e),
            },
        }
    }

    fn arity(&self) -> (n: usize) {
        self.params.len()
    }
}

impl Interpreter {
    /// Evaluates the callee and the arguments of a call, from left to right,
    /// and calls the callee.
    pub fn visit_call_expression(
        &mut self,
        callee: &Box<Expr>,
        _paren: &Token,
        arguments: &Vec<Box<Expr>>,
    ) -> (r: LoxResult<Object>)
        requires
            old(self).wf(),
        ensures
            final(self).follows(old(self)),
            (final(self)@, value_result(r)) == eval(
                old(self).depth as nat,
                old(self)@,
                (ExprView::Call {
                    callee: Box::new(expr_view(**callee)),
                    paren: _paren@,
                    arguments: exprs_view(arguments@),
                }),
            ),
        decreases old(self).depth,
            1nat,
            (Expr::Call { callee: *callee, paren: *_paren, arguments: *arguments }),
            0nat,
    {
        let ghost node = Expr::Call { callee: *callee, paren: *_paren, arguments: *arguments };
        assert(node->callee == *callee);
        assert(node->arguments == *arguments);
        let callee_value: Object = match self.evaluate(callee) {
            Ok(v) => v,
            Err(e) => {
                return Err(e);
            },
        };
        let ghost s1 = self@;
        let ghost list = exprs_view(arguments@);
        let mut args: Vec<Object> = Vec::new();
        let mut i: usize = 0;
        assert(list.take(0) =~= Seq::<ExprView>::empty());
        assert(values_view(args@) =~= Seq::<Value>::empty());
        while i < arguments.len()
            invariant
                i <= arguments@.len(),
                list == exprs_view(arguments@),
                self.follows(old(self)),
                decreases_to!(node => arguments),
                node == (Expr::Call { callee: *callee, paren: *_paren, arguments: *arguments }),
                eval(old(self).depth as nat, old(self)@, expr_view(**callee)) == (
                    s1,
                    Ok::<Value, Signal>(callee_value@),
                ),
                eval_all(old(self).depth as nat, s1, list.take(i as int)) == (
                    self@,
                    Ok::<Seq<Value>, Signal>(values_view(args@)),
                ),
            decreases arguments@.len() - i,
        {
            let ghost so_far = values_view(args@);
            assert(list.take(i + 1).drop_last() =~= list.take(i as int));
            assert(list.take(i + 1).last() == expr_view(*arguments@[i as int]));
            match self.evaluate(&arguments[i]) {
                Ok(v) => {
                    args.push(v);
                    assert(values_view(args@) =~= so_far.push(v@));
                },
                Err(e) => {
                    proof {
                        lemma_eval_all_fails(
                            old(self).depth as nat,
                            s1,
                            list,
                            i as int + 1,
                        );
                    }
                    return Err(e);
                },
            }
            i += 1;
        }
        assert(list.take(i as int) =~= list);
        if let Object::Callable { id, arity: _ } = callee_value {
            if id >= self.functions.len() {
                return failure("Can only call functions and classes.");
            }
            let callable = share(&self.functions[id]);
            assert(self@.functions[id as int] == (*callable)@);
            match &*callable {
                Routine::Clock(clock) => {
                    if args.len() != clock.arity() {
                        return failure("Wrong number of arguments.");
                    }
                    match clock.call(self, &args) {
                        Ok(Some(v)) => Ok(v),
                        Ok(None) => Ok(Object::Nil),
                        Err(e) => Err(e),
                    }
                },
                Routine::Function(function) => {
                    if args.len() != function.arity() {
                        return failure("Wrong number of arguments.");
                    }
                    match function.call(self, &args) {
                        Ok(Some(v)) => Ok(v),
                        Ok(None) => Ok(Object::Nil),
                        Err(e) => Err(e),
                    }
                },
            }
        } else {
            failure("Can only call functions and classes.")
        }
    }

    /// Runs a statement.
    pub fn execute(&mut self, stmt: &Box<Statement>) -> (r: LoxResult<Object>)
        requires
            old(self).wf(),
        ensures
            final(self).follows(old(self)),
            r matches Ok(v) ==> v@ == Value::Nil,
            (final(self)@, unit_result(r)) == exec(
                old(self).depth as nat,
                old(self)@,
                crate::statement::stmt_view(**stmt),
            ),
        decreases old(self).depth, 2nat, stmt, 1nat,
    {
        proof {
            lemma_list_views(**stmt);
        }
        match &**stmt {
            Statement::Class { name, methods } => self.visit_class_stmt(name),
            Statement::Return { keyword, value } => self.visit_return_statement(keyword, value),
            Statement::Function { name, params, body } => self.visit_function_statement(
                &**stmt,
                name,
                params,
                body,
            ),
            Statement::Expression { expression } => self.visit_expression_stmt(&**stmt, expression),
            Statement::Print { expression } => self.visit_print_stmt(&**stmt, expression),
            Statement::Variable { name, initializer } => self.visit_var_stmt(
                &**stmt,
                name,
                initializer,
            ),
            Statement::Block { statements } => self.visit_block_statement(&**stmt, statements),
            Statement::While { condition, body } => self.visit_while_statement(
                &**stmt,
                condition,
                body,
            ),
            Statement::If { condition, then_branch, else_branch } => self.visit_if_statement(
                &**stmt,
                condition,
                then_branch,
                else_branch,
            ),
        }
    }

    /// Runs a class declaration, which always fails.
    pub fn visit_class_stmt(&mut self, name: &Token) -> (r: LoxResult<Object>)
        requires
            old(self).wf(),
        ensures
            final(self).follows(old(self)),
            *final(self) == *old(self),
            r matches Err(e) && e@ == crate::semantics::failure(crate::semantics::msg_classes()),
    {
        failure("Classes are not supported.")
    }

    /// Runs a `return`: it ends with the signal that carries the value.
    pub fn visit_return_statement(&mut self, _keyword: &Token, value: &Option<Box<Expr>>) -> (r:
        LoxResult<Object>)
        requires
            old(self).wf(),
        ensures
            final(self).follows(old(self)),
            r is Err,
            (final(self)@, unit_result(r)) == exec(
                old(self).depth as nat,
                old(self)@,
                (StmtView::Return {
                    keyword: _keyword@,
                    value: match *value {
                        Some(v) => Some(expr_view(*v)),
                        None => None,
                    },
                }),
            ),
        decreases old(self).depth,
            2nat,
            (Statement::Return { keyword: *_keyword, value: *value }),
            0nat,
    {
        proof {
            let node = Statement::Return { keyword: *_keyword, value: *value };
            assert(node->Return_value == *value);
        }
        let mut return_val = None;
        if let Some(value) = value {
            return_val = Some(
                match self.evaluate(value) {
                    Ok(v) => v,
                    Err(e) => {
                        return Err(e);
                    },
                },
            );
        }
        Err(ReturnStatus::Return(return_val))
    }

    /// Runs a function declaration: the function is bound to its name in the
    /// current scope, which it keeps as the scope of its declaration.
    pub fn visit_function_statement(
        &mut self,
        _stmt: &Statement,
        name: &Token,
        parameters: &Vec<Token>,
        body: &Vec<Box<Statement>>,
    ) -> (r: LoxResult<Object>)
        requires
            old(self).wf(),
        ensures
            final(self).follows(old(self)),
            r matches Ok(v) && v@ == Value::Nil,
            final(self)@ == old(self)@.declare(name@, tokens_view(parameters@), stmts_view(body@)),
    {
        let function = LoxFunction::new(name, parameters, body, self.environment.current);
        let callable = Object::Callable { id: self.functions.len(), arity: parameters.len() };
        let ghost before = self@.functions;
        self.functions.push(Rc::new(Routine::Function(function)));
        assert(self@.functions =~= before.push(CallableView::Function(function@)));
        self.environment.define(name.lexeme.as_str(), &callable);
        Ok(Object::Nil)
    }

    /// Runs a block in a new scope inside the current one.
    pub fn visit_block_statement(&mut self, _stmt: &Statement, statements: &Vec<Box<Statement>>) -> (r:
        LoxResult<Object>)
        requires
            old(self).wf(),
        ensures
            final(self).follows(old(self)),
            r matches Ok(v) ==> v@ == Value::Nil,
            (final(self)@, unit_result(r)) == exec(
                old(self).depth as nat,
                old(self)@,
                (StmtView::Block { statements: stmts_view(statements@) }),
            ),
        decreases old(self).depth, 2nat, (Statement::Block { statements: *statements }), 0nat,
    {
        proof {
            let node = Statement::Block { statements: *statements };
            assert(node->statements == *statements);
        }
        let env_ref = self.environment.current;
        let scope = self.environment.with_ref(env_ref);
        self.execute_block(statements, scope)
    }

    /// Runs a loop while its condition holds.
    pub fn visit_while_statement(
        &mut self,
        _statement: &Statement,
        condition: &Box<Expr>,
        body: &Box<Statement>,
    ) -> (r: LoxResult<Object>)
        requires
            old(self).wf(),
        ensures
            final(self).follows(old(self)),
            r matches Ok(v) ==> v@ == Value::Nil,
            (final(self)@, unit_result(r)) == exec(
                old(self).depth as nat,
                old(self)@,
                (StmtView::While {
                    condition: expr_view(**condition),
                    body: Box::new(crate::statement::stmt_view(**body)),
                }),
            ),
        decreases old(self).depth,
            2nat,
            (Statement::While { condition: *condition, body: *body }),
            0nat,
    {
        let ghost whole = Statement::While { condition: *condition, body: *body };
        let ghost node = crate::statement::stmt_view(whole);
        let ghost depth = old(self).depth as nat;
        assert(whole->While_body == *body);
        let mut rounds: u64 = self.loop_limit;
        loop
            invariant
                self.follows(old(self)),
                whole == (Statement::While { condition: *condition, body: *body }),
                decreases_to!(whole => body),
                node == (StmtView::While {
                    condition: expr_view(**condition),
                    body: Box::new(crate::statement::stmt_view(**body)),
                }),
                depth == old(self).depth,
                exec_while(depth, self@, node, rounds as nat) == exec(depth, old(self)@, node),
            decreases rounds,
        {
            let condition = match self.evaluate(condition) {
                Ok(v) => v,
                Err(e) => {
                    return Err(e);
                },
            };
            let is_truthy: Object = self.is_truthy(condition);
            match is_truthy {
                Object::Boolean(true) => {},
                _ => {
                    return Ok(Object::Nil);
                },
            }
            if rounds == 0 {
                return failure("Loop limit reached.");
            }
            match self.execute(body) {
                Ok(_) => {},
                Err(e) => {
                    return Err(e);
                },
            }
            rounds = rounds - 1;
        }
    }

    /// Runs an expression statement: the value is dropped.
    pub fn visit_expression_stmt(&mut self, _stmt: &Statement, expression: &Box<Expr>) -> (r:
        LoxResult<Object>)
        requires
            old(self).wf(),
        ensures
            final(self).follows(old(self)),
            r matches Ok(v) ==> v@ == Value::Nil,
            (final(self)@, unit_result(r)) == exec(
                old(self).depth as nat,
                old(self)@,
                (StmtView::Expression { expression: expr_view(**expression) }),
            ),
        decreases old(self).depth,
            2nat,
            (Statement::Expression { expression: *expression }),
            0nat,
    {
        match self.evaluate(expression) {
            Ok(_) => Ok(Object::Nil),
            Err(e) => Err(e),
        }
    }

    /// Runs the branch of an `if` that its condition chooses.
    pub fn visit_if_statement(
        &mut self,
        _stmt: &Statement,
        condition: &Box<Expr>,
        then_branch: &Box<Statement>,
        else_branch: &Option<Box<Statement>>,
    ) -> (r: LoxResult<Object>)
        requires
            old(self).wf(),
        ensures
            final(self).follows(old(self)),
            r matches Ok(v) ==> v@ == Value::Nil,
            (final(self)@, unit_result(r)) == exec(
                old(self).depth as nat,
                old(self)@,
                crate::statement::stmt_view(
                    Statement::If {
                        condition: *condition,
                        then_branch: *then_branch,
                        else_branch: *else_branch,
                    },
                ),
            ),
        decreases old(self).depth,
            2nat,
            (Statement::If {
                condition: *condition,
                then_branch: *then_branch,
                else_branch: *else_branch,
            }),
            0nat,
    {
        proof {
            let node = Statement::If {
                condition: *condition,
                then_branch: *then_branch,
                else_branch: *else_branch,
            };
            assert(node->then_branch == *then_branch);
            assert(node->else_branch == *else_branch);
        }
        let conditional = match self.evaluate(condition) {
            Ok(v) => v,
            Err(e) => {
                return Err(e);
            },
        };
        let is_truthy: Object = self.is_truthy(conditional);
        match is_truthy {
            Object::Boolean(true) => self.execute(then_branch),
            _ => {
                if let Some(else_branch) = else_branch {
                    self.execute(else_branch)
                } else {
                    Ok(Object::Nil)
                }
            },
        }
    }

    /// Runs a `print`: the text of the value becomes a line of the output.
    pub fn visit_print_stmt(&mut self, _stmt: &Statement, expression: &Box<Expr>) -> (r: LoxResult<
        Object,
    >)
        requires
            old(self).wf(),
        ensures
            final(self).follows(old(self)),
            r matches Ok(v) ==> v@ == Value::Nil,
            (final(self)@, unit_result(r)) == exec(
                old(self).depth as nat,
                old(self)@,
                (StmtView::Print { expression: expr_view(**expression) }),
            ),
        decreases old(self).depth, 2nat, (Statement::Print { expression: *expression }), 0nat,
    {
        let value = match self.evaluate(expression) {
            Ok(v) => v,
            Err(e) => {
                return Err(e);
            },
        };
        let ghost before = self@.output;
        let line = value.to_string();
        self.output.push(line);
        assert(self@.output =~= before.push(line@));
        Ok(Object::Nil)
    }

    /// Runs a variable declaration: the name is bound in the current scope,
    /// to `nil` if it has no initializer.
    pub fn visit_var_stmt(
        &mut self,
        _stmt: &Statement,
        name: &Token,
        initializer: &Option<Box<Expr>>,
    ) -> (r: LoxResult<Object>)
        requires
            old(self).wf(),
        ensures
            final(self).follows(old(self)),
            r matches Ok(v) ==> v@ == Value::Nil,
            (final(self)@, unit_result(r)) == exec(
                old(self).depth as nat,
                old(self)@,
                crate::statement::stmt_view(
                    Statement::Variable { name: *name, initializer: *initializer },
                ),
            ),
        decreases old(self).depth,
            2nat,
            (Statement::Variable { name: *name, initializer: *initializer }),
            0nat,
    {
        let mut value = Object::Nil;
        if let Some(initializer) = initializer {
            match self.evaluate(initializer) {
                Ok(v) => {
                    value = v;
                },
                Err(e) => {
                    return Err(e);
                },
            }
        }
        self.environment.define(name.lexeme.as_str(), &value);
        Ok(Object::Nil)
    }

    /// Runs the statements of a list, from the first to the last, until one
    /// ends with a signal.
    fn run(&mut self, list: &Vec<Box<Statement>>) -> (r: LoxResult<Object>)
        requires
            old(self).wf(),
        ensures
            final(self).follows(old(self)),
            r matches Ok(v) ==> v@ == Value::Nil,
            (final(self)@, unit_result(r)) == exec_all(
                old(self).depth as nat,
                old(self)@,
                stmts_view(list@),
            ),
        decreases old(self).depth, 2nat, list, 0nat,
    {
        let ghost views = stmts_view(list@);
        let ghost depth = old(self).depth as nat;
        let mut i: usize = 0;
        assert(views.take(0) =~= Seq::<StmtView>::empty());
        while i < list.len()
            invariant
                i <= list@.len(),
                views == stmts_view(list@),
                depth == old(self).depth,
                self.follows(old(self)),
                exec_all(depth, old(self)@, views.take(i as int)) == (
                    self@,
                    Ok::<(), Signal>(()),
                ),
            decreases list@.len() - i,
        {
            assert(views.take(i + 1).drop_last() =~= views.take(i as int));
            assert(views.take(i + 1).last() == crate::statement::stmt_view(*list@[i as int]));
            match self.execute(&list[i]) {
                Ok(_) => {},
                Err(e) => {
                    proof {
                        lemma_exec_all_fails(depth, old(self)@, views, i as int + 1);
                    }
                    return Err(e);
                },
            }
            i += 1;
        }
        assert(views.take(i as int) =~= views);
        Ok(Object::Nil)
    }

    /// Runs the statements of a top-level program in order. A failure ends
    /// the run; a `return` that reaches the top level is a failure.
    pub fn interpret(&mut self, stmt: &Vec<Box<Statement>>) -> (r: LoxResult<()>)
        requires
            old(self).wf(),
        ensures
            final(self).follows(old(self)),
            (final(self)@, unit_result(r)) == crate::semantics::interpret(
                old(self).depth as nat,
                old(self)@,
                stmts_view(stmt@),
            ),
        decreases old(self).depth, 2nat, stmt, 1nat,
    {
        match self.run(stmt) {
            Ok(_) => Ok(()),
            Err(ReturnStatus::Return(_)) => Err(
                ReturnStatus::Error(
                    LoxError::BindingError(
                        "return".to_owned(),
                        "Can't return from top-level code".to_owned(),
                    ),
                ),
            ),
            Err(e) => Err(e),
        }
    }

    /// Runs the statements of a list with `env` as the current scope, and
    /// goes back to the scope in which it was called, however the run ends.
    pub fn execute_block(&mut self, stmt: &Vec<Box<Statement>>, env: usize) -> (r: LoxResult<Object>)
        requires
            old(self).wf(),
            env < old(self)@.environment.scopes.len(),
        ensures
            final(self).follows(old(self)),
            r matches Ok(v) ==> v@ == Value::Nil,
            ({
                let (after, ended) = exec_all(
                    old(self).depth as nat,
                    old(self)@.at(env as int),
                    stmts_view(stmt@),
                );
                final(self)@ == after.at(old(self).environment.current as int) && unit_result(r)
                    == ended
            }),
        decreases old(self).depth, 2nat, stmt, 1nat,
    {
        let previous = self.environment.current;
        self.environment.current = env;
        let r = self.run(stmt);
        self.environment.current = previous;
        r
    }
}

/// A list of expressions fails where one of its beginnings fails.
pub proof fn lemma_eval_all_fails(depth: nat, s: State, list: Seq<ExprView>, n: int)
    requires
        0 <= n <= list.len(),
        eval_all(depth, s, list.take(n)).1 is Err,
    ensures
        eval_all(depth, s, list) == eval_all(depth, s, list.take(n)),
    decreases list.len() - n,
{
    if n < list.len() {
        assert(list.take(n + 1).drop_last() =~= list.take(n));
        lemma_eval_all_fails(depth, s, list, n + 1);
    } else {
        assert(list.take(n) =~= list);
    }
}

/// A list of statements ends where one of its beginnings ends with a signal.
pub proof fn lemma_exec_all_fails(depth: nat, s: State, list: Seq<StmtView>, n: int)
    requires
        0 <= n <= list.len(),
        exec_all(depth, s, list.take(n)).1 is Err,
    ensures
        exec_all(depth, s, list) == exec_all(depth, s, list.take(n)),
    decreases list.len() - n,
{
    if n < list.len() {
        assert(list.take(n + 1).drop_last() =~= list.take(n));
        lemma_exec_all_fails(depth, s, list, n + 1);
    } else {
        assert(list.take(n) =~= list);
    }
}

} // verus!
