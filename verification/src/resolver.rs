use crate::expression::{expr_view, exprs_view, lemma_call_view, Expr, ExprView};
use crate::interpreter::{failure, Interpreter, LoxResult, Signal};
use crate::literal::Literal;
use crate::object::{Object, Value};
use crate::semantics::{msg_top_level_return, State};
use crate::statement::{lemma_list_views, stmt_view, stmts_view, Statement, StmtView};
use crate::table::Table;
use crate::token::{tokens_view, Token, TokenView};
use vstd::prelude::*;

verus! {

/// Whether the code that is being resolved lies in the body of a function.
#[derive(Copy, Clone, Debug, PartialEq, Eq, Structural)]
pub enum FunctionType {
    /// Outside of every function.
    TopLevel,
    /// In the body of a function.
    Function,
}

/// The resolver: it walks a program before it runs and files, for each
/// variable node that a block or a function binds, how many scopes lie
/// between the node and the scope that binds it.
///
/// Each scope of the stack tells of each name that it declares whether its
/// initializer has been resolved. `globals` tells the same of the names
/// that the program has declared at its top level, outside of every scope.
pub struct Resolver {
    pub interpreter: Interpreter,
    pub scopes: Vec<Table<bool>>,
    pub current_function: FunctionType,
    pub globals: Table<bool>,
}

/// The mathematical value of a [`Resolver`].
pub struct Resolution {
    pub interpreter: State,
    pub scopes: Seq<Map<Seq<char>, bool>>,
    pub current_function: FunctionType,
    pub globals: Map<Seq<char>, bool>,
}

/// Whether the global scope of a state binds `name`.
pub open spec fn bound_globally(s: State, name: Seq<char>) -> bool {
    s.environment.scopes.len() > 0 && s.environment.scopes[0].values.dom().contains(name)
}

/// The message for a name that is declared twice in one scope.
pub open spec fn msg_already_defined() -> Seq<char> {
    "Variable already defined in scope."@
}

/// The message for a variable that is read in its own initializer.
pub open spec fn msg_own_initializer() -> Seq<char> {
    "Cannot read local variable in its own initializer."@
}

/// The innermost of the first `upto` scopes that declares `name`.
pub open spec fn innermost(scopes: Seq<Map<Seq<char>, bool>>, name: Seq<char>, upto: int) -> Option<
    int,
>
    decreases upto,
{
    if upto <= 0 || upto > scopes.len() {
        None
    } else if scopes[upto - 1].dom().contains(name) {
        Some(upto - 1)
    } else {
        innermost(scopes, name, upto - 1)
    }
}

impl Resolution {
    /// The resolver with a new, empty scope on its stack.
    pub open spec fn begin_scope(self) -> Resolution {
        Resolution { scopes: self.scopes.push(Map::empty()), ..self }
    }

    /// The resolver without the innermost scope of its stack.
    pub open spec fn end_scope(self) -> Resolution {
        if self.scopes.len() == 0 {
            self
        } else {
            Resolution { scopes: self.scopes.drop_last(), ..self }
        }
    }

    /// The resolver after `name` was declared in the innermost scope, as not
    /// yet initialized; a failure if that scope declares it already. Outside
    /// of every scope the name is noted as a name of the top level, not yet
    /// initialized, unless the program has declared it there before: at the
    /// top level a name may be declared again.
    pub open spec fn declare(self, name: Seq<char>) -> (Resolution, Result<(), Signal>) {
        if self.scopes.len() == 0 {
            if self.globals.dom().contains(name) {
                (self, Ok(()))
            } else {
                (Resolution { globals: self.globals.insert(name, false), ..self }, Ok(()))
            }
        } else if self.scopes.last().dom().contains(name) {
            (self, Err(crate::semantics::failure(msg_already_defined())))
        } else {
            (
                Resolution {
                    scopes: self.scopes.update(
                        self.scopes.len() - 1,
                        self.scopes.last().insert(name, false),
                    ),
                    ..self
                },
                Ok(()),
            )
        }
    }

    /// The resolver after `name` was marked as initialized in the innermost
    /// scope, or among the names of the top level outside of every scope.
    pub open spec fn define(self, name: Seq<char>) -> Resolution {
        if self.scopes.len() == 0 {
            Resolution { globals: self.globals.insert(name, true), ..self }
        } else {
            Resolution {
                scopes: self.scopes.update(
                    self.scopes.len() - 1,
                    self.scopes.last().insert(name, true),
                ),
                ..self
            }
        }
    }

    /// The resolver after the node `e` with the name `name` was resolved:
    /// if a scope of the stack declares the name, the node is filed with the
    /// number of scopes that lie inside the innermost such scope.
    pub open spec fn resolve_local(self, e: ExprView, name: Seq<char>) -> Resolution {
        match innermost(self.scopes, name, self.scopes.len() as int) {
            Some(i) => Resolution {
                interpreter: self.interpreter.resolve_local(e, self.scopes.len() - 1 - i),
                ..self
            },
            None => self,
        }
    }

    /// The resolver after a reference to `name` by the node `e` was
    /// resolved: a failure if the reference stands in the initializer of the
    /// variable that it names, and the node filed if not.
    pub open spec fn reference(self, e: ExprView, name: Seq<char>) -> (
        Resolution,
        Result<(), Signal>,
    ) {
        if self.in_own_initializer(name) {
            (self, Err(crate::semantics::failure(msg_own_initializer())))
        } else {
            (self.resolve_local(e, name), Ok(()))
        }
    }

    /// The resolver after the right side of the assignment `e` to `name`
    /// was resolved with the result `done`: the assignment is filed unless
    /// the right side failed.
    pub open spec fn target(self, done: Result<(), Signal>, e: ExprView, name: Seq<char>) -> (
        Resolution,
        Result<(), Signal>,
    ) {
        match done {
            Ok(_) => (self.resolve_local(e, name), Ok(())),
            Err(x) => (self, Err(x)),
        }
    }

    /// The resolver with another mark of where it is.
    pub open spec fn within(self, function: FunctionType) -> Resolution {
        Resolution { current_function: function, ..self }
    }

    /// Whether a reference to `name` stands in the initializer of the
    /// variable that it names: the innermost scope declares the name without
    /// having resolved its initializer; or no scope of the stack declares
    /// it, the top level declares it without having resolved its
    /// initializer, and the global scope does not bind it yet.
    pub open spec fn in_own_initializer(self, name: Seq<char>) -> bool {
        ||| self.scopes.len() > 0 && self.scopes.last().dom().contains(name)
            && !self.scopes.last()[name]
        ||| self.awaits(name) && innermost(self.scopes, name, self.scopes.len() as int) is None
    }

    /// Whether the top level declares `name` without having resolved its
    /// initializer, while the global scope does not bind the name yet.
    pub open spec fn awaits(self, name: Seq<char>) -> bool {
        self.globals.dom().contains(name) && !self.globals[name] && !bound_globally(
            self.interpreter,
            name,
        )
    }
}

/// The resolver after the parameters were declared and defined, in order.
pub open spec fn declare_params(r: Resolution, params: Seq<TokenView>) -> (
    Resolution,
    Result<(), Signal>,
)
    decreases params.len(),
{
    if params.len() == 0 {
        (r, Ok(()))
    } else {
        let (r1, done) = declare_params(r, params.drop_last());
        match done {
            Ok(_) => {
                let (r2, declared) = r1.declare(params.last().lexeme);
                match declared {
                    Ok(_) => (r2.define(params.last().lexeme), Ok(())),
                    Err(x) => (r2, Err(x)),
                }
            },
            Err(x) => (r1, Err(x)),
        }
    }
}

/// The resolver after an expression was resolved, and whether it failed.
pub open spec fn resolve_expr(r: Resolution, e: ExprView) -> (Resolution, Result<(), Signal>)
    decreases 0nat, e, 0nat,
{
    match e {
        ExprView::Literal { literal } => (r, Ok(())),
        ExprView::Grouping { expression } => resolve_expr(r, *expression),
        ExprView::Unary { operator, right } => resolve_expr(r, *right),
        ExprView::Binary { left, operator, right } => {
            let (r1, done) = resolve_expr(r, *left);
            match done {
                Ok(_) => resolve_expr(r1, *right),
                Err(x) => (r1, Err(x)),
            }
        },
        ExprView::Logical { left, operator, right } => {
            let (r1, done) = resolve_expr(r, *left);
            match done {
                Ok(_) => resolve_expr(r1, *right),
                Err(x) => (r1, Err(x)),
            }
        },
        ExprView::Variable { name, id } => r.reference(e, name.lexeme),
        ExprView::Assign { name, value, id } => {
            let (r1, done) = resolve_expr(r, *value);
            r1.target(done, e, name.lexeme)
        },
        ExprView::Call { callee, paren, arguments } => {
            let (r1, done) = resolve_expr(r, *callee);
            match done {
                Ok(_) => resolve_exprs(r1, arguments),
                Err(x) => (r1, Err(x)),
            }
        },
        ExprView::Get { object, name } => resolve_expr(r, *object),
    }
}

/// The resolver after the expressions of a list were resolved in order, up
/// to the first that failed.
pub open spec fn resolve_exprs(r: Resolution, list: Seq<ExprView>) -> (
    Resolution,
    Result<(), Signal>,
)
    decreases 0nat, list, 0nat,
{
    if list.len() == 0 {
        (r, Ok(()))
    } else {
        let (r1, done) = resolve_exprs(r, list.drop_last());
        match done {
            Ok(_) => resolve_expr(r1, list.last()),
            Err(x) => (r1, Err(x)),
        }
    }
}

/// The resolver after a statement was resolved, and whether it failed.
pub open spec fn resolve_stmt(r: Resolution, s: StmtView) -> (Resolution, Result<(), Signal>)
    decreases 1nat, s, 0nat,
{
    match s {
        StmtView::Block { statements } => {
            let (r1, done) = resolve_stmts(r.begin_scope(), statements);
            match done {
                Ok(_) => (r1.end_scope(), Ok(())),
                Err(x) => (r1, Err(x)),
            }
        },
        StmtView::Variable { name, initializer } => {
            let (r1, declared) = r.declare(name.lexeme);
            match declared {
                Ok(_) => match initializer {
                    Some(expression) => {
                        let (r2, done) = resolve_expr(r1, expression);
                        match done {
                            Ok(_) => (r2.define(name.lexeme), Ok(())),
                            Err(x) => (r2, Err(x)),
                        }
                    },
                    None => (r1.define(name.lexeme), Ok(())),
                },
                Err(x) => (r1, Err(x)),
            }
        },
        StmtView::Function { name, params, body } => {
            let (r1, declared) = r.declare(name.lexeme);
            match declared {
                Ok(_) => resolve_function(r1.define(name.lexeme), params, body, FunctionType::Function),
                Err(x) => (r1, Err(x)),
            }
        },
        StmtView::Class { name, methods } => {
            let (r1, declared) = r.declare(name.lexeme);
            match declared {
                Ok(_) => (r1.define(name.lexeme), Ok(())),
                Err(x) => (r1, Err(x)),
            }
        },
        StmtView::Expression { expression } => resolve_expr(r, expression),
        StmtView::Print { expression } => resolve_expr(r, expression),
        StmtView::If { condition, then_branch, else_branch } => {
            let (r1, done) = resolve_expr(r, condition);
            match done {
                Ok(_) => {
                    let (r2, then_done) = resolve_stmt(r1, *then_branch);
                    match then_done {
                        Ok(_) => match else_branch {
                            Some(other) => resolve_stmt(r2, *other),
                            None => (r2, Ok(())),
                        },
                        Err(x) => (r2, Err(x)),
                    }
                },
                Err(x) => (r1, Err(x)),
            }
        },
        StmtView::While { condition, body } => {
            let (r1, done) = resolve_expr(r, condition);
            match done {
                Ok(_) => resolve_stmt(r1, *body),
                Err(x) => (r1, Err(x)),
            }
        },
        StmtView::Return { keyword, value } => match r.current_function {
            FunctionType::TopLevel => (r, Err(crate::semantics::failure(msg_top_level_return()))),
            FunctionType::Function => match value {
                Some(expression) => resolve_expr(r, expression),
                None => (r, Ok(())),
            },
        },
    }
}

/// The resolver after the statements of a list were resolved in order, up to
/// the first that failed.
pub open spec fn resolve_stmts(r: Resolution, list: Seq<StmtView>) -> (
    Resolution,
    Result<(), Signal>,
)
    decreases 1nat, list, 0nat,
{
    if list.len() == 0 {
        (r, Ok(()))
    } else {
        let (r1, done) = resolve_stmts(r, list.drop_last());
        match done {
            Ok(_) => resolve_stmt(r1, list.last()),
            Err(x) => (r1, Err(x)),
        }
    }
}

/// The resolver after a function was resolved: its parameters and its body
/// share one new scope, and the resolver is where it was when it is done.
pub open spec fn resolve_function(
    r: Resolution,
    params: Seq<TokenView>,
    body: Seq<StmtView>,
    function: FunctionType,
) -> (Resolution, Result<(), Signal>)
    decreases 1nat, body, 1nat,
{
    let (r1, declared) = declare_params(r.within(function).begin_scope(), params);
    match declared {
        Ok(_) => {
            let (r2, done) = resolve_stmts(r1, body);
            match done {
                Ok(_) => (r2.end_scope().within(r.current_function), Ok(())),
                Err(x) => (r2, Err(x)),
            }
        },
        Err(x) => (r1, Err(x)),
    }
}

impl View for Resolver {
    type V = Resolution;

    open spec fn view(&self) -> Resolution {
        Resolution {
            interpreter: self.interpreter@,
            scopes: Seq::new(self.scopes@.len(), |i: int| self.scopes@[i]@),
            current_function: self.current_function,
            globals: self.globals@,
        }
    }
}

impl Resolver {
    /// Each scope of the stack is a well-formed table, and so is the table
    /// of the names of the top level.
    pub open spec fn wf(&self) -> bool {
        &&& forall|i: int| 0 <= i < self.scopes@.len() ==> (#[trigger] self.scopes@[i]).wf()
        &&& self.globals.wf()
    }

    /// The resolver has kept what the resolver `before` had of the
    /// interpreter, but for the distances that it filed.
    pub open spec fn follows(&self, before: &Resolver) -> bool {
        &&& self.wf()
        &&& self.interpreter.depth == before.interpreter.depth
        &&& self.interpreter.environment == before.interpreter.environment
        &&& before.interpreter.wf() ==> self.interpreter.wf()
    }

    /// A resolver at the top level of a program, for the given interpreter.
    pub fn new(interpreter: Interpreter) -> (r: Self)
        ensures
            r.wf(),
            r.interpreter == interpreter,
            r@ == (Resolution {
                interpreter: interpreter@,
                scopes: Seq::empty(),
                current_function: FunctionType::TopLevel,
                globals: Map::empty(),
            }),
    {
        let r = Self {
            interpreter,
            scopes: Vec::new(),
            current_function: FunctionType::TopLevel,
            globals: Table::new(),
        };
        assert(r@.scopes =~= Seq::empty());
        r
    }

    /// Resolves a program.
    pub fn resolve(&mut self, statements: &Vec<Box<Statement>>) -> (r: LoxResult<Object>)
        requires
            old(self).wf(),
        ensures
            final(self).follows(old(self)),
            r matches Ok(v) ==> v@ == Value::Nil,
            (final(self)@, crate::interpreter::unit_result(r)) == resolve_stmts(
                old(self)@,
                stmts_view(statements@),
            ),
    {
        self.resolve_statements(statements)
    }

    /// Resolves the parameters and the body of a function in one new scope.
    pub fn resolve_function(
        &mut self,
        parameters: &Vec<Token>,
        body: &Vec<Box<Statement>>,
        function_type: FunctionType,
    ) -> (r: LoxResult<Object>)
        requires
            old(self).wf(),
        ensures
            final(self).follows(old(self)),
            r matches Ok(v) ==> v@ == Value::Nil,
            (final(self)@, crate::interpreter::unit_result(r)) == resolve_function(
                old(self)@,
                tokens_view(parameters@),
                stmts_view(body@),
                function_type,
            ),
        decreases 2nat, body, 1nat,
    {
        let enclosing_function = self.current_function;
        self.current_function = function_type;
        self.begin_scope();
        let ghost params = tokens_view(parameters@);
        let ghost entered = self@;
        let mut i: usize = 0;
        assert(params.take(0) =~= Seq::<TokenView>::empty());
        while i < parameters.len()
            invariant
                i <= parameters@.len(),
                params == tokens_view(parameters@),
                self.follows(old(self)),
                entered == old(self)@.within(function_type).begin_scope(),
                declare_params(entered, params.take(i as int)) == (self@, Ok::<(), Signal>(())),
            decreases parameters@.len() - i,
        {
            assert(params.take(i + 1).drop_last() =~= params.take(i as int));
            assert(params.take(i + 1).last() == parameters@[i as int]@);
            match self.declare(&parameters[i]) {
                Ok(_) => {},
                Err(e) => {
                    proof {
                        lemma_declare_params_fails(entered, params, i as int + 1);
                    }
                    return Err(e);
                },
            }
            self.define(&parameters[i]);
            i += 1;
        }
        assert(params.take(i as int) =~= params);
        match self.resolve_statements(body) {
            Ok(_) => {},
            Err(e) => {
                return Err(e);
            },
        }
        match self.end_scope() {
            Ok(_) => {},
            Err(e) => {
                return Err(e);
            },
        }
        self.current_function = enclosing_function;
        Ok(Object::Nil)
    }

    /// Puts a new, empty scope on the stack.
    pub fn begin_scope(&mut self)
        requires
            old(self).wf(),
        ensures
            final(self).follows(old(self)),
            final(self).interpreter == old(self).interpreter,
            final(self)@ == old(self)@.begin_scope(),
    {
        self.scopes.push(Table::new());
        assert(self@.scopes =~= old(self)@.begin_scope().scopes);
    }

    /// Resolves the statements of a list in order, up to the first that
    /// fails.
    pub fn resolve_statements(&mut self, statements: &Vec<Box<Statement>>) -> (r: LoxResult<Object>)
        requires
            old(self).wf(),
        ensures
            final(self).follows(old(self)),
            r matches Ok(v) ==> v@ == Value::Nil,
            (final(self)@, crate::interpreter::unit_result(r)) == resolve_stmts(
                old(self)@,
                stmts_view(statements@),
            ),
        decreases 2nat, statements, 0nat,
    {
        let ghost views = stmts_view(statements@);
        let mut i: usize = 0;
        assert(views.take(0) =~= Seq::<StmtView>::empty());
        while i < statements.len()
            invariant
                i <= statements@.len(),
                views == stmts_view(statements@),
                self.follows(old(self)),
                resolve_stmts(old(self)@, views.take(i as int)) == (self@, Ok::<(), Signal>(())),
            decreases statements@.len() - i,
        {
            assert(views.take(i + 1).drop_last() =~= views.take(i as int));
            assert(views.take(i + 1).last() == stmt_view(*statements@[i as int]));
            match self.resolve_statement(&statements[i]) {
                Ok(_) => {},
                Err(e) => {
                    proof {
                        lemma_resolve_stmts_fails(old(self)@, views, i as int + 1);
                    }
                    return Err(e);
                },
            }
            i += 1;
        }
        assert(views.take(i as int) =~= views);
        Ok(Object::Nil)
    }

    /// Resolves an expression.
    pub fn resolve_expression(&mut self, expr: &Expr) -> (r: LoxResult<Object>)
        requires
            old(self).wf(),
        ensures
            final(self).follows(old(self)),
            r matches Ok(v) ==> v@ == Value::Nil,
            (final(self)@, crate::interpreter::unit_result(r)) == resolve_expr(
                old(self)@,
                expr_view(*expr),
            ),
        decreases 1nat, expr, 1nat,
    {
        match expr {
            Expr::Get { object, name } => self.visit_get_expression(expr, object, name),
            Expr::Binary { left, operator, right } => self.visit_binary_expression(
                left,
                operator,
                right,
            ),
            Expr::Grouping { expression } => self.visit_group_expression(expression),
            Expr::Literal { literal } => self.visit_literal_expression(literal),
            Expr::Logical { left, operator, right } => self.visit_logical_expression(
                expr,
                left,
                operator,
                right,
            ),
            Expr::Assign { name, value, id } => self.visit_assign_expression(expr, name, value),
            Expr::Unary { operator, right } => self.visit_unary_expression(operator, right),
            Expr::Variable { name, id } => self.visit_variable_expression(expr, name),
            Expr::Call { callee, paren, arguments } => {
                proof {
                    lemma_call_view(*callee, *paren, *arguments);
                }
                self.visit_call_expression(callee, paren, arguments)
            },
        }
    }

    /// Takes the innermost scope off the stack.
    pub fn end_scope(&mut self) -> (r: LoxResult<Object>)
        requires
            old(self).wf(),
        ensures
            final(self).follows(old(self)),
            final(self).interpreter == old(self).interpreter,
            r matches Ok(v) && v@ == Value::Nil,
            final(self)@ == old(self)@.end_scope(),
    {
        self.scopes.pop();
        assert(self@.scopes =~= old(self)@.end_scope().scopes);
        Ok(Object::Nil)
    }

    /// Files the node `variable` with its distance from the innermost scope
    /// that declares `name`, if a scope of the stack does.
    pub fn resolve_local(&mut self, variable: &Expr, name: &Token) -> (r: LoxResult<Object>)
        requires
            old(self).wf(),
        ensures
            final(self).follows(old(self)),
            r matches Ok(v) && v@ == Value::Nil,
            final(self)@ == old(self)@.resolve_local(expr_view(*variable), name.lexeme@),
    {
        let mut i: usize = self.scopes.len();
        while i > 0
            invariant
                i <= self.scopes@.len(),
                *self == *old(self),
                self.wf(),
                innermost(self@.scopes, name.lexeme@, i as int) == innermost(
                    self@.scopes,
                    name.lexeme@,
                    self.scopes@.len() as int,
                ),
            decreases i,
        {
            assert(self@.scopes[i - 1] == self.scopes@[i - 1]@);
            if self.scopes[i - 1].position(&name.lexeme).is_some() {
                let distance = self.scopes.len() - i;
                self.interpreter.resolve_local(variable, distance);
                return Ok(Object::Nil);
            }
            i -= 1;
        }
        Ok(Object::Nil)
    }

    /// Marks `name` as initialized in the innermost scope, or among the
    /// names of the top level outside of every scope.
    pub fn define(&mut self, name: &Token)
        requires
            old(self).wf(),
        ensures
            final(self).follows(old(self)),
            final(self).interpreter == old(self).interpreter,
            final(self)@ == old(self)@.define(name.lexeme@),
    {
        if self.scopes.len() > 0 {
            let last = self.scopes.len() - 1;
            let mut scope = Table::new();
            std::mem::swap(&mut scope, &mut self.scopes[last]);
            scope.bind(name.lexeme(), true);
            self.scopes.set(last, scope);
            assert(self@.scopes =~= old(self)@.define(name.lexeme@).scopes);
        } else {
            self.globals.bind(name.lexeme(), true);
            assert(self@.scopes =~= old(self)@.scopes);
        }
    }

    /// Resolves a statement.
    pub fn resolve_statement(&mut self, stmt: &Box<Statement>) -> (r: LoxResult<Object>)
        requires
            old(self).wf(),
        ensures
            final(self).follows(old(self)),
            r matches Ok(v) ==> v@ == Value::Nil,
            (final(self)@, crate::interpreter::unit_result(r)) == resolve_stmt(
                old(self)@,
                stmt_view(**stmt),
            ),
        decreases 2nat, stmt, 1nat,
    {
        proof {
            lemma_list_views(**stmt);
        }
        match &**stmt {
            Statement::Class { name, methods } => self.visit_class_stmt(name),
            Statement::Return { keyword, value } => self.visit_return_statement(keyword, value),
            Statement::Function { name, params, body } => self.visit_function_statement(
                &**stmt,
                name,
                params,
                body,
            ),
            Statement::Expression { expression } => self.visit_expression_stmt(&**stmt, expression),
            Statement::Print { expression } => self.visit_print_stmt(&**stmt, expression),
            Statement::Variable { name, initializer } => self.visit_var_stmt(
                &**stmt,
                name,
                initializer,
            ),
            Statement::Block { statements } => self.visit_block_statement(&**stmt, statements),
            Statement::While { condition, body } => self.visit_while_statement(
                &**stmt,
                condition,
                body,
            ),
            Statement::If { condition, then_branch, else_branch } => self.visit_if_statement(
                &**stmt,
                condition,
                then_branch,
                else_branch,
            ),
        }
    }

    /// Declares `name` in the innermost scope, as not yet initialized.
    /// Outside of every scope the name is noted as a name of the top level,
    /// unless the program has declared it there before.
    pub fn declare(&mut self, name: &Token) -> (r: LoxResult<Object>)
        requires
            old(self).wf(),
        ensures
            final(self).follows(old(self)),
            final(self).interpreter == old(self).interpreter,
            r matches Ok(v) ==> v@ == Value::Nil,
            (final(self)@, crate::interpreter::unit_result(r)) == old(self)@.declare(name.lexeme@),
    {
        if self.scopes.len() > 0 {
            let last = self.scopes.len() - 1;
            assert(self@.scopes[last as int] == self.scopes@[last as int]@);
            if self.scopes[last].position(&name.lexeme).is_some() {
                return failure("Variable already defined in scope.");
            }
            let mut scope = Table::new();
            std::mem::swap(&mut scope, &mut self.scopes[last]);
            scope.bind(name.lexeme(), false);
            self.scopes.set(last, scope);
            assert(self@.scopes =~= old(self)@.declare(name.lexeme@).0.scopes);
        } else if self.globals.position(&name.lexeme).is_none() {
            self.globals.bind(name.lexeme(), false);
            assert(self@.scopes =~= old(self)@.scopes);
        }
        Ok(Object::Nil)
    }
}

impl Resolver {
    /// Resolves the callee and the arguments of a call.
    pub fn visit_call_expression(
        &mut self,
        callee: &Box<Expr>,
        _paren: &Token,
        arguments: &Vec<Box<Expr>>,
    ) -> (r: LoxResult<Object>)
        requires
            old(self).wf(),
        ensures
            final(self).follows(old(self)),
            r matches Ok(v) ==> v@ == Value::Nil,
            (final(self)@, crate::interpreter::unit_result(r)) == resolve_expr(
                old(self)@,
                (ExprView::Call {
                    callee: Box::new(expr_view(**callee)),
                    paren: _paren@,
                    arguments: exprs_view(arguments@),
                }),
            ),
        decreases 1nat,
            (Expr::Call { callee: *callee, paren: *_paren, arguments: *arguments }),
            0nat,
    {
        let ghost node = Expr::Call { callee: *callee, paren: *_paren, arguments: *arguments };
        assert(node->callee == *callee);
        assert(node->arguments == *arguments);
        match self.resolve_expression(callee) {
            Ok(_) => {},
            Err(e) => {
                return Err(e);
            },
        }
        let ghost r1 = self@;
        let ghost list = exprs_view(arguments@);
        let mut i: usize = 0;
        assert(list.take(0) =~= Seq::<ExprView>::empty());
        while i < arguments.len()
            invariant
                i <= arguments@.len(),
                list == exprs_view(arguments@),
                self.follows(old(self)),
                decreases_to!(node => arguments),
                node == (Expr::Call { callee: *callee, paren: *_paren, arguments: *arguments }),
                resolve_expr(old(self)@, expr_view(**callee)) == (r1, Ok::<(), Signal>(())),
                resolve_exprs(r1, list.take(i as int)) == (self@, Ok::<(), Signal>(())),
            decreases arguments@.len() - i,
        {
            assert(list.take(i + 1).drop_last() =~= list.take(i as int));
            assert(list.take(i + 1).last() == expr_view(*arguments@[i as int]));
            match self.resolve_expression(&arguments[i]) {
                Ok(_) => {},
                Err(e) => {
                    proof {
                        lemma_resolve_exprs_fails(r1, list, i as int + 1);
                    }
                    return Err(e);
                },
            }
            i += 1;
        }
        assert(list.take(i as int) =~= list);
        Ok(Object::Nil)
    }

    /// Resolves the object of a property access.
    pub fn visit_get_expression(&mut self, expr: &Expr, object: &Box<Expr>, name: &Token) -> (r:
        LoxResult<Object>)
        requires
            old(self).wf(),
        ensures
            final(self).follows(old(self)),
            r matches Ok(v) ==> v@ == Value::Nil,
            (final(self)@, crate::interpreter::unit_result(r)) == resolve_expr(
                old(self)@,
                expr_view(**object),
            ),
        decreases 1nat, (Expr::Get { object: *object, name: *name }), 0nat,
    {
        proof {
            let node = Expr::Get { object: *object, name: *name };
            assert(node->object == *object);
        }
        self.resolve_expression(object)
    }

    /// Resolves the value of an assignment and files the assignment.
    pub fn visit_assign_expression(&mut self, expr: &Expr, name: &Token, value: &Box<Expr>) -> (r:
        LoxResult<Object>)
        requires
            old(self).wf(),
        ensures
            final(self).follows(old(self)),
            r matches Ok(v) ==> v@ == Value::Nil,
            ({
                let (resolved, done) = resolve_expr(old(self)@, expr_view(**value));
                (final(self)@, crate::interpreter::unit_result(r)) == resolved.target(
                    done,
                    expr_view(*expr),
                    name.lexeme@,
                )
            }),
        decreases 1nat, value, 2nat,
    {
        match self.resolve_expression(value) {
            Ok(_) => {},
            Err(e) => {
                return Err(e);
            },
        }
        self.resolve_local(expr, name)
    }

    /// Resolves the operands of a binary operator.
    pub fn visit_binary_expression(
        &mut self,
        left: &Box<Expr>,
        _operator: &Token,
        right: &Box<Expr>,
    ) -> (r: LoxResult<Object>)
        requires
            old(self).wf(),
        ensures
            final(self).follows(old(self)),
            r matches Ok(v) ==> v@ == Value::Nil,
            (final(self)@, crate::interpreter::unit_result(r)) == resolve_expr(
                old(self)@,
                (ExprView::Binary {
                    left: Box::new(expr_view(**left)),
                    operator: _operator@,
                    right: Box::new(expr_view(**right)),
                }),
            ),
        decreases 1nat, (Expr::Binary { left: *left, operator: *_operator, right: *right }), 0nat,
    {
        proof {
            let node = Expr::Binary { left: *left, operator: *_operator, right: *right };
            assert(node->Binary_left == *left);
            assert(node->Binary_right == *right);
        }
        match self.resolve_expression(left) {
            Ok(_) => {},
            Err(e) => {
                return Err(e);
            },
        }
        self.resolve_expression(right)
    }

    /// Resolves an expression in brackets.
    pub fn visit_group_expression(&mut self, content: &Box<Expr>) -> (r: LoxResult<Object>)
        requires
            old(self).wf(),
        ensures
            final(self).follows(old(self)),
            r matches Ok(v) ==> v@ == Value::Nil,
            (final(self)@, crate::interpreter::unit_result(r)) == resolve_expr(
                old(self)@,
                (ExprView::Grouping { expression: Box::new(expr_view(**content)) }),
            ),
        decreases 1nat, (Expr::Grouping { expression: *content }), 0nat,
    {
        proof {
            let node = Expr::Grouping { expression: *content };
            assert(node->expression == *content);
        }
        self.resolve_expression(content)
    }

    /// Resolves a literal: there is nothing to resolve.
    pub fn visit_literal_expression(&mut self, _literal: &Literal) -> (r: LoxResult<Object>)
        requires
            old(self).wf(),
        ensures
            *final(self) == *old(self),
            r matches Ok(v) && v@ == Value::Nil,
    {
        Ok(Object::Nil)
    }

    /// Resolves the operand of a unary operator.
    pub fn visit_unary_expression(&mut self, _operator: &Token, right: &Box<Expr>) -> (r:
        LoxResult<Object>)
        requires
            old(self).wf(),
        ensures
            final(self).follows(old(self)),
            r matches Ok(v) ==> v@ == Value::Nil,
            (final(self)@, crate::interpreter::unit_result(r)) == resolve_expr(
                old(self)@,
                (ExprView::Unary { operator: _operator@, right: Box::new(expr_view(**right)) }),
            ),
        decreases 1nat, (Expr::Unary { operator: *_operator, right: *right }), 0nat,
    {
        proof {
            let node = Expr::Unary { operator: *_operator, right: *right };
            assert(node->Unary_right == *right);
        }
        self.resolve_expression(right)
    }

    /// Resolves the operands of `and` or `or`.
    pub fn visit_logical_expression(
        &mut self,
        _expr: &Expr,
        left: &Box<Expr>,
        _operator: &Token,
        right: &Box<Expr>,
    ) -> (r: LoxResult<Object>)
        requires
            old(self).wf(),
        ensures
            final(self).follows(old(self)),
            r matches Ok(v) ==> v@ == Value::Nil,
            (final(self)@, crate::interpreter::unit_result(r)) == resolve_expr(
                old(self)@,
                (ExprView::Logical {
                    left: Box::new(expr_view(**left)),
                    operator: _operator@,
                    right: Box::new(expr_view(**right)),
                }),
            ),
        decreases 1nat, (Expr::Logical { left: *left, operator: *_operator, right: *right }), 0nat,
    {
        proof {
            let node = Expr::Logical { left: *left, operator: *_operator, right: *right };
            assert(node->Logical_left == *left);
            assert(node->Logical_right == *right);
        }
        match self.resolve_expression(left) {
            Ok(_) => {},
            Err(e) => {
                return Err(e);
            },
        }
        self.resolve_expression(right)
    }

    /// Files a variable node, unless it stands in the initializer of the
    /// variable that it names.
    pub fn visit_variable_expression(&mut self, expr: &Expr, name: &Token) -> (r: LoxResult<Object>)
        requires
            old(self).wf(),
        ensures
            final(self).follows(old(self)),
            r matches Ok(v) ==> v@ == Value::Nil,
            (final(self)@, crate::interpreter::unit_result(r)) == old(self)@.reference(
                expr_view(*expr),
                name.lexeme@,
            ),
    {
        if self.scopes.len() > 0 {
            let last = self.scopes.len() - 1;
            assert(self@.scopes[last as int] == self.scopes@[last as int]@);
            if let Some(i) = self.scopes[last].position(&name.lexeme) {
                let defined = self.scopes[last].values[i];
                if !defined {
                    return failure("Cannot read local variable in its own initializer.");
                }
            }
        }
        if self.awaits(&name.lexeme) && !self.declares(&name.lexeme) {
            return failure("Cannot read local variable in its own initializer.");
        }
        self.resolve_local(expr, name)
    }

    /// Whether the top level declares `name` without having resolved its
    /// initializer, while the global scope does not bind the name yet.
    fn awaits(&self, name: &String) -> (r: bool)
        requires
            self.wf(),
        ensures
            r == self@.awaits(name@),
    {
        match self.globals.position(name) {
            Some(i) => {
                if self.globals.values[i] {
                    return false;
                }
            },
            None => {
                return false;
            },
        }
        if self.interpreter.environment.scopes.len() > 0 {
            assert(self@.interpreter.environment.scopes[0].values
                == self.interpreter.environment.scopes@[0].values@);
            !self.interpreter.environment.scopes[0].values.holds(name)
        } else {
            true
        }
    }

    /// Whether a scope of the stack declares `name`.
    fn declares(&self, name: &String) -> (r: bool)
        requires
            self.wf(),
        ensures
            r == (innermost(self@.scopes, name@, self.scopes@.len() as int) is Some),
    {
        let mut i: usize = self.scopes.len();
        while i > 0
            invariant
                i <= self.scopes@.len(),
                self.wf(),
                innermost(self@.scopes, name@, i as int) == innermost(
                    self@.scopes,
                    name@,
                    self.scopes@.len() as int,
                ),
            decreases i,
        {
            assert(self@.scopes[i - 1] == self.scopes@[i - 1]@);
            if self.scopes[i - 1].position(name).is_some() {
                return true;
            }
            i -= 1;
        }
        false
    }

    /// Resolves a class declaration: its name is declared and defined.
    pub fn visit_class_stmt(&mut self, name: &Token) -> (r: LoxResult<Object>)
        requires
            old(self).wf(),
        ensures
            final(self).follows(old(self)),
            r matches Ok(v) ==> v@ == Value::Nil,
            ({
                let (r1, declared) = old(self)@.declare(name.lexeme@);
                match declared {
                    Ok(_) => final(self)@ == r1.define(name.lexeme@) && r is Ok,
                    Err(x) => final(self)@ == r1 && crate::interpreter::unit_result(r) == Err::<
                        (),
                        Signal,
                    >(x),
                }
            }),
    {
        match self.declare(name) {
            Ok(_) => {},
            Err(e) => {
                return Err(e);
            },
        }
        self.define(name);
        Ok(Object::Nil)
    }

    /// Resolves a `return`, which fails outside of every function.
    pub fn visit_return_statement(&mut self, _keyword: &Token, value: &Option<Box<Expr>>) -> (r:
        LoxResult<Object>)
        requires
            old(self).wf(),
        ensures
            final(self).follows(old(self)),
            r matches Ok(v) ==> v@ == Value::Nil,
            old(self).current_function == FunctionType::TopLevel ==> (r matches Err(e) && e@
                == crate::semantics::failure(msg_top_level_return())),
            (final(self)@, crate::interpreter::unit_result(r)) == resolve_stmt(
                old(self)@,
                (StmtView::Return {
                    keyword: _keyword@,
                    value: match *value {
                        Some(v) => Some(expr_view(*v)),
                        None => None,
                    },
                }),
            ),
    {
        match self.current_function {
            FunctionType::TopLevel => {
                return failure("Can't return from top-level code");
            },
            _ => {
                if let Some(value) = value {
                    match self.resolve_expression(value) {
                        Ok(_) => {},
                        Err(e) => {
                            return Err(e);
                        },
                    }
                }
                Ok(Object::Nil)
            },
        }
    }

    /// Resolves the condition and the body of a loop.
    pub fn visit_while_statement(
        &mut self,
        _statement: &Statement,
        condition: &Box<Expr>,
        body: &Box<Statement>,
    ) -> (r: LoxResult<Object>)
        requires
            old(self).wf(),
        ensures
            final(self).follows(old(self)),
            r matches Ok(v) ==> v@ == Value::Nil,
            (final(self)@, crate::interpreter::unit_result(r)) == resolve_stmt(
                old(self)@,
                stmt_view(Statement::While { condition: *condition, body: *body }),
            ),
        decreases 2nat, (Statement::While { condition: *condition, body: *body }), 0nat,
    {
        proof {
            let node = Statement::While { condition: *condition, body: *body };
            assert(node->While_body == *body);
        }
        match self.resolve_expression(condition) {
            Ok(_) => {},
            Err(e) => {
                return Err(e);
            },
        }
        match self.resolve_statement(body) {
            Ok(_) => {},
            Err(e) => {
                return Err(e);
            },
        }
        Ok(Object::Nil)
    }

    /// Resolves the expression of a `print`.
    pub fn visit_print_stmt(&mut self, _stmt: &Statement, expr: &Box<Expr>) -> (r: LoxResult<Object>)
        requires
            old(self).wf(),
        ensures
            final(self).follows(old(self)),
            r matches Ok(v) ==> v@ == Value::Nil,
            (final(self)@, crate::interpreter::unit_result(r)) == resolve_stmt(
                old(self)@,
                stmt_view(Statement::Print { expression: *expr }),
            ),
        decreases 2nat, (Statement::Print { expression: *expr }), 0nat,
    {
        match self.resolve_expression(expr) {
            Ok(_) => {},
            Err(e) => {
                return Err(e);
            },
        }
        Ok(Object::Nil)
    }

    /// Resolves the expression of an expression statement.
    pub fn visit_expression_stmt(&mut self, _stmt: &Statement, expression: &Box<Expr>) -> (r:
        LoxResult<Object>)
        requires
            old(self).wf(),
        ensures
            final(self).follows(old(self)),
            r matches Ok(v) ==> v@ == Value::Nil,
            (final(self)@, crate::interpreter::unit_result(r)) == resolve_stmt(
                old(self)@,
                stmt_view(Statement::Expression { expression: *expression }),
            ),
        decreases 2nat, (Statement::Expression { expression: *expression }), 0nat,
    {
        self.resolve_expression(expression)
    }

    /// Resolves the condition and the branches of an `if`.
    pub fn visit_if_statement(
        &mut self,
        _stmt: &Statement,
        condition: &Box<Expr>,
        then_branch: &Box<Statement>,
        else_branch: &Option<Box<Statement>>,
    ) -> (r: LoxResult<Object>)
        requires
            old(self).wf(),
        ensures
            final(self).follows(old(self)),
            r matches Ok(v) ==> v@ == Value::Nil,
            (final(self)@, crate::interpreter::unit_result(r)) == resolve_stmt(
                old(self)@,
                stmt_view(
                    Statement::If {
                        condition: *condition,
                        then_branch: *then_branch,
                        else_branch: *else_branch,
                    },
                ),
            ),
        decreases 2nat,
            (Statement::If {
                condition: *condition,
                then_branch: *then_branch,
                else_branch: *else_branch,
            }),
            0nat,
    {
        proof {
            let node = Statement::If {
                condition: *condition,
                then_branch: *then_branch,
                else_branch: *else_branch,
            };
            assert(node->then_branch == *then_branch);
            assert(node->else_branch == *else_branch);
        }
        match self.resolve_expression(condition) {
            Ok(_) => {},
            Err(e) => {
                return Err(e);
            },
        }
        match self.resolve_statement(then_branch) {
            Ok(_) => {},
            Err(e) => {
                return Err(e);
            },
        }
        if let Some(else_branch) = else_branch {
            self.resolve_statement(else_branch)
        } else {
            Ok(Object::Nil)
        }
    }

    /// Resolves a function declaration: the name is defined before the body
    /// is resolved, so that the function can name itself.
    pub fn visit_function_statement(
        &mut self,
        _stmt: &Statement,
        name: &Token,
        parameters: &Vec<Token>,
        body: &Vec<Box<Statement>>,
    ) -> (r: LoxResult<Object>)
        requires
            old(self).wf(),
        ensures
            final(self).follows(old(self)),
            r matches Ok(v) ==> v@ == Value::Nil,
            (final(self)@, crate::interpreter::unit_result(r)) == resolve_stmt(
                old(self)@,
                (StmtView::Function {
                    name: name@,
                    params: tokens_view(parameters@),
                    body: stmts_view(body@),
                }),
            ),
        decreases 2nat,
            (Statement::Function { name: *name, params: *parameters, body: *body }),
            0nat,
    {
        proof {
            let node = Statement::Function { name: *name, params: *parameters, body: *body };
            assert(node->Function_body == *body);
        }
        match self.declare(name) {
            Ok(_) => {},
            Err(e) => {
                return Err(e);
            },
        }
        self.define(name);
        self.resolve_function(parameters, body, FunctionType::Function)
    }

    /// Resolves a block in a new scope.
    pub fn visit_block_statement(&mut self, _stmt: &Statement, statements: &Vec<Box<Statement>>) -> (r:
        LoxResult<Object>)
        requires
            old(self).wf(),
        ensures
            final(self).follows(old(self)),
            r matches Ok(v) ==> v@ == Value::Nil,
            (final(self)@, crate::interpreter::unit_result(r)) == resolve_stmt(
                old(self)@,
                (StmtView::Block { statements: stmts_view(statements@) }),
            ),
        decreases 2nat, (Statement::Block { statements: *statements }), 0nat,
    {
        proof {
            let node = Statement::Block { statements: *statements };
            assert(node->statements == *statements);
        }
        self.begin_scope();
        match self.resolve_statements(statements) {
            Ok(_) => {},
            Err(e) => {
                return Err(e);
            },
        }
        match self.end_scope() {
            Ok(_) => {},
            Err(e) => {
                return Err(e);
            },
        }
        Ok(Object::Nil)
    }

    /// Resolves a variable declaration: the name is declared, then the
    /// initializer is resolved, then the name is marked as initialized.
    pub fn visit_var_stmt(
        &mut self,
        _stmt: &Statement,
        name: &Token,
        initializer: &Option<Box<Expr>>,
    ) -> (r: LoxResult<Object>)
        requires
            old(self).wf(),
        ensures
            final(self).follows(old(self)),
            r matches Ok(v) ==> v@ == Value::Nil,
            (final(self)@, crate::interpreter::unit_result(r)) == resolve_stmt(
                old(self)@,
                stmt_view(Statement::Variable { name: *name, initializer: *initializer }),
            ),
        decreases 2nat, (Statement::Variable { name: *name, initializer: *initializer }), 0nat,
    {
        match self.declare(name) {
            Ok(_) => {},
            Err(e) => {
                return Err(e);
            },
        }
        if let Some(initializer) = initializer {
            match self.resolve_expression(initializer) {
                Ok(_) => {},
                Err(e) => {
                    return Err(e);
                },
            }
        }
        self.define(name);
        Ok(Object::Nil)
    }
}

/// A list of parameters fails where one of its beginnings fails.
pub proof fn lemma_declare_params_fails(r: Resolution, list: Seq<TokenView>, n: int)
    requires
        0 <= n <= list.len(),
        declare_params(r, list.take(n)).1 is Err,
    ensures
        declare_params(r, list) == declare_params(r, list.take(n)),
    decreases list.len() - n,
{
    if n < list.len() {
        assert(list.take(n + 1).drop_last() =~= list.take(n));
        lemma_declare_params_fails(r, list, n + 1);
    } else {
        assert(list.take(n) =~= list);
    }
}

/// A list of expressions fails where one of its beginnings fails.
pub proof fn lemma_resolve_exprs_fails(r: Resolution, list: Seq<ExprView>, n: int)
    requires
        0 <= n <= list.len(),
        resolve_exprs(r, list.take(n)).1 is Err,
    ensures
        resolve_exprs(r, list) == resolve_exprs(r, list.take(n)),
    decreases list.len() - n,
{
    if n < list.len() {
        assert(list.take(n + 1).drop_last() =~= list.take(n));
        lemma_resolve_exprs_fails(r, list, n + 1);
    } else {
        assert(list.take(n) =~= list);
    }
}

/// A list of statements fails where one of its beginnings fails.
pub proof fn lemma_resolve_stmts_fails(r: Resolution, list: Seq<StmtView>, n: int)
    requires
        0 <= n <= list.len(),
        resolve_stmts(r, list.take(n)).1 is Err,
    ensures
        resolve_stmts(r, list) == resolve_stmts(r, list.take(n)),
    decreases list.len() - n,
{
    if n < list.len() {
        assert(list.take(n + 1).drop_last() =~= list.take(n));
        lemma_resolve_stmts_fails(r, list, n + 1);
    } else {
        assert(list.take(n) =~= list);
    }
}

} // verus!
