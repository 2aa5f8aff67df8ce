use crate::interpreter::{LoxResult, ReturnStatus, Signal};
use crate::lox_error::{LoxError, LoxErrorView};
use crate::object::{Object, Value};
use crate::table::Table;
use crate::token::Token;
use vstd::prelude::*;

verus! {

/// One level of names: what each name stands for, and the level around it.
pub struct Scope {
    pub values: Table<Object>,
    pub enclosing: Option<usize>,
}

/// The mathematical value of a [`Scope`].
pub struct ScopeView {
    pub values: Map<Seq<char>, Value>,
    pub enclosing: Option<int>,
}

impl View for Scope {
    type V = ScopeView;

    open spec fn view(&self) -> ScopeView {
        ScopeView {
            values: self.values@,
            enclosing: match self.enclosing {
                Some(p) => Some(p as int),
                None => None,
            },
        }
    }
}

impl Scope {
    /// Every name has its value, and no name stands twice.
    pub open spec fn wf(&self) -> bool {
        self.values.wf()
    }
}

/// The chain of scopes of a running program.
///
/// The scopes live in one list and name each other by their place in it. The
/// first is the global scope, which has no scope around it; each of the
/// others lies in a scope that was made before it. `current` is the scope in
/// which the program is running.
pub struct Environment {
    pub scopes: Vec<Scope>,
    pub current: usize,
}

/// The mathematical value of an [`Environment`].
pub struct EnvironmentView {
    pub scopes: Seq<ScopeView>,
    pub current: int,
}

/// The scope that lies `distance` levels around the scope `start`, if the
/// chain is that long.
pub open spec fn ancestor(scopes: Seq<ScopeView>, start: int, distance: nat) -> Option<int>
    decreases distance,
{
    if !(0 <= start < scopes.len()) {
        None
    } else if distance == 0 {
        Some(start)
    } else {
        match scopes[start].enclosing {
            Some(p) => ancestor(scopes, p, (distance - 1) as nat),
            None => None,
        }
    }
}

/// The nearest scope, from `start` outwards, that binds `name`.
pub open spec fn owner(scopes: Seq<ScopeView>, start: int, name: Seq<char>) -> Option<int>
    decreases start,
{
    if !(0 <= start < scopes.len()) {
        None
    } else if scopes[start].values.dom().contains(name) {
        Some(start)
    } else {
        match scopes[start].enclosing {
            Some(p) => if 0 <= p < start {
                owner(scopes, p, name)
            } else {
                None
            },
            None => None,
        }
    }
}

/// The message for a name that is not bound where the resolver found it.
pub open spec fn msg_unbound_local() -> Seq<char> {
    "Cannot read local variable in its own initializer."@
}

/// The message for an assignment to a name that no scope binds.
pub open spec fn msg_unbound_assignment() -> Seq<char> {
    "Variable not found in scope."@
}

impl EnvironmentView {
    /// The chain of one scope, the global one, which binds no name.
    pub open spec fn initial() -> EnvironmentView {
        EnvironmentView {
            scopes: seq![ScopeView { values: Map::empty(), enclosing: None }],
            current: 0,
        }
    }

    /// The first scope is the only one without a scope around it, each other
    /// scope lies in an older one, and the current scope exists.
    pub open spec fn wf(self) -> bool {
        &&& self.scopes.len() > 0
        &&& 0 <= self.current < self.scopes.len()
        &&& self.scopes[0].enclosing is None
        &&& forall|i: int|
            0 < i < self.scopes.len() ==> (#[trigger] self.scopes[i]).enclosing is Some && 0
                <= self.scopes[i].enclosing->0 < i
    }

    /// The chain with a new, empty scope inside the scope `parent`.
    pub open spec fn child_of(self, parent: int) -> EnvironmentView {
        EnvironmentView {
            scopes: self.scopes.push(ScopeView { values: Map::empty(), enclosing: Some(parent) }),
            current: self.current,
        }
    }

    /// The chain with `scope` as the current scope.
    pub open spec fn at(self, scope: int) -> EnvironmentView {
        EnvironmentView { scopes: self.scopes, current: scope }
    }

    /// The chain after `name` was bound to `value` in the scope `scope`.
    pub open spec fn bind(self, scope: int, name: Seq<char>, value: Value) -> EnvironmentView {
        EnvironmentView {
            scopes: self.scopes.update(
                scope,
                ScopeView {
                    values: self.scopes[scope].values.insert(name, value),
                    enclosing: self.scopes[scope].enclosing,
                },
            ),
            current: self.current,
        }
    }

    /// The chain after `name` was bound to `value` in the current scope.
    pub open spec fn define(self, name: Seq<char>, value: Value) -> EnvironmentView {
        self.bind(self.current, name, value)
    }

    /// What `name` stands for in the scope `distance` levels around the
    /// current one; an error if the chain is shorter or the name is not
    /// bound there.
    pub open spec fn get_at(self, distance: nat, name: Seq<char>) -> Result<Value, Signal> {
        match ancestor(self.scopes, self.current, distance) {
            Some(s) => if self.scopes[s].values.dom().contains(name) {
                Ok(self.scopes[s].values[name])
            } else {
                Err(Signal::Error(LoxErrorView::BindingError(name, msg_unbound_local())))
            },
            None => Err(Signal::Error(LoxErrorView::BindingError(name, msg_unbound_local()))),
        }
    }

    /// What `name` stands for in the global scope; `nil` if it is not bound
    /// there.
    pub open spec fn get(self, name: Seq<char>) -> Value {
        if self.scopes[0].values.dom().contains(name) {
            self.scopes[0].values[name]
        } else {
            Value::Nil
        }
    }

    /// The chain after `value` was given to `name` in the nearest scope that
    /// binds it; an error if no scope from the current one outwards does.
    pub open spec fn assign(self, name: Seq<char>, value: Value) -> Result<
        EnvironmentView,
        Signal,
    > {
        match owner(self.scopes, self.current, name) {
            Some(s) => Ok(self.bind(s, name, value)),
            None => Err(Signal::Error(LoxErrorView::RuntimeError(msg_unbound_assignment()))),
        }
    }
}

impl View for Environment {
    type V = EnvironmentView;

    open spec fn view(&self) -> EnvironmentView {
        EnvironmentView {
            scopes: Seq::new(self.scopes@.len(), |i: int| self.scopes@[i]@),
            current: self.current as int,
        }
    }
}

impl Environment {
    /// The chain is well formed, and so is each of its scopes.
    pub open spec fn wf(&self) -> bool {
        &&& self@.wf()
        &&& forall|i: int| 0 <= i < self.scopes@.len() ==> (#[trigger] self.scopes@[i]).wf()
    }

    /// What `name` stands for in the scope `distance` levels around the
    /// current one.
    pub fn get_at(&self, distance: usize, name: &str) -> (r: LoxResult<Object>)
        requires
            self.wf(),
        ensures
            match r {
                Ok(v) => self@.get_at(distance as nat, name@) == Ok::<Value, Signal>(v@),
                Err(e) => self@.get_at(distance as nat, name@) == Err::<Value, Signal>(e@),
            },
    {
        let key = name.to_owned();
        let mut scope = self.current;
        let mut left = distance;
        while left > 0
            invariant
                self.wf(),
                scope < self.scopes@.len(),
                key@ == name@,
                ancestor(self@.scopes, scope as int, left as nat) == ancestor(
                    self@.scopes,
                    self.current as int,
                    distance as nat,
                ),
            decreases left,
        {
            match self.scopes[scope].enclosing {
                Some(p) => {
                    assert(self@.scopes[scope as int].enclosing == Some(p as int));
                    if scope == 0 || p >= scope {
                        assert(false);
                    }
                    scope = p;
                    left -= 1;
                },
                None => {
                    assert(self@.scopes[scope as int].enclosing is None);
                    return Err(
                        ReturnStatus::Error(
                            LoxError::BindingError(
                                key,
                                "Cannot read local variable in its own initializer.".to_owned(),
                            ),
                        ),
                    );
                },
            }
        }
        assert(self@.scopes[scope as int] == self.scopes@[scope as int]@);
        match self.scopes[scope].values.position(&key) {
            Some(i) => Ok(self.scopes[scope].values.values[i].clone()),
            None => Err(
                ReturnStatus::Error(
                    LoxError::BindingError(
                        key,
                        "Cannot read local variable in its own initializer.".to_owned(),
                    ),
                ),
            ),
        }
    }

    /// A chain of one scope, the global one, which binds no name.
    pub fn new() -> (r: Self)
        ensures
            r.wf(),
            r@ == EnvironmentView::initial(),
    {
        let mut scopes: Vec<Scope> = Vec::new();
        scopes.push(Scope { values: Table::new(), enclosing: None });
        let r = Environment { scopes, current: 0 };
        assert(r@.scopes =~= seq![ScopeView { values: Map::empty(), enclosing: None }]);
        r
    }

    /// Makes a new, empty scope inside the scope `environment` and gives its
    /// place. The current scope stays what it was.
    pub fn with_ref(&mut self, environment: usize) -> (child: usize)
        requires
            old(self).wf(),
            environment < old(self).scopes@.len(),
        ensures
            final(self).wf(),
            child == old(self).scopes@.len(),
            final(self)@ == old(self)@.child_of(environment as int),
    {
        let child = self.scopes.len();
        self.scopes.push(Scope { values: Table::new(), enclosing: Some(environment) });
        assert(self@.scopes =~= old(self)@.child_of(environment as int).scopes);
        child
    }

    /// Makes a new, empty scope inside the scope `parent` and gives its
    /// place. The current scope stays what it was.
    pub fn child_of(&mut self, parent: usize) -> (child: usize)
        requires
            old(self).wf(),
            parent < old(self).scopes@.len(),
        ensures
            final(self).wf(),
            child == old(self).scopes@.len(),
            final(self)@ == old(self)@.child_of(parent as int),
    {
        self.with_ref(parent)
    }

    /// Binds `name` to `value` in the current scope, in place of what it
    /// stood for there if it was bound.
    pub fn define(&mut self, name: &str, value: &Object)
        requires
            old(self).wf(),
        ensures
            final(self).wf(),
            final(self)@ == old(self)@.define(name@, value@),
            final(self)@.scopes.len() == old(self)@.scopes.len(),
            final(self).current == old(self).current,
    {
        let current = self.current;
        self.bind_in(current, name.to_owned(), value.clone());
    }

    fn bind_in(&mut self, scope: usize, name: String, value: Object)
        requires
            old(self).wf(),
            scope < old(self).scopes@.len(),
        ensures
            final(self).wf(),
            final(self)@ == old(self)@.bind(scope as int, name@, value@),
            final(self)@.scopes.len() == old(self)@.scopes.len(),
            final(self).current == old(self).current,
    {
        let mut target = Scope { values: Table::new(), enclosing: None };
        std::mem::swap(&mut target, &mut self.scopes[scope]);
        target.values.bind(name, value);
        self.scopes.set(scope, target);
        assert(self@.scopes =~= old(self)@.bind(scope as int, name@, value@).scopes);
    }

    /// Gives `value` to `name` in the nearest scope, from the current one
    /// outwards, that binds it.
    pub fn assign(&mut self, name: &Token, value: Object) -> (r: LoxResult<()>)
        requires
            old(self).wf(),
        ensures
            final(self).wf(),
            final(self)@.scopes.len() == old(self)@.scopes.len(),
            final(self).current == old(self).current,
            match r {
                Ok(_) => old(self)@.assign(name.lexeme@, value@) == Ok::<EnvironmentView, Signal>(
                    final(self)@,
                ),
                Err(e) => old(self)@.assign(name.lexeme@, value@) == Err::<EnvironmentView, Signal>(
                    e@,
                ) && final(self)@ == old(self)@,
            },
    {
        let variable = name.lexeme();
        let mut scope = self.current;
        loop
            invariant
                self.wf(),
                *self == *old(self),
                variable@ == name.lexeme@,
                scope < self.scopes@.len(),
                owner(self@.scopes, scope as int, variable@) == owner(
                    self@.scopes,
                    self.current as int,
                    variable@,
                ),
            decreases scope,
        {
            assert(self@.scopes[scope as int] == self.scopes@[scope as int]@);
            match self.scopes[scope].values.position(&variable) {
                Some(_) => {
                    self.bind_in(scope, variable, value);
                    return Ok(());
                },
                None => match self.scopes[scope].enclosing {
                    Some(p) => {
                        if scope == 0 || p >= scope {
                            assert(false);
                        }
                        scope = p;
                    },
                    None => {
                        return Err(
                            ReturnStatus::Error(LoxError::runtime("Variable not found in scope.")),
                        );
                    },
                },
            }
        }
    }

    /// What `name` stands for in the global scope; `nil` if it is not bound
    /// there.
    pub fn get(&self, name: &Token) -> (r: Object)
        requires
            self.wf(),
        ensures
            r@ == self@.get(name.lexeme@),
    {
        assert(self@.scopes[0] == self.scopes@[0]@);
        match self.scopes[0].values.position(&name.lexeme) {
            Some(i) => self.scopes[0].values.values[i].clone(),
            None => Object::Nil,
        }
    }
}

} // verus!
