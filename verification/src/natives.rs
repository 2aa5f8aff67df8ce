use crate::interpreter::{Interpreter, LoxCallable, LoxResult, Signal};
use crate::object::{Object, Value};
use crate::semantics::State;
use vstd::prelude::*;

verus! {

/// The built-in clock: a callable without parameters that hands back the
/// number of seconds that the clock of the interpreter shows.
#[derive(Debug)]
pub struct NativeClock;

impl NativeClock {
    /// The built-in clock.
    pub fn new() -> (r: Self) {
        NativeClock {  }
    }
}

impl LoxCallable for NativeClock {
    open spec fn arity_of(&self) -> nat {
        0
    }

    open spec fn outcome(&self, depth: nat, s: State, arguments: Seq<Value>) -> (
        State,
        Result<Option<Value>, Signal>,
    ) {
        (s, Ok(Some(Value::Number(s.clock))))
    }

    open spec fn callable_in(&self, s: State) -> bool {
        true
    }

    fn arity(&self) -> (n: usize) {
        0
    }

    fn call(&self, interpreter: &mut Interpreter, _arguments: &Vec<Object>) -> (r: LoxResult<
        Option<Object>,
    >) {
        Ok(Some(Object::Number(interpreter.clock)))
    }
}

} // verus!
