use crate::literal::{Literal, LiteralView};
use crate::lox_error::{LoxError, LoxErrorView};
use crate::numeral::{decimal, decimal_digits, natural_to_string, number_to_string};
use std::cmp::Ordering;
use vstd::prelude::*;
use vstd::std_specs::cmp::{PartialEqSpecImpl, PartialOrdSpecImpl};
use vstd::string::StringExecFns;

verus! {

/// A value that a program computes.
///
/// A `Callable` names a function by the place `id` that the interpreter
/// gave it when it was made, and carries the number of arguments it takes.
#[derive(Debug)]
pub enum Object {
    Boolean(bool),
    Callable { id: usize, arity: usize },
    Number(i32),
    Str(String),
    Nil,
}

/// The mathematical value of an [`Object`].
pub enum Value {
    Boolean(bool),
    Callable { id: int, arity: int },
    Number(i32),
    Str(Seq<char>),
    Nil,
}

impl View for Object {
    type V = Value;

    open spec fn view(&self) -> Value {
        match self {
            Object::Boolean(b) => Value::Boolean(*b),
            Object::Callable { id, arity } => Value::Callable {
                id: *id as int,
                arity: *arity as int,
            },
            Object::Number(n) => Value::Number(*n),
            Object::Str(s) => Value::Str(s@),
            Object::Nil => Value::Nil,
        }
    }
}

/// The views of a sequence of values, in order.
pub open spec fn values_view(s: Seq<Object>) -> Seq<Value> {
    Seq::new(s.len(), |i: int| s[i]@)
}

impl Clone for Object {
    fn clone(&self) -> (r: Self)
        ensures
            r == *self,
    {
        match self {
            Object::Boolean(b) => Object::Boolean(*b),
            Object::Callable { id, arity } => Object::Callable { id: *id, arity: *arity },
            Object::Number(n) => Object::Number(*n),
            Object::Str(s) => Object::Str(s.clone()),
            Object::Nil => Object::Nil,
        }
    }
}

/// Two values are equal when they are of one kind and hold the same number,
/// truth value or text; two callables, when they name the same function.
impl PartialEq for Object {
    fn eq(&self, other: &Self) -> (r: bool) {
        match (self, other) {
            (Object::Boolean(a), Object::Boolean(b)) => *a == *b,
            (Object::Callable { id: a, arity: m }, Object::Callable { id: b, arity: n }) => *a == *b
                && *m == *n,
            (Object::Nil, Object::Nil) => true,
            (Object::Number(a), Object::Number(b)) => *a == *b,
            (Object::Str(a), Object::Str(b)) => *a == *b,
            _ => false,
        }
    }
}

impl PartialEqSpecImpl for Object {
    open spec fn obeys_eq_spec() -> bool {
        true
    }

    open spec fn eq_spec(&self, other: &Self) -> bool {
        self@ == other@
    }
}

/// How two values compare.
///
/// `nil` is greater than every other value. Numbers compare as numbers.
/// Values that are equal compare as equal. No other two values compare.
pub open spec fn value_order(a: Value, b: Value) -> Option<Ordering> {
    match (a, b) {
        (Value::Nil, Value::Nil) => Some(Ordering::Equal),
        (Value::Nil, _) => Some(Ordering::Greater),
        (_, Value::Nil) => Some(Ordering::Less),
        (Value::Number(x), Value::Number(y)) => if x < y {
            Some(Ordering::Less)
        } else if x > y {
            Some(Ordering::Greater)
        } else {
            Some(Ordering::Equal)
        },
        _ => if a == b {
            Some(Ordering::Equal)
        } else {
            None
        },
    }
}

impl PartialOrd for Object {
    fn partial_cmp(&self, other: &Object) -> (r: Option<Ordering>) {
        match self {
            Object::Nil => match other {
                Object::Nil => Some(Ordering::Equal),
                _ => Some(Ordering::Greater),
            },
            Object::Number(value) => match other {
                Object::Number(other_value) => if *value < *other_value {
                    Some(Ordering::Less)
                } else if *value > *other_value {
                    Some(Ordering::Greater)
                } else {
                    Some(Ordering::Equal)
                },
                Object::Nil => Some(Ordering::Less),
                _ => None,
            },
            _ => match other {
                Object::Nil => Some(Ordering::Less),
                _ => if *self == *other {
                    Some(Ordering::Equal)
                } else {
                    None
                },
            },
        }
    }
}

impl PartialOrdSpecImpl for Object {
    open spec fn obeys_partial_cmp_spec() -> bool {
        true
    }

    open spec fn partial_cmp_spec(&self, other: &Object) -> Option<Ordering> {
        value_order(self@, other@)
    }
}

/// The value that a literal denotes.
pub open spec fn literal_value(l: LiteralView) -> Value {
    match l {
        LiteralView::String(s) => Value::Str(s),
        LiteralView::Number(n) => Value::Number(n),
        LiteralView::Boolean(b) => Value::Boolean(b),
        LiteralView::Nil => Value::Nil,
    }
}

/// Whether a value counts as true in a condition: all do but `nil` and `false`.
pub open spec fn truthy(v: Value) -> bool {
    match v {
        Value::Nil => false,
        Value::Boolean(b) => b,
        _ => true,
    }
}

/// The text that stands for a value when it is printed.
pub open spec fn value_text(v: Value) -> Seq<char> {
    match v {
        Value::Boolean(b) => if b {
            "true"@
        } else {
            "false"@
        },
        Value::Number(n) => decimal(n as int),
        Value::Str(s) => s,
        Value::Nil => "Nil"@,
        Value::Callable { id, arity } => "<callable arity "@ + decimal_digits(arity as nat) + ">"@,
    }
}

/// The 32-bit two's complement number that is congruent to `n`.
pub open spec fn wrap(n: int) -> i32 {
    let m = n % 0x1_0000_0000;
    if m > i32::MAX {
        (m - 0x1_0000_0000) as i32
    } else {
        m as i32
    }
}

/// The quotient of `a` by `b`, rounded towards zero.
pub open spec fn quotient(a: int, b: int) -> int {
    if a >= 0 && b > 0 {
        a / b
    } else if a < 0 && b < 0 {
        (-a) / (-b)
    } else if a < 0 {
        -((-a) / b)
    } else {
        -(a / (-b))
    }
}

/// The message for a number to which something else is added.
pub open spec fn msg_add_right_number() -> Seq<char> {
    "Right hand side must also be a number"@
}

/// The message for a text to which something else is added.
pub open spec fn msg_add_right_string() -> Seq<char> {
    "TypeError: Can't add a string to a number."@
}

/// The message for an addition to a truth value.
pub open spec fn msg_add_boolean() -> Seq<char> {
    "Cannot add value to boolean."@
}

/// The message for an addition to `nil`.
pub open spec fn msg_add_nil() -> Seq<char> {
    "Cannot add value to nil."@
}

/// The message for an addition to a callable.
pub open spec fn msg_add_function() -> Seq<char> {
    "Can't add functions"@
}

/// The message for a subtraction of what are not two numbers.
pub open spec fn msg_subtract() -> Seq<char> {
    "Can't subtract these two values"@
}

/// The message for a multiplication of what are not two numbers.
pub open spec fn msg_multiply() -> Seq<char> {
    "Can't multiply these two values"@
}

/// The message for a division of what are not two numbers.
pub open spec fn msg_divide() -> Seq<char> {
    "Can't divide these two values"@
}

/// The message for a division by zero.
pub open spec fn msg_divide_by_zero() -> Seq<char> {
    "Division by zero."@
}

/// The message for a negation of what is no number.
pub open spec fn msg_not_supported() -> Seq<char> {
    "Operation not supported"@
}

/// The sum of two values: of two numbers their wrapped sum, of two texts
/// the first followed by the second, of anything else an error.
pub open spec fn value_add(a: Value, b: Value) -> Result<Value, LoxErrorView> {
    match a {
        Value::Number(x) => match b {
            Value::Number(y) => Ok(Value::Number(wrap(x + y))),
            _ => Err(LoxErrorView::RuntimeError(msg_add_right_number())),
        },
        Value::Str(x) => match b {
            Value::Str(y) => Ok(Value::Str(x + y)),
            _ => Err(LoxErrorView::RuntimeError(msg_add_right_string())),
        },
        Value::Boolean(_) => Err(LoxErrorView::RuntimeError(msg_add_boolean())),
        Value::Nil => Err(LoxErrorView::RuntimeError(msg_add_nil())),
        Value::Callable { .. } => Err(LoxErrorView::RuntimeError(msg_add_function())),
    }
}

/// The difference of two numbers, wrapped; of anything else an error.
pub open spec fn value_sub(a: Value, b: Value) -> Result<Value, LoxErrorView> {
    match (a, b) {
        (Value::Number(x), Value::Number(y)) => Ok(Value::Number(wrap(x - y))),
        _ => Err(LoxErrorView::RuntimeError(msg_subtract())),
    }
}

/// The product of two numbers, wrapped; of anything else an error.
pub open spec fn value_mul(a: Value, b: Value) -> Result<Value, LoxErrorView> {
    match (a, b) {
        (Value::Number(x), Value::Number(y)) => Ok(Value::Number(wrap(x * y))),
        _ => Err(LoxErrorView::RuntimeError(msg_multiply())),
    }
}

/// The quotient of two numbers, rounded towards zero and wrapped; an error
/// when the divisor is zero or an operand is no number.
pub open spec fn value_div(a: Value, b: Value) -> Result<Value, LoxErrorView> {
    match (a, b) {
        (Value::Number(x), Value::Number(y)) => if y == 0 {
            Err(LoxErrorView::RuntimeError(msg_divide_by_zero()))
        } else {
            Ok(Value::Number(wrap(quotient(x as int, y as int))))
        },
        _ => Err(LoxErrorView::RuntimeError(msg_divide())),
    }
}

/// The negative of a number, wrapped to 32 bits. Nothing but a number can
/// be negated.
pub open spec fn value_neg(a: Value) -> Result<Value, Seq<char>> {
    match a {
        Value::Number(x) => Ok(Value::Number(wrap(-x))),
        _ => Err(msg_not_supported()),
    }
}

/// The sum of two numbers, wrapped to 32 bits.
pub fn wrapping_sum(x: i32, y: i32) -> (r: i32)
    ensures
        r == wrap(x + y),
{
    x.wrapping_add(y)
}

/// The difference of two numbers, wrapped to 32 bits.
pub fn wrapping_difference(x: i32, y: i32) -> (r: i32)
    ensures
        r == wrap(x - y),
{
    x.wrapping_sub(y)
}

/// The product of two numbers, wrapped to 32 bits.
pub fn wrapping_product(x: i32, y: i32) -> (r: i32)
    ensures
        r == wrap(x * y),
{
    x.wrapping_mul(y)
}

/// The quotient of `x` by a divisor `y` other than zero, rounded towards
/// zero and wrapped to 32 bits.
pub fn wrapping_quotient(x: i32, y: i32) -> (r: i32)
    requires
        y != 0,
    ensures
        r == wrap(quotient(x as int, y as int)),
{
    match x.checked_div(y) {
        Some(q) => {
            assert(q == quotient(x as int, y as int)) by (nonlinear_arith)
                requires
                    y != 0,
                    i32::MIN <= x <= i32::MAX,
                    i32::MIN <= y <= i32::MAX,
                    q == if x == 0 {
                        0
                    } else if x > 0 && y > 0 {
                        x as int / y as int
                    } else if x < 0 && y < 0 {
                        ((x * -1) / (y * -1))
                    } else if x < 0 {
                        ((x * -1) / y as int) * -1
                    } else {
                        (x as int / (y * -1)) * -1
                    },
            ;
            q
        },
        None => {
            assert(quotient(x as int, y as int) == 0x8000_0000) by (nonlinear_arith)
                requires
                    y != 0,
                    i32::MIN <= x <= i32::MAX,
                    i32::MIN <= y <= i32::MAX,
                    ({
                        let output = if x == 0 {
                            0
                        } else if x > 0 && y > 0 {
                            x as int / y as int
                        } else if x < 0 && y < 0 {
                            ((x * -1) / (y * -1))
                        } else if x < 0 {
                            ((x * -1) / y as int) * -1
                        } else {
                            (x as int / (y * -1)) * -1
                        };
                        output < i32::MIN || output > i32::MAX
                    }),
            ;
            i32::MIN
        },
    }
}

impl Object {
    /// The value that a literal denotes.
    pub fn from_literal(literal: &Literal) -> (o: Self)
        ensures
            o@ == literal_value(literal@),
    {
        match literal {
            Literal::String(x) => Object::Str(x.clone()),
            Literal::Number(x) => Object::Number(*x),
            Literal::Boolean(x) => Object::Boolean(*x),
            Literal::Nil => Object::Nil,
        }
    }

    /// Whether the value counts as true in a condition.
    pub fn is_truthy(&mut self) -> (b: bool)
        ensures
            b == truthy(old(self)@),
            *final(self) == *old(self),
    {
        match self {
            Object::Nil => false,
            Object::Boolean(x) => *x,
            _ => true,
        }
    }

    /// The text that stands for the value when it is printed.
    pub fn to_string(&self) -> (s: String)
        ensures
            s@ == value_text(self@),
    {
        match self {
            Object::Boolean(b) => if *b {
                "true".to_owned()
            } else {
                "false".to_owned()
            },
            Object::Number(n) => number_to_string(*n),
            Object::Str(s) => s.clone(),
            Object::Nil => "Nil".to_owned(),
            Object::Callable { id, arity } => {
                let mut s = "<callable arity ".to_owned();
                let digits = natural_to_string(*arity as u64);
                s.append(digits.as_str());
                s.append(">");
                s
            },
        }
    }

    /// The sum of two numbers, or two texts joined.
    pub fn add(&self, rhs: &Object) -> (r: Result<Object, LoxError>)
        ensures
            match r {
                Ok(v) => value_add(self@, rhs@) == Ok::<Value, LoxErrorView>(v@),
                Err(e) => value_add(self@, rhs@) == Err::<Value, LoxErrorView>(e@),
            },
    {
        match self {
            Object::Number(value) => match rhs {
                Object::Number(rhs_value) => Ok(Object::Number(wrapping_sum(*value, *rhs_value))),
                _ => Err(LoxError::runtime("Right hand side must also be a number")),
            },
            Object::Str(value) => match rhs {
                Object::Str(rhs_value) => {
                    let mut new_str = value.clone();
                    new_str.append(rhs_value.as_str());
                    Ok(Object::Str(new_str))
                },
                _ => Err(LoxError::runtime("TypeError: Can't add a string to a number.")),
            },
            Object::Boolean(_value) => Err(LoxError::runtime("Cannot add value to boolean.")),
            Object::Nil => Err(LoxError::runtime("Cannot add value to nil.")),
            _ => Err(LoxError::runtime("Can't add functions")),
        }
    }

    /// The difference of two numbers.
    pub fn sub(&self, rhs: &Object) -> (r: Result<Object, LoxError>)
        ensures
            match r {
                Ok(v) => value_sub(self@, rhs@) == Ok::<Value, LoxErrorView>(v@),
                Err(e) => value_sub(self@, rhs@) == Err::<Value, LoxErrorView>(e@),
            },
    {
        match (self, rhs) {
            (Object::Number(x), Object::Number(y)) => Ok(
                Object::Number(wrapping_difference(*x, *y)),
            ),
            _ => Err(LoxError::runtime("Can't subtract these two values")),
        }
    }

    /// The product of two numbers.
    pub fn mul(&self, rhs: &Object) -> (r: Result<Object, LoxError>)
        ensures
            match r {
                Ok(v) => value_mul(self@, rhs@) == Ok::<Value, LoxErrorView>(v@),
                Err(e) => value_mul(self@, rhs@) == Err::<Value, LoxErrorView>(e@),
            },
    {
        match (self, rhs) {
            (Object::Number(x), Object::Number(y)) => Ok(Object::Number(wrapping_product(*x, *y))),
            _ => Err(LoxError::runtime("Can't multiply these two values")),
        }
    }

    /// The quotient of two numbers.
    pub fn div(&self, rhs: &Object) -> (r: Result<Object, LoxError>)
        ensures
            match r {
                Ok(v) => value_div(self@, rhs@) == Ok::<Value, LoxErrorView>(v@),
                Err(e) => value_div(self@, rhs@) == Err::<Value, LoxErrorView>(e@),
            },
    {
        match (self, rhs) {
            (Object::Number(x), Object::Number(y)) => {
                if *y == 0 {
                    Err(LoxError::runtime("Division by zero."))
                } else {
                    Ok(Object::Number(wrapping_quotient(*x, *y)))
                }
            },
            _ => Err(LoxError::runtime("Can't divide these two values")),
        }
    }

    /// The negative of a number.
    pub fn neg(&self) -> (r: Result<Object, String>)
        ensures
            match r {
                Ok(v) => value_neg(self@) == Ok::<Value, Seq<char>>(v@),
                Err(e) => value_neg(self@) == Err::<Value, Seq<char>>(e@),
            },
    {
        match self {
            Object::Number(x) => Ok(Object::Number(wrapping_difference(0, *x))),
            _ => Err("Operation not supported".to_owned()),
        }
    }

    /// The opposite of the truth of a value.
    pub fn not(&self) -> (r: Object)
        ensures
            r@ == Value::Boolean(!truthy(self@)),
    {
        match self {
            Object::Boolean(b) => Object::Boolean(!*b),
            Object::Nil => Object::Boolean(true),
            _ => Object::Boolean(false),
        }
    }
}

} // verus!
