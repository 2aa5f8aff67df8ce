use lox::environment::Environment;
use lox::interpreter::{Interpreter, ReturnStatus};
use lox::literal::Literal;
use lox::lox_class::{Instance, LoxClass};
use lox::lox_error::LoxError;
use lox::numeral::{natural_to_string, number_to_string};
use lox::object::Object;
use lox::token::{clone_tokens, Token};
use lox::token_type::TokenType;
use std::cmp::Ordering;

fn name(text: &str) -> Token {
    Token::new(TokenType::IDENTIFIER, text.to_string(), None, 1)
}

fn text(s: &str) -> Object {
    Object::Str(s.to_string())
}

fn runtime(message: &str) -> LoxError {
    LoxError::RuntimeError(message.to_string())
}

#[test]
fn numbers_are_written_in_decimal() {
    assert_eq!(number_to_string(0), "0");
    assert_eq!(number_to_string(7), "7");
    assert_eq!(number_to_string(10), "10");
    assert_eq!(number_to_string(-1), "-1");
    assert_eq!(number_to_string(1203), "1203");
    assert_eq!(number_to_string(i32::MAX), "2147483647");
    assert_eq!(number_to_string(i32::MIN), "-2147483648");
    assert_eq!(natural_to_string(0), "0");
    assert_eq!(natural_to_string(u64::MAX), "18446744073709551615");
}

#[test]
fn values_are_printed() {
    assert_eq!(Object::Boolean(true).to_string(), "true");
    assert_eq!(Object::Boolean(false).to_string(), "false");
    assert_eq!(Object::Number(-12).to_string(), "-12");
    assert_eq!(text("a b").to_string(), "a b");
    assert_eq!(Object::Nil.to_string(), "Nil");
    assert_eq!(Object::Callable { id: 3, arity: 12 }.to_string(), "<callable arity 12>");
}

#[test]
fn literals_are_printed() {
    assert_eq!(Literal::String("x".to_string()).to_string(), "x");
    assert_eq!(Literal::Number(42).to_string(), "42");
    assert_eq!(Literal::Nil.to_string(), "nil");
    assert_eq!(Literal::Boolean(true).to_string(), "true");
    assert_eq!(Literal::Boolean(false).to_string(), "false");
}

#[test]
fn errors_are_printed() {
    assert_eq!(runtime("boom").to_string(), "Runtime error: boom");
    assert_eq!(
        LoxError::BindingError("a".to_string(), "lost".to_string()).to_string(),
        "Binding error for a: lost"
    );
    assert_eq!(LoxError::runtime("x"), runtime("x"));
    assert_eq!(runtime("x").clone(), runtime("x"));
}

#[test]
fn literals_become_values() {
    assert_eq!(Object::from_literal(&Literal::String("s".to_string())), text("s"));
    assert_eq!(Object::from_literal(&Literal::Number(5)), Object::Number(5));
    assert_eq!(Object::from_literal(&Literal::Boolean(true)), Object::Boolean(true));
    assert_eq!(Object::from_literal(&Literal::Nil), Object::Nil);
}

#[test]
fn truth_of_values() {
    assert!(!Object::Nil.is_truthy());
    assert!(!Object::Boolean(false).is_truthy());
    assert!(Object::Boolean(true).is_truthy());
    assert!(Object::Number(0).is_truthy());
    assert!(text("").is_truthy());
    assert!(Object::Callable { id: 0, arity: 0 }.is_truthy());
    let mut interpreter = Interpreter::new();
    assert_eq!(interpreter.is_truthy(Object::Nil), Object::Boolean(false));
    assert_eq!(interpreter.is_truthy(Object::Number(0)), Object::Boolean(true));
    assert_eq!(interpreter.is_truthy(text("")), Object::Boolean(true));
    assert_eq!(interpreter.is_truthy(Object::Boolean(false)), Object::Boolean(false));
    assert_eq!(
        interpreter.is_truthy(Object::Callable { id: 0, arity: 0 }),
        Object::Boolean(true)
    );
}

#[test]
fn equality_of_values() {
    assert_eq!(Object::Number(1), Object::Number(1));
    assert_ne!(Object::Number(1), Object::Number(2));
    assert_eq!(text("a"), text("a"));
    assert_ne!(text("a"), text("b"));
    assert_eq!(Object::Nil, Object::Nil);
    assert_ne!(Object::Nil, Object::Boolean(false));
    assert_ne!(Object::Number(1), text("1"));
    assert_eq!(Object::Callable { id: 1, arity: 0 }, Object::Callable { id: 1, arity: 0 });
    assert_ne!(Object::Callable { id: 1, arity: 0 }, Object::Callable { id: 2, arity: 0 });
}

#[test]
fn nil_is_greater_than_everything() {
    assert_eq!(Object::Nil.partial_cmp(&Object::Nil), Some(Ordering::Equal));
    assert_eq!(Object::Nil.partial_cmp(&Object::Number(i32::MAX)), Some(Ordering::Greater));
    assert_eq!(Object::Nil.partial_cmp(&text("z")), Some(Ordering::Greater));
    assert_eq!(Object::Nil.partial_cmp(&Object::Boolean(true)), Some(Ordering::Greater));
    assert_eq!(Object::Number(1).partial_cmp(&Object::Nil), Some(Ordering::Less));
    assert_eq!(text("a").partial_cmp(&Object::Nil), Some(Ordering::Less));
    assert!(Object::Nil > Object::Number(5));
    assert!(Object::Number(5) < Object::Nil);
}

#[test]
fn numbers_are_ordered_and_other_kinds_are_not() {
    assert_eq!(Object::Number(1).partial_cmp(&Object::Number(2)), Some(Ordering::Less));
    assert_eq!(Object::Number(2).partial_cmp(&Object::Number(2)), Some(Ordering::Equal));
    assert_eq!(Object::Number(3).partial_cmp(&Object::Number(2)), Some(Ordering::Greater));
    assert_eq!(Object::Number(1).partial_cmp(&text("a")), None);
    assert_eq!(text("a").partial_cmp(&text("b")), None);
    assert_eq!(text("a").partial_cmp(&text("a")), Some(Ordering::Equal));
    assert_eq!(Object::Boolean(true).partial_cmp(&Object::Boolean(false)), None);
    assert_eq!(Object::Boolean(true).partial_cmp(&Object::Number(1)), None);
}

#[test]
fn sums_of_values() {
    assert_eq!(Object::Number(2).add(&Object::Number(3)), Ok(Object::Number(5)));
    assert_eq!(Object::Number(i32::MAX).add(&Object::Number(1)), Ok(Object::Number(i32::MIN)));
    assert_eq!(text("ab").add(&text("cd")), Ok(text("abcd")));
    assert_eq!(
        Object::Number(2).add(&text("a")),
        Err(runtime("Right hand side must also be a number"))
    );
    assert_eq!(
        text("a").add(&Object::Number(2)),
        Err(runtime("TypeError: Can't add a string to a number."))
    );
    assert_eq!(
        Object::Boolean(true).add(&Object::Number(2)),
        Err(runtime("Cannot add value to boolean."))
    );
    assert_eq!(Object::Nil.add(&Object::Nil), Err(runtime("Cannot add value to nil.")));
    assert_eq!(
        Object::Callable { id: 0, arity: 0 }.add(&Object::Number(1)),
        Err(runtime("Can't add functions"))
    );
}

#[test]
fn differences_products_and_quotients_of_values() {
    assert_eq!(Object::Number(2).sub(&Object::Number(3)), Ok(Object::Number(-1)));
    assert_eq!(Object::Number(i32::MIN).sub(&Object::Number(1)), Ok(Object::Number(i32::MAX)));
    assert_eq!(
        Object::Number(2).sub(&Object::Nil),
        Err(runtime("Can't subtract these two values"))
    );
    assert_eq!(Object::Number(4).mul(&Object::Number(-3)), Ok(Object::Number(-12)));
    assert_eq!(
        Object::Number(i32::MAX).mul(&Object::Number(2)),
        Ok(Object::Number(-2))
    );
    assert_eq!(text("a").mul(&Object::Number(2)), Err(runtime("Can't multiply these two values")));
    assert_eq!(Object::Number(7).div(&Object::Number(2)), Ok(Object::Number(3)));
    assert_eq!(Object::Number(-7).div(&Object::Number(2)), Ok(Object::Number(-3)));
    assert_eq!(Object::Number(7).div(&Object::Number(-2)), Ok(Object::Number(-3)));
    assert_eq!(Object::Number(-7).div(&Object::Number(-2)), Ok(Object::Number(3)));
    assert_eq!(Object::Number(0).div(&Object::Number(5)), Ok(Object::Number(0)));
    assert_eq!(
        Object::Number(i32::MIN).div(&Object::Number(-1)),
        Ok(Object::Number(i32::MIN))
    );
    assert_eq!(Object::Number(7).div(&Object::Number(0)), Err(runtime("Division by zero.")));
    assert_eq!(
        Object::Number(7).div(&Object::Boolean(true)),
        Err(runtime("Can't divide these two values"))
    );
}

#[test]
fn negation_of_values() {
    assert_eq!(Object::Number(5).neg(), Ok(Object::Number(-5)));
    assert_eq!(Object::Number(i32::MIN).neg(), Ok(Object::Number(i32::MIN)));
    assert_eq!(Object::Nil.neg(), Err("Operation not supported".to_string()));
    assert_eq!(Object::Boolean(true).neg(), Err("Operation not supported".to_string()));
    assert_eq!(text("a").neg(), Err("Operation not supported".to_string()));
    assert_eq!(
        Object::Callable { id: 0, arity: 0 }.neg(),
        Err("Operation not supported".to_string())
    );
    assert_eq!(Object::Boolean(true).not(), Object::Boolean(false));
    assert_eq!(Object::Boolean(false).not(), Object::Boolean(true));
    assert_eq!(Object::Nil.not(), Object::Boolean(true));
    assert_eq!(Object::Number(0).not(), Object::Boolean(false));
    assert_eq!(text("").not(), Object::Boolean(false));
}

#[test]
fn a_definition_overwrites_in_the_current_scope() {
    let mut env = Environment::new();
    env.define("a", &Object::Number(1));
    env.define("a", &Object::Number(2));
    assert_eq!(env.get(&name("a")), Object::Number(2));
    assert_eq!(env.scopes[0].values.names.len(), 1);
    assert_eq!(env.get(&name("b")), Object::Nil);
}

#[test]
fn a_name_is_read_at_its_distance() {
    let mut env = Environment::new();
    env.define("a", &Object::Number(1));
    let inner = env.child_of(0);
    assert_eq!(inner, 1);
    let innermost = env.with_ref(inner);
    assert_eq!(innermost, 2);
    env.current = inner;
    env.define("a", &Object::Number(2));
    env.current = innermost;
    assert_eq!(env.get_at(1, "a").unwrap(), Object::Number(2));
    assert_eq!(env.get_at(2, "a").unwrap(), Object::Number(1));
    assert_eq!(env.get(&name("a")), Object::Number(1));
    for (distance, missing) in [(0, "a"), (3, "a"), (1, "b"), (usize::MAX, "a")] {
        match env.get_at(distance, missing) {
            Err(ReturnStatus::Error(LoxError::BindingError(n, m))) => {
                assert_eq!(n, missing);
                assert_eq!(m, "Cannot read local variable in its own initializer.");
            }
            other => panic!("{:?}", other),
        }
    }
}

#[test]
fn an_assignment_writes_the_nearest_scope_that_binds_the_name() {
    let mut env = Environment::new();
    env.define("a", &Object::Number(1));
    env.define("b", &Object::Number(10));
    let inner = env.child_of(0);
    env.current = inner;
    env.define("a", &Object::Number(2));
    let sibling = env.child_of(0);

    assert!(env.assign(&name("a"), Object::Number(3)).is_ok());
    assert!(env.assign(&name("b"), Object::Number(30)).is_ok());
    assert_eq!(env.get_at(0, "a").unwrap(), Object::Number(3));
    assert_eq!(env.get_at(1, "a").unwrap(), Object::Number(1));
    assert_eq!(env.get_at(1, "b").unwrap(), Object::Number(30));
    assert!(env.get_at(0, "b").is_err());

    env.current = sibling;
    assert!(env.assign(&name("a"), Object::Number(4)).is_ok());
    assert_eq!(env.get(&name("a")), Object::Number(4));
    env.current = inner;
    assert_eq!(env.get_at(0, "a").unwrap(), Object::Number(3));

    match env.assign(&name("c"), Object::Nil) {
        Err(ReturnStatus::Error(LoxError::RuntimeError(m))) => {
            assert_eq!(m, "Variable not found in scope.")
        }
        other => panic!("{:?}", other),
    }
    assert_eq!(env.get(&name("c")), Object::Nil);
    assert_eq!(env.current, inner);
    assert_eq!(env.scopes.len(), 3);
}

#[test]
fn tokens_are_copied() {
    let token = Token::new(
        TokenType::STRING,
        "\"a\"".to_string(),
        Some(Literal::String("a".to_string())),
        3,
    );
    assert_eq!(token.lexeme(), "\"a\"");
    assert_eq!(token.clone(), token);
    let list = vec![token, name("b")];
    assert_eq!(clone_tokens(&list), list);
}

#[test]
fn a_class_has_a_name_and_an_instance_no_fields() {
    let class = LoxClass::new("Point".to_string());
    assert_eq!(class.to_string(), "Point");
    let instance = Instance::new(class.clone());
    assert_eq!(instance.class.name, "Point");
    assert!(instance.fields.names.is_empty());
    assert!(instance.fields.values.is_empty());
}

#[test]
fn a_new_interpreter_knows_the_clock() {
    let interpreter = Interpreter::new();
    assert_eq!(
        interpreter.environment().get(&name("Clock")),
        Object::Callable { id: 0, arity: 0 }
    );
    assert_eq!(interpreter.functions.len(), 1);
    assert!(interpreter.output.is_empty());
    assert!(interpreter.locals.is_empty());
    assert_eq!(interpreter.depth, 200);
    assert_eq!(interpreter.loop_limit, u64::MAX);
}
