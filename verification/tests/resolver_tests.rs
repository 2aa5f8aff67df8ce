use lox::expression::Expr;
use lox::interpreter::{Interpreter, ReturnStatus};
use lox::lox::Lox;
use lox::lox_error::LoxError;
use lox::parser::Parser;
use lox::resolver::{FunctionType, Resolver};
use lox::scanner::Scanner;
use lox::statement::Statement;
use lox::token::Token;
use lox::token_type::TokenType;

fn parse(source: &str) -> Vec<Box<Statement>> {
    let mut scanner = Scanner::new(source.to_string());
    scanner.scan_tokens();
    Parser::new(scanner.tokens_helper()).parse().unwrap()
}

fn resolve(source: &str) -> Resolver {
    let statements = parse(source);
    let mut resolver = Resolver::new(Interpreter::new());
    resolver.resolve(&statements).unwrap();
    resolver
}

fn failure(source: &str) -> String {
    let statements = parse(source);
    let mut resolver = Resolver::new(Interpreter::new());
    match resolver.resolve(&statements) {
        Err(ReturnStatus::Error(LoxError::RuntimeError(message))) => message,
        other => panic!("no error: {:?}", other),
    }
}

fn name(text: &str) -> Token {
    Token::new(TokenType::IDENTIFIER, text.to_string(), None, 1)
}

#[test]
fn a_variable_of_the_same_scope_has_distance_0() {
    // { var a = 1 ; print a ; }
    let resolver = resolve("{ var a = 1; print a; }");
    assert_eq!(resolver.interpreter.locals.get(&7), Some(&0));
    assert_eq!(resolver.interpreter.locals.len(), 1);
}

#[test]
fn each_scope_in_between_adds_1_to_the_distance() {
    // { var a = 1 ; { print a ; { a = 2 ; } } }
    let resolver = resolve("{ var a = 1; { print a; { a = 2; } } }");
    assert_eq!(resolver.interpreter.locals.get(&8), Some(&1));
    assert_eq!(resolver.interpreter.locals.get(&11), Some(&2));
    assert_eq!(resolver.interpreter.locals.len(), 2);
}

#[test]
fn the_innermost_declaration_wins() {
    // { var a ; { var a ; print a ; } print a ; }
    let resolver = resolve("{ var a; { var a; print a; } print a; }");
    assert_eq!(resolver.interpreter.locals.get(&9), Some(&0));
    assert_eq!(resolver.interpreter.locals.get(&13), Some(&0));
}

#[test]
fn a_global_is_not_filed() {
    let resolver = resolve("var a = 1; print a; { print a; } fun f() { return a; }");
    assert!(resolver.interpreter.locals.is_empty());
}

#[test]
fn parameters_and_body_share_one_scope() {
    // fun f ( x ) { var y = x ; return y ; }
    let resolver = resolve("fun f(x) { var y = x; return y; }");
    assert_eq!(resolver.interpreter.locals.get(&9), Some(&0));
    assert_eq!(resolver.interpreter.locals.get(&12), Some(&0));
}

#[test]
fn a_function_in_a_block_can_name_itself() {
    // { fun f ( ) { f ( ) ; } }
    let resolver = resolve("{ fun f() { f(); } }");
    assert_eq!(resolver.interpreter.locals.get(&6), Some(&1));
    assert!(resolver.scopes.is_empty());
}

#[test]
fn a_variable_cannot_initialize_itself_in_a_block() {
    assert_eq!(
        failure("{ var a = a; }"),
        "Cannot read local variable in its own initializer."
    );
    assert_eq!(
        failure("var a = 1; { var a = a; }"),
        "Cannot read local variable in its own initializer."
    );
    assert_eq!(
        failure("fun f() { var a = a + 1; }"),
        "Cannot read local variable in its own initializer."
    );
    let lox = {
        let mut lox = Lox::new();
        lox.run(&"print 1; { var a = a; }".to_string());
        lox
    };
    assert!(lox.had_error);
    assert!(lox.interpreter.output.is_empty());
    assert_eq!(
        lox.errors,
        vec![LoxError::RuntimeError(
            "Cannot read local variable in its own initializer.".to_string()
        )]
    );
}

#[test]
fn a_variable_cannot_initialize_itself_at_the_top_level() {
    assert_eq!(failure("var a = a;"), "Cannot read local variable in its own initializer.");
    assert_eq!(
        failure("print 1; var a = 1 + a;"),
        "Cannot read local variable in its own initializer."
    );
    assert_eq!(
        failure("fun f(x) { return x; } var a = f(a);"),
        "Cannot read local variable in its own initializer."
    );

    let a = name("a");
    let statements = vec![Box::new(Statement::Variable {
        name: a.clone(),
        initializer: Some(Box::new(Expr::Variable { name: a, id: 0 })),
    })];
    let mut lox = Lox::new();
    match lox.resolve(&statements) {
        Err(ReturnStatus::Error(_)) => {}
        other => panic!("no error: {:?}", other),
    }

    let mut lox = Lox::new();
    lox.run(&"print 1; var a = a; print a;".to_string());
    assert!(lox.had_error);
    assert!(lox.interpreter.output.is_empty());
    assert_eq!(
        lox.errors,
        vec![LoxError::RuntimeError(
            "Cannot read local variable in its own initializer.".to_string()
        )]
    );
    assert_eq!(lox.interpreter.environment().get(&name("a")), lox::object::Object::Nil);
    lox.run(&"var a = 3; print a;".to_string());
    assert_eq!(lox.interpreter.output, vec!["3"]);
}

#[test]
fn a_name_that_came_before_may_stand_in_its_own_declaration() {
    resolve("var a = 1; var a = a + 1;");
    resolve("var a; var a = a;");
    resolve("fun f() { } var f = f;");
    resolve("var Clock = Clock;");
    resolve("fun f() { return a; } var a = f();");
    resolve("var a = 1; fun f() { var b = a; }");

    let mut lox = Lox::new();
    lox.run(&"var a = 1; var a = a + 1; print a;".to_string());
    lox.run(&"var a = a + 1; print a;".to_string());
    assert!(lox.errors.is_empty(), "{:?}", lox.errors);
    assert_eq!(lox.interpreter.output, vec!["2", "3"]);
}

#[test]
fn the_resolver_notes_the_names_of_the_top_level() {
    let mut resolver = Resolver::new(Interpreter::new());
    assert!(resolver.globals.names.is_empty());
    resolver.declare(&name("a")).unwrap();
    assert_eq!(resolver.globals.names, vec!["a"]);
    assert_eq!(resolver.globals.values, vec![false]);
    resolver.declare(&name("a")).unwrap();
    assert_eq!(resolver.globals.values, vec![false]);
    resolver.define(&name("a"));
    assert_eq!(resolver.globals.values, vec![true]);
    resolver.declare(&name("a")).unwrap();
    assert_eq!(resolver.globals.values, vec![true]);
    resolver.begin_scope();
    resolver.declare(&name("b")).unwrap();
    resolver.define(&name("b"));
    assert_eq!(resolver.globals.names, vec!["a"]);
}

#[test]
fn a_name_is_declared_once_in_a_scope() {
    assert_eq!(failure("{ var a; var a; }"), "Variable already defined in scope.");
    assert_eq!(failure("fun f(a, a) { }"), "Variable already defined in scope.");
    assert_eq!(failure("fun f(a) { var a; }"), "Variable already defined in scope.");
    assert_eq!(failure("{ var f; fun f() { } }"), "Variable already defined in scope.");
    resolve("var a; var a;");
    resolve("{ var a; { var a; } }");
}

#[test]
fn return_belongs_in_a_function() {
    assert_eq!(failure("return 1;"), "Can't return from top-level code");
    assert_eq!(failure("return;"), "Can't return from top-level code");
    assert_eq!(failure("print 1; { if (true) return 1; }"), "Can't return from top-level code");
    assert_eq!(
        failure("fun f() { return 1; } while (true) return 2;"),
        "Can't return from top-level code"
    );
    resolve("fun f() { return 1; } fun g() { { while (true) { return; } } }");
    let mut lox = Lox::new();
    lox.run(&"print 1; return 2;".to_string());
    assert!(lox.had_error);
    assert!(lox.interpreter.output.is_empty());
}

#[test]
fn the_resolver_is_outside_of_functions_when_it_is_done() {
    let resolver = resolve("fun f() { fun g() { return 1; } return g; }");
    assert_eq!(resolver.current_function, FunctionType::TopLevel);
    assert!(resolver.scopes.is_empty());
}

#[test]
fn scopes_are_declared_and_defined_by_hand() {
    let mut resolver = Resolver::new(Interpreter::new());
    assert!(resolver.declare(&name("a")).is_ok());
    resolver.define(&name("a"));
    assert!(resolver.scopes.is_empty());

    resolver.begin_scope();
    assert!(resolver.declare(&name("a")).is_ok());
    assert_eq!(resolver.scopes[0].names, vec!["a"]);
    assert_eq!(resolver.scopes[0].values, vec![false]);
    assert!(resolver.declare(&name("a")).is_err());
    resolver.define(&name("a"));
    assert_eq!(resolver.scopes[0].values, vec![true]);

    resolver.begin_scope();
    resolver.begin_scope();
    let node = Expr::Variable { name: name("a"), id: 40 };
    assert!(resolver.resolve_local(&node, &name("a")).is_ok());
    assert_eq!(resolver.interpreter.locals.get(&40), Some(&2));
    let other = Expr::Variable { name: name("b"), id: 41 };
    assert!(resolver.resolve_local(&other, &name("b")).is_ok());
    assert_eq!(resolver.interpreter.locals.get(&41), None);

    assert!(resolver.end_scope().is_ok());
    assert!(resolver.end_scope().is_ok());
    assert!(resolver.end_scope().is_ok());
    assert!(resolver.end_scope().is_ok());
    assert!(resolver.scopes.is_empty());
}

#[test]
fn a_literal_is_no_variable_node() {
    let mut interpreter = Interpreter::new();
    let literal = Expr::Literal { literal: lox::literal::Literal::Number(1) };
    interpreter.resolve_local(&literal, 3);
    assert!(interpreter.locals.is_empty());
    let node = Expr::Variable { name: name("a"), id: 5 };
    interpreter.resolve_local(&node, 3);
    interpreter.resolve_local(&node, 4);
    assert_eq!(interpreter.locals.get(&5), Some(&4));
}
