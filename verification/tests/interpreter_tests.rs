use lox::environment::Environment;
use lox::interpreter::{Interpreter, ReturnStatus};
use lox::lox::Lox;
use lox::lox_error::LoxError;
use lox::object::Object;
use lox::parser::Parser;
use lox::scanner::Scanner;
use lox::token::Token;
use lox::token_type::TokenType;

fn evaluate(source: &str) -> Result<Object, ReturnStatus> {
    let mut scanner = Scanner::new(source.to_string());
    let tokens = scanner.scan_tokens();
    let mut parser = Parser::new(tokens.to_vec());
    let expr = parser.parse_expression().unwrap();
    let mut interpreter = Interpreter::new();
    interpreter.evaluate(&expr)
}

fn failure(source: &str) -> String {
    match evaluate(source) {
        Err(ReturnStatus::Error(LoxError::RuntimeError(message))) => message,
        other => panic!("not a runtime error: {:?}", other),
    }
}

fn run(source: &str) -> Lox {
    let mut lox = Lox::new();
    lox.run(&source.to_string());
    lox
}

fn printed(source: &str) -> Vec<String> {
    let lox = run(source);
    assert!(!lox.had_error, "{:?}", lox.errors);
    assert!(!lox.had_runtime_error, "{:?}", lox.errors);
    lox.interpreter.output
}

#[test]
fn define_test() {
    let mut env = Environment::new();

    let definitions = vec![
        (
            Token::new(TokenType::IDENTIFIER, String::from("a"), None, 1),
            Object::Number(10),
        ),
        (
            Token::new(TokenType::IDENTIFIER, String::from("b"), None, 1),
            Object::Str(String::from("Hello world")),
        ),
        (
            Token::new(TokenType::IDENTIFIER, String::from("c"), None, 1),
            Object::Boolean(false),
        ),
    ];

    for (name, value) in definitions {
        env.define(&name.lexeme, &value);
        assert_eq!(env.get(&name), value);
    }
}

#[test]
fn evaluation_test() {
    let input = vec![("1+2*3", Object::Number(7))];

    for (expression, expected_result) in input {
        let mut scanner = Scanner::new(expression.to_string());
        let tokens = scanner.scan_tokens();

        let mut parser = Parser::new(tokens.to_vec());

        let expr = parser.parse_expression().unwrap();

        let mut interpreter = Interpreter::new();
        let result = interpreter.evaluate(&expr).unwrap();

        assert_eq!(result, expected_result);
    }
}

#[test]
fn for_while_test() {
    let program = vec![(
        r#"
var a = 0;
var temp;

for (var b = 1; a < 10000; b = temp + b) {
  print a;
  temp = a;
  a = b;
}
                "#,
        vec![("a", Object::Number(10946))],
    )];

    for (program, expected_results) in program {
        let mut scanner = Scanner::new(program.to_string());
        let tokens = scanner.scan_tokens();
        let mut parser = Parser::new(tokens.to_vec());
        let statements = parser.parse().unwrap();

        let mut lox = Lox::new();
        let mut errors_founds: i32 = 0;

        lox.resolve(&statements).unwrap();
        let _ = lox
            .interpreter
            .interpret(&statements)
            .map_err(|_| errors_founds += 1);

        for (name, value) in expected_results {
            let token = Token::new(TokenType::IDENTIFIER, String::from(name), None, 1);
            assert_eq!(lox.interpreter.environment().get(&token), value);
            println!("{}", errors_founds);
        }
    }
}

#[test]
fn arithmetic_follows_precedence() {
    assert_eq!(evaluate("3-1").unwrap(), Object::Number(2));
    assert_eq!(evaluate("6+6*2").unwrap(), Object::Number(18));
    assert_eq!(evaluate("(6+6)*2").unwrap(), Object::Number(24));
    assert_eq!(evaluate("7/2").unwrap(), Object::Number(3));
    assert_eq!(evaluate("-7/2").unwrap(), Object::Number(-3));
    assert_eq!(evaluate("10-2-3").unwrap(), Object::Number(5));
    assert_eq!(evaluate("--4").unwrap(), Object::Number(4));
}

#[test]
fn equality_of_numbers() {
    assert_eq!(evaluate("1==1").unwrap(), Object::Boolean(true));
    assert_eq!(evaluate("3==2").unwrap(), Object::Boolean(false));
    assert_eq!(evaluate("3!=2").unwrap(), Object::Boolean(true));
    assert_eq!(evaluate("3!=3").unwrap(), Object::Boolean(false));
}

#[test]
fn a_comparison_takes_its_operands_in_source_order() {
    assert_eq!(evaluate("1 < 2").unwrap(), Object::Boolean(true));
    assert_eq!(evaluate("2 < 1").unwrap(), Object::Boolean(false));
    assert_eq!(evaluate("1 > 2").unwrap(), Object::Boolean(false));
    assert_eq!(evaluate("2 > 1").unwrap(), Object::Boolean(true));
    assert_eq!(evaluate("2 >= 2").unwrap(), Object::Boolean(true));
    assert_eq!(evaluate("2 <= 1").unwrap(), Object::Boolean(false));
    assert_eq!(evaluate("1 <= 2").unwrap(), Object::Boolean(true));
}

#[test]
fn the_left_operand_of_a_comparison_is_evaluated_first() {
    let lines = printed(
        "fun f() { print \"f\"; return 1; } fun g() { print \"g\"; return 2; } print f() < g();",
    );
    assert_eq!(lines, vec!["f", "g", "true"]);
}

#[test]
fn arithmetic_wraps_to_32_bits() {
    assert_eq!(evaluate("2147483647 + 1").unwrap(), Object::Number(-2147483648));
    assert_eq!(evaluate("-2147483647 - 2").unwrap(), Object::Number(2147483647));
    assert_eq!(evaluate("65536 * 65536").unwrap(), Object::Number(0));
    assert_eq!(evaluate("(-2147483647 - 1) / -1").unwrap(), Object::Number(-2147483648));
    assert_eq!(evaluate("-(-2147483647 - 1)").unwrap(), Object::Number(-2147483648));
}

#[test]
fn strings_are_joined_by_plus() {
    assert_eq!(
        evaluate("\"Hello\" + \" \" + \"world\"").unwrap(),
        Object::Str(String::from("Hello world"))
    );
}

#[test]
fn a_wrong_operand_is_named() {
    assert_eq!(failure("1 - \"a\""), "Make sure right operand is a number");
    assert_eq!(failure("\"a\" - 1"), "Make sure the left operand is a number.");
    assert_eq!(failure("nil * 1"), "Make sure the left operand is a number.");
    assert_eq!(failure("1 / true"), "Make sure right operand is a number");
    assert_eq!(failure("1 + \"a\""), "Make sure right operand is a number");
    assert_eq!(failure("\"a\" + 1"), "Make sure right operand is a string");
    assert_eq!(failure("true + 1"), "Make sure the left operand is a number.");
    assert_eq!(failure("1 == \"1\""), "Make sure right operand is a number");
    assert_eq!(failure("nil != nil"), "Make sure the left operand is a number.");
    assert_eq!(failure("-\"a\""), "Operand must be a number.");
}

#[test]
fn division_by_zero_fails() {
    assert_eq!(failure("1 / 0"), "Division by zero.");
}

#[test]
fn only_nil_and_false_are_falsy() {
    assert_eq!(evaluate("!nil").unwrap(), Object::Boolean(true));
    assert_eq!(evaluate("!false").unwrap(), Object::Boolean(true));
    assert_eq!(evaluate("!true").unwrap(), Object::Boolean(false));
    assert_eq!(evaluate("!0").unwrap(), Object::Boolean(false));
    assert_eq!(evaluate("!\"\"").unwrap(), Object::Boolean(false));
}

#[test]
fn logical_operators_give_the_last_operand_evaluated() {
    assert_eq!(evaluate("nil or 3").unwrap(), Object::Number(3));
    assert_eq!(evaluate("2 or 3").unwrap(), Object::Number(2));
    assert_eq!(evaluate("nil and 3").unwrap(), Object::Nil);
    assert_eq!(evaluate("2 and 3").unwrap(), Object::Number(3));
    assert_eq!(evaluate("false or false").unwrap(), Object::Boolean(false));
}

#[test]
fn logical_operators_skip_what_they_do_not_need() {
    assert_eq!(evaluate("1 or 1/0").unwrap(), Object::Number(1));
    assert_eq!(evaluate("nil and 1/0").unwrap(), Object::Nil);
    assert_eq!(failure("nil or 1/0"), "Division by zero.");
}

#[test]
fn an_unbound_global_is_nil() {
    assert_eq!(evaluate("nothing").unwrap(), Object::Nil);
}

#[test]
fn calling_what_is_no_function_fails() {
    assert_eq!(failure("3()"), "Can only call functions and classes.");
    assert_eq!(failure("\"f\"(1)"), "Can only call functions and classes.");
    assert_eq!(failure("nil()"), "Can only call functions and classes.");
    let lox = run("3();");
    assert!(lox.had_runtime_error);
    assert_eq!(
        lox.errors,
        vec![LoxError::RuntimeError(String::from("Can only call functions and classes."))]
    );
}

#[test]
fn a_wrong_number_of_arguments_fails() {
    assert_eq!(failure("Clock(1)"), "Wrong number of arguments.");
    for call in ["f();", "f(1);", "f(1, 2, 3);"] {
        let lox = run(&format!("fun f(a, b) {{ return a; }} print 0; {}", call));
        assert!(lox.had_runtime_error);
        assert_eq!(lox.interpreter.output, vec![String::from("0")]);
        assert_eq!(
            lox.errors,
        vec![LoxError::RuntimeError(String::from("Wrong number of arguments."))]
        );
    }
    assert_eq!(printed("fun f(a, b) { return a + b; } print f(1, 2);"), vec!["3"]);
}

#[test]
fn the_clock_shows_what_it_was_set_to() {
    let mut lox = Lox::new();
    lox.set_clock(1234);
    lox.run(&"print Clock();".to_string());
    lox.set_clock(u64::MAX);
    lox.run(&"print Clock();".to_string());
    assert_eq!(lox.interpreter.output, vec!["1234", "2147483647"]);
}

#[test]
fn statements_run_in_source_order() {
    assert_eq!(printed("print 1; print 2; print 3;"), vec!["1", "2", "3"]);
    assert_eq!(
        printed("var a = 1; print a; a = a + 1; print a; var b = a * 10; print b;"),
        vec!["1", "2", "20"]
    );
}

#[test]
fn a_failure_ends_the_run_where_it_happens() {
    let lox = run("print 1; print 1 / 0; print 2;");
    assert!(lox.had_runtime_error);
    assert!(!lox.had_error);
    assert_eq!(lox.interpreter.output, vec!["1"]);
    assert_eq!(lox.errors, vec![LoxError::RuntimeError(String::from("Division by zero."))]);
}

#[test]
fn a_closure_sees_later_changes_of_what_it_captured() {
    assert_eq!(
        printed(
            "var get; var set;
             { var a = 1; fun g() { return a; } fun s() { a = 2; } get = g; set = s; }
             print get(); set(); print get();"
        ),
        vec!["1", "2"]
    );
}

#[test]
fn a_closure_keeps_its_state_between_calls() {
    assert_eq!(
        printed(
            "fun counter() { var n = 0; fun next() { n = n + 1; return n; } return next; }
             var a = counter(); var b = counter();
             print a(); print a(); print b(); print a();"
        ),
        vec!["1", "2", "1", "3"]
    );
}

#[test]
fn a_function_sees_the_scope_of_its_declaration_not_of_its_call() {
    assert_eq!(
        printed(
            "var a = 1;
             fun show() { print a; }
             { var a = 2; show(); }"
        ),
        vec!["1"]
    );
}

#[test]
fn a_name_declared_in_a_block_leaves_the_outer_one_as_it_was() {
    assert_eq!(printed("var a = 1; { var a = 2; print a; } print a;"), vec!["2", "1"]);
    assert_eq!(
        printed("{ var a = 1; { var a = 2; { var a = 3; print a; } print a; } print a; }"),
        vec!["3", "2", "1"]
    );
}

#[test]
fn an_assignment_in_a_block_changes_the_outer_variable() {
    assert_eq!(printed("var a = 1; { a = 2; } print a;"), vec!["2"]);
}

#[test]
fn assigning_to_an_undeclared_name_fails() {
    let lox = run("{ a = 1; }");
    assert!(lox.had_runtime_error);
    assert_eq!(lox.errors, vec![LoxError::RuntimeError(String::from("Variable not found in scope."))]);
}

#[test]
fn a_function_calls_itself_by_name() {
    assert_eq!(
        printed("fun fact(n) { if (n == 0) return 1; return n * fact(n - 1); } print fact(5);"),
        vec!["120"]
    );
    assert_eq!(
        printed(
            "{ fun fib(n) { if (n == 0) return 0; if (n == 1) return 1;
                 return fib(n - 1) + fib(n - 2); }
               print fib(10); }"
        ),
        vec!["55"]
    );
}

#[test]
fn a_function_without_return_gives_nil() {
    assert_eq!(
        printed("fun f() { } fun g() { return; } print f(); print g();"),
        vec!["Nil", "Nil"]
    );
}

#[test]
fn a_return_leaves_loops_and_blocks() {
    assert_eq!(
        printed(
            "fun first() { var i = 0; while (true) { { if (i == 3) return i; } i = i + 1; } }
             print first(); print 7;"
        ),
        vec!["3", "7"]
    );
}

#[test]
fn a_loop_runs_while_its_condition_holds() {
    assert_eq!(
        printed("var i = 0; while (i != 3) { print i; i = i + 1; }"),
        vec!["0", "1", "2"]
    );
    assert_eq!(
        printed("for (var i = 0; i != 3; i = i + 1) print i;"),
        vec!["0", "1", "2"]
    );
}

#[test]
fn each_round_of_a_loop_has_a_scope_of_its_own() {
    assert_eq!(
        printed(
            "var a; var b;
             var i = 0;
             while (i != 2) { var j = i; fun get() { return j; }
                 if (i == 0) a = get; else b = get; i = i + 1; }
             print a(); print b();"
        ),
        vec!["0", "1"]
    );
}

#[test]
fn if_takes_the_branch_of_the_condition() {
    assert_eq!(
        printed("if (1 == 1) print \"yes\"; else print \"no\"; if (nil) print 1; else print 2; if (false) print 3;"),
        vec!["yes", "2"]
    );
}

#[test]
fn a_bare_expression_prints_what_print_prints() {
    for expression in ["1+2", "\"a\" + \"b\"", "nil", "1 == 1", "Clock", "-5"] {
        let bare = printed(&format!("{};", expression));
        let wrapped = printed(&format!("print {};", expression));
        assert_eq!(bare.len(), 1);
        assert_eq!(bare, wrapped);
    }
    assert_eq!(printed("1+2;"), vec!["3"]);
    assert_eq!(printed("Clock;"), vec!["<callable arity 0>"]);
}

#[test]
fn a_loop_stops_at_its_limit() {
    let mut lox = Lox::new();
    lox.interpreter.loop_limit = 3;
    lox.run(&"var i = 0; while (true) { i = i + 1; print i; }".to_string());
    assert!(lox.had_runtime_error);
    assert_eq!(lox.interpreter.output, vec!["1", "2", "3"]);
    assert_eq!(lox.errors, vec![LoxError::RuntimeError(String::from("Loop limit reached."))]);
}

#[test]
fn calls_nest_no_deeper_than_the_limit() {
    let mut lox = Lox::new();
    lox.interpreter.depth = 5;
    lox.run(&"fun f(n) { print n; f(n + 1); } f(1);".to_string());
    assert!(lox.had_runtime_error);
    assert_eq!(lox.interpreter.output, vec!["1", "2", "3", "4", "5"]);
    assert_eq!(lox.errors, vec![LoxError::RuntimeError(String::from("Stack overflow."))]);
    assert_eq!(lox.interpreter.depth, 5);
    assert_eq!(lox.interpreter.environment().current, 0);
}

#[test]
fn a_return_at_the_top_level_of_an_unresolved_program_is_an_error() {
    let mut scanner = Scanner::new("print 1; return 2; print 3;".to_string());
    let tokens = scanner.scan_tokens();
    let mut parser = Parser::new(tokens.to_vec());
    let statements = parser.parse().unwrap();
    let mut interpreter = Interpreter::new();
    match interpreter.interpret(&statements) {
        Err(ReturnStatus::Error(LoxError::BindingError(name, message))) => {
            assert_eq!(name, "return");
            assert_eq!(message, "Can't return from top-level code");
        }
        other => panic!("{:?}", other),
    }
    assert_eq!(interpreter.output, vec!["1"]);
}

#[test]
fn later_inputs_see_what_earlier_ones_declared() {
    let mut lox = Lox::new();
    lox.run(&"var a = 1; fun twice(x) { return x + x; }".to_string());
    lox.run(&"{ var b = 20; print twice(a) + b; }".to_string());
    lox.run(&"a = 1 / 0;".to_string());
    lox.run(&"print a;".to_string());
    assert_eq!(lox.interpreter.output, vec!["22", "1"]);
    assert!(lox.had_runtime_error);
}

#[test]
fn classes_and_properties_are_not_supported() {
    let lox = run("print 1; { fun f() {} } print 2;");
    assert!(!lox.had_runtime_error);
    assert_eq!(lox.interpreter.output, vec!["1", "2"]);
}

#[test]
fn a_new_interpreter_nests_200_calls() {
    let lox = run("fun f(n) { if (n == 0) return 0; return 1 + f(n - 1); } print f(199); print f(200);");
    assert_eq!(lox.interpreter.output, vec!["199"]);
    assert!(lox.had_runtime_error);
    assert_eq!(lox.errors, vec![LoxError::RuntimeError(String::from("Stack overflow."))]);
}

#[test]
fn what_the_scanner_cannot_read_is_noted_and_the_rest_runs() {
    let lox = run("print 1; # print 2;");
    assert_eq!(
        lox.errors,
        vec![LoxError::RuntimeError(String::from("Unexpected character."))]
    );
    assert!(!lox.had_error);
    assert!(!lox.had_runtime_error);
    assert_eq!(lox.interpreter.output, vec!["1", "2"]);
}

#[test]
fn a_text_that_does_not_parse_is_not_run() {
    let lox = run("print 1; print ;");
    assert!(lox.had_error);
    assert!(!lox.had_runtime_error);
    assert!(lox.interpreter.output.is_empty());
    assert_eq!(lox.errors, vec![LoxError::RuntimeError(String::from("Expected expression."))]);
}

#[test]
fn the_nodes_of_later_inputs_have_numbers_of_their_own() {
    let mut lox = Lox::new();
    lox.run(&"var f; { var x = 1; fun g() { return x; } f = g; }".to_string());
    assert_eq!(lox.next_id, 24);
    lox.run(&"var h; { var a = 5; { { fun k() { return a; } h = k; } } }".to_string());
    lox.run(&"{ var x = 7; { print f(); print h(); print x; } }".to_string());
    assert_eq!(lox.interpreter.output, vec!["1", "5", "7"]);
    assert!(lox.errors.is_empty());
    let mut ids: Vec<usize> = lox.interpreter.locals.keys().copied().collect();
    ids.sort();
    assert_eq!(ids.len(), 5);
    assert!(ids.windows(2).all(|pair| pair[0] < pair[1]));
    assert!(ids.iter().all(|id| *id < lox.next_id));
}

#[test]
fn no_run_notes_a_binding_error() {
    let mut lox = Lox::new();
    let inputs = [
        "var a = 1; { var b = a + 1; print b; }",
        "fun make() { var n = 0; fun next() { n = n + 1; return n; } return next; }",
        "var next = make(); print next(); print next();",
        "{ var b = b; }",
        "return 1;",
        "print (1;",
        "1 + \"a\";",
        "fun f(x) { { var y = x; { return y + a; } } }",
        "print f(2);",
        "f(1, 2);",
        "#",
    ];
    for input in inputs {
        lox.run(&input.to_string());
    }
    assert_eq!(lox.interpreter.output, vec!["2", "1", "2", "3"]);
    assert_eq!(lox.errors.len(), 6);
    for e in &lox.errors {
        match e {
            LoxError::RuntimeError(_) => {}
            other => panic!("a binding error: {:?}", other),
        }
    }
}

#[test]
fn a_function_of_an_earlier_input_finds_its_variables() {
    let mut lox = Lox::new();
    lox.run(&"fun next(n) { var i = n; { var step = 1; i = i + step; } return i; }".to_string());
    lox.run(&"{ var n = 3; { print next(n) + next(n + 1); } }".to_string());
    assert!(lox.errors.is_empty(), "{:?}", lox.errors);
    assert_eq!(lox.interpreter.output, vec!["9"]);
}

#[test]
fn an_assignment_through_a_closure_after_shadowing() {
    // The function is declared before the block declares its own `a`: its
    // read of `a` was filed as a global, its assignment looks for the
    // nearest scope that binds the name when it runs.
    let lines = printed(
        "var a = \"global\"; \
         { \
           fun show() { print a; } \
           fun set() { a = \"set\"; } \
           var a = \"block\"; \
           show(); \
           set(); \
           print a; \
           show(); \
         } \
         print a;",
    );
    assert_eq!(lines, vec!["global", "set", "global", "global"]);
}

#[test]
fn an_assignment_through_a_closure_reaches_the_shadowed_outer_variable() {
    let lines = printed(
        "var a = \"outer\"; \
         fun set() { a = \"set\"; } \
         { \
           var a = \"inner\"; \
           set(); \
           print a; \
         } \
         print a;",
    );
    assert_eq!(lines, vec!["inner", "set"]);
}

#[test]
fn the_table_tells_whether_it_holds_a_name() {
    let mut table: lox::table::Table<bool> = lox::table::Table::new();
    assert!(!table.holds(&"a".to_string()));
    table.bind("a".to_string(), false);
    table.bind("b".to_string(), true);
    assert!(table.holds(&"a".to_string()));
    assert!(table.holds(&"b".to_string()));
    assert!(!table.holds(&"c".to_string()));
    table.values.pop();
    assert!(!table.holds(&"a".to_string()));
}
