use lox::expression::Expr;
use lox::literal::Literal;
use lox::lox_error::LoxError;
use lox::parser::Parser;
use lox::scanner::Scanner;
use lox::statement::Statement;
use lox::token::Token;
use lox::token_type::TokenType;

fn parser(source: &str) -> Parser {
    let mut scanner = Scanner::new(source.to_string());
    scanner.scan_tokens();
    assert!(scanner.errors.is_empty(), "{:?}", scanner.errors);
    Parser::new(scanner.tokens_helper())
}

fn expression(source: &str) -> Box<Expr> {
    parser(source).parse_expression().unwrap()
}

fn program(source: &str) -> Vec<Box<Statement>> {
    parser(source).parse().unwrap()
}

fn expression_error(source: &str) -> String {
    match parser(source).parse_expression() {
        Err(LoxError::RuntimeError(message)) => message,
        other => panic!("no error: {:?}", other),
    }
}

fn program_error(source: &str) -> String {
    match parser(source).parse() {
        Err(LoxError::RuntimeError(message)) => message,
        other => panic!("no error: {:?}", other),
    }
}

fn number(n: i32) -> Box<Expr> {
    Box::new(Expr::Literal { literal: Literal::Number(n) })
}

fn token(of_type: TokenType, lexeme: &str) -> Token {
    Token::new(of_type, lexeme.to_string(), None, 1)
}

fn variable(name: &str, id: usize) -> Box<Expr> {
    Box::new(Expr::Variable { name: token(TokenType::IDENTIFIER, name), id })
}

#[test]
fn a_product_binds_tighter_than_a_sum() {
    assert_eq!(
        expression("1+2*3"),
        Box::new(Expr::Binary {
            left: number(1),
            operator: token(TokenType::PLUS, "+"),
            right: Box::new(Expr::Binary {
                left: number(2),
                operator: token(TokenType::STAR, "*"),
                right: number(3),
            }),
        })
    );
}

#[test]
fn operators_of_one_level_group_from_the_left() {
    assert_eq!(
        expression("1-2-3"),
        Box::new(Expr::Binary {
            left: Box::new(Expr::Binary {
                left: number(1),
                operator: token(TokenType::MINUS, "-"),
                right: number(2),
            }),
            operator: token(TokenType::MINUS, "-"),
            right: number(3),
        })
    );
}

#[test]
fn a_binary_operator_keeps_its_operands_in_source_order() {
    assert_eq!(
        expression("1 < 2"),
        Box::new(Expr::Binary {
            left: number(1),
            operator: token(TokenType::LESS, "<"),
            right: number(2),
        })
    );
    assert_eq!(
        expression("1 == 2"),
        Box::new(Expr::Binary {
            left: number(1),
            operator: token(TokenType::EQUAL_EQUAL, "=="),
            right: number(2),
        })
    );
}

#[test]
fn logical_operators_make_logical_nodes() {
    assert_eq!(
        expression("1 or 2 and 3"),
        Box::new(Expr::Logical {
            left: number(1),
            operator: token(TokenType::OR, "or"),
            right: Box::new(Expr::Logical {
                left: number(2),
                operator: token(TokenType::AND, "and"),
                right: number(3),
            }),
        })
    );
}

#[test]
fn unary_operators_nest() {
    assert_eq!(
        expression("!-1"),
        Box::new(Expr::Unary {
            operator: token(TokenType::BANG, "!"),
            right: Box::new(Expr::Unary {
                operator: token(TokenType::MINUS, "-"),
                right: number(1),
            }),
        })
    );
}

#[test]
fn literals_and_groups() {
    assert_eq!(
        expression("true"),
        Box::new(Expr::Literal { literal: Literal::Boolean(true) })
    );
    assert_eq!(
        expression("false"),
        Box::new(Expr::Literal { literal: Literal::Boolean(false) })
    );
    assert_eq!(expression("nil"), Box::new(Expr::Literal { literal: Literal::Nil }));
    assert_eq!(
        expression("\"a b\""),
        Box::new(Expr::Literal { literal: Literal::String("a b".to_string()) })
    );
    assert_eq!(expression("(7)"), Box::new(Expr::Grouping { expression: number(7) }));
}

#[test]
fn a_variable_is_numbered_by_the_place_of_its_name() {
    assert_eq!(
        expression("a + a"),
        Box::new(Expr::Binary {
            left: variable("a", 0),
            operator: token(TokenType::PLUS, "+"),
            right: variable("a", 2),
        })
    );
    let mut scanner = Scanner::new("a + a".to_string());
    scanner.scan_tokens();
    let mut parser = Parser::numbered_from(scanner.tokens_helper(), 10);
    assert_eq!(
        parser.parse_expression().unwrap(),
        Box::new(Expr::Binary {
            left: variable("a", 10),
            operator: token(TokenType::PLUS, "+"),
            right: variable("a", 12),
        })
    );
}

#[test]
fn an_assignment_takes_the_number_of_its_variable() {
    assert_eq!(
        expression("a = b = 1"),
        Box::new(Expr::Assign {
            name: token(TokenType::IDENTIFIER, "a"),
            value: Box::new(Expr::Assign {
                name: token(TokenType::IDENTIFIER, "b"),
                value: number(1),
                id: 2,
            }),
            id: 0,
        })
    );
}

#[test]
fn only_a_variable_can_be_assigned_to() {
    assert_eq!(expression_error("1 = 2"), "Invalid assignment target");
    assert_eq!(expression_error("(a) = 2"), "Invalid assignment target");
    assert_eq!(expression_error("a + b = 2"), "Invalid assignment target");
}

#[test]
fn calls_follow_each_other() {
    assert_eq!(
        expression("f(1, a)(2)"),
        Box::new(Expr::Call {
            callee: Box::new(Expr::Call {
                callee: variable("f", 0),
                paren: token(TokenType::RIGHT_PAREN, ")"),
                arguments: vec![number(1), variable("a", 4)],
            }),
            paren: token(TokenType::RIGHT_PAREN, ")"),
            arguments: vec![number(2)],
        })
    );
    assert_eq!(
        expression("f()"),
        Box::new(Expr::Call {
            callee: variable("f", 0),
            paren: token(TokenType::RIGHT_PAREN, ")"),
            arguments: vec![],
        })
    );
}

#[test]
fn a_call_takes_at_most_255_arguments() {
    let arguments = |n: usize| vec!["1"; n].join(", ");
    assert!(parser(&format!("f({})", arguments(255))).parse_expression().is_ok());
    assert_eq!(
        expression_error(&format!("f({})", arguments(256))),
        "Argument size overpassed."
    );
}

#[test]
fn a_function_takes_at_most_255_parameters() {
    let parameters = |n: usize| {
        (0..n).map(|i| format!("p{}", i)).collect::<Vec<String>>().join(", ")
    };
    assert!(parser(&format!("fun f({}) {{ }}", parameters(255))).parse().is_ok());
    assert_eq!(
        program_error(&format!("fun f({}) {{ }}", parameters(256))),
        "Parameter size overpassed."
    );
}

#[test]
fn errors_of_expressions() {
    assert_eq!(expression_error(""), "Expected expression.");
    assert_eq!(expression_error("+"), "Expected expression.");
    assert_eq!(expression_error("1 +"), "Expected expression.");
    assert_eq!(expression_error("(1"), "Expected ')'");
    assert_eq!(expression_error("f(1"), "Expect \")\" after arguments.");
    assert_eq!(expression_error("f(1,"), "Expected expression.");
}

#[test]
fn errors_of_statements() {
    assert_eq!(program_error("1"), "Expect ';' after expression");
    assert_eq!(program_error("print 1"), "Expect ';' after value.");
    assert_eq!(program_error("var 1;"), "Expect variable name.");
    assert_eq!(program_error("var a"), "Expect ';' after variable declaration");
    assert_eq!(program_error("var a = ;"), "Expected expression.");
    assert_eq!(program_error("if 1"), "Expect '(' after 'if'.");
    assert_eq!(program_error("if (1"), "Expect ')' after 'if' condition.");
    assert_eq!(program_error("while 1"), "Expect ( after while statement");
    assert_eq!(program_error("while (1"), "Expect ) after condition");
    assert_eq!(program_error("for 1"), "Expect ( for .");
    assert_eq!(program_error("for (; 1 )"), "Expect ; after loop condition");
    assert_eq!(program_error("for (;; 1 ;"), "Expect ) after for clauses.");
    assert_eq!(program_error("{ print 1;"), "Expect '}' after block.");
    assert_eq!(program_error("fun 1"), "Expect function name.");
    assert_eq!(program_error("fun f 1"), "Expect '( after function name");
    assert_eq!(program_error("fun f(1"), "Expect parameter name");
    assert_eq!(program_error("fun f(a"), "Expect ')' after parameters");
    assert_eq!(program_error("fun f(a) 1"), "Expect '{' before function body");
    assert_eq!(program_error("fun f() { return 1 }"), "Expect ';' after return value.");
}

#[test]
fn declarations_and_statements() {
    assert_eq!(
        program("var a; var b = 2; print b; b; { } return; return 1;"),
        vec![
            Box::new(Statement::Variable {
                name: token(TokenType::IDENTIFIER, "a"),
                initializer: None,
            }),
            Box::new(Statement::Variable {
                name: token(TokenType::IDENTIFIER, "b"),
                initializer: Some(number(2)),
            }),
            Box::new(Statement::Print { expression: variable("b", 9) }),
            Box::new(Statement::Expression { expression: variable("b", 11) }),
            Box::new(Statement::Block { statements: vec![] }),
            Box::new(Statement::Return {
                keyword: token(TokenType::RETURN, "return"),
                value: None,
            }),
            Box::new(Statement::Return {
                keyword: token(TokenType::RETURN, "return"),
                value: Some(number(1)),
            }),
        ]
    );
    assert_eq!(program(""), vec![]);
}

#[test]
fn a_function_declaration() {
    assert_eq!(
        program("fun add(a, b) { print a; }"),
        vec![Box::new(Statement::Function {
            name: token(TokenType::IDENTIFIER, "add"),
            params: vec![
                token(TokenType::IDENTIFIER, "a"),
                token(TokenType::IDENTIFIER, "b")
            ],
            body: vec![Box::new(Statement::Print { expression: variable("a", 9) })],
        })]
    );
}

#[test]
fn if_with_and_without_else() {
    assert_eq!(
        program("if (1) print 2; else print 3; if (4) { }"),
        vec![
            Box::new(Statement::If {
                condition: number(1),
                then_branch: Box::new(Statement::Print { expression: number(2) }),
                else_branch: Some(Box::new(Statement::Print { expression: number(3) })),
            }),
            Box::new(Statement::If {
                condition: number(4),
                then_branch: Box::new(Statement::Block { statements: vec![] }),
                else_branch: None,
            }),
        ]
    );
}

#[test]
fn an_else_belongs_to_the_nearest_if() {
    assert_eq!(
        program("if (1) if (2) print 3; else print 4;"),
        vec![Box::new(Statement::If {
            condition: number(1),
            then_branch: Box::new(Statement::If {
                condition: number(2),
                then_branch: Box::new(Statement::Print { expression: number(3) }),
                else_branch: Some(Box::new(Statement::Print { expression: number(4) })),
            }),
            else_branch: None,
        })]
    );
}

#[test]
fn a_for_statement_stands_for_a_while_loop() {
    assert_eq!(
        program("for (;;) print 1;"),
        vec![Box::new(Statement::While {
            condition: Box::new(Expr::Literal { literal: Literal::Boolean(true) }),
            body: Box::new(Statement::Print { expression: number(1) }),
        })]
    );
    assert_eq!(
        program("for (var i = 0; i; i = 1) print i;"),
        vec![Box::new(Statement::Block {
            statements: vec![
                Box::new(Statement::Variable {
                    name: token(TokenType::IDENTIFIER, "i"),
                    initializer: Some(number(0)),
                }),
                Box::new(Statement::While {
                    condition: variable("i", 7),
                    body: Box::new(Statement::Block {
                        statements: vec![
                            Box::new(Statement::Print { expression: variable("i", 14) }),
                            Box::new(Statement::Expression {
                                expression: Box::new(Expr::Assign {
                                    name: token(TokenType::IDENTIFIER, "i"),
                                    value: number(1),
                                    id: 9,
                                }),
                            }),
                        ],
                    }),
                }),
            ],
        })]
    );
    assert_eq!(
        program("for (i = 0;;) { }"),
        vec![Box::new(Statement::Block {
            statements: vec![
                Box::new(Statement::Expression {
                    expression: Box::new(Expr::Assign {
                        name: token(TokenType::IDENTIFIER, "i"),
                        value: number(0),
                        id: 2,
                    }),
                }),
                Box::new(Statement::While {
                    condition: Box::new(Expr::Literal { literal: Literal::Boolean(true) }),
                    body: Box::new(Statement::Block { statements: vec![] }),
                }),
            ],
        })]
    );
}

#[test]
fn after_an_error_the_parser_stands_where_a_statement_may_begin() {
    let mut p = parser("var 1; print 2;");
    assert!(p.parse().is_err());
    assert_eq!(p.tokens[p.current].of_type, TokenType::PRINT);

    let mut p = parser("print (1 2 3 var a;");
    assert!(p.parse().is_err());
    assert_eq!(p.tokens[p.current].of_type, TokenType::VAR);

    let mut p = parser("print (1");
    assert!(p.parse().is_err());
    assert_eq!(p.tokens[p.current].of_type, TokenType::EOF);
}

#[test]
fn the_parser_walks_its_tokens() {
    let mut p = parser("1 + 2");
    assert_eq!(p.peek().of_type, TokenType::NUMBER);
    assert!(!p.is_at_end());
    assert!(p.check(&TokenType::NUMBER));
    assert!(!p.check(&TokenType::PLUS));
    assert!(!p.if_match(&[TokenType::PLUS, TokenType::MINUS]));
    assert!(p.if_match(&[TokenType::PLUS, TokenType::NUMBER]));
    assert_eq!(p.previous().lexeme, "1");
    assert_eq!(p.advance().of_type, TokenType::PLUS);
    assert!(p.consume(TokenType::PLUS, "no plus".to_string()).is_err());
    assert_eq!(p.current, 2);
    assert_eq!(p.consume(TokenType::NUMBER, "no number".to_string()).unwrap().lexeme, "2");
    assert!(p.is_at_end());
    assert!(!p.check(&TokenType::EOF));
    assert_eq!(p.advance().lexeme, "2");
    assert_eq!(p.current, 3);
}

#[test]
fn the_parts_of_the_grammar_can_be_read_alone() {
    assert_eq!(parser("1 * 2 + 3").multiplication().unwrap(), expression("1 * 2"));
    assert_eq!(parser("1 + 2 < 3").addition().unwrap(), expression("1 + 2"));
    assert_eq!(parser("1 < 2 == 3").comparison().unwrap(), expression("1 < 2"));
    assert_eq!(parser("1 == 2 and 3").equality().unwrap(), expression("1 == 2"));
    assert_eq!(parser("1 and 2 or 3").and().unwrap(), expression("1 and 2"));
    assert_eq!(parser("1 or 2 = 3").or().unwrap(), expression("1 or 2"));
    assert_eq!(parser("a = 1;").assignment().unwrap(), expression("a = 1"));
    assert_eq!(parser("a = 1;").expression().unwrap(), expression("a = 1"));
    assert_eq!(parser("-1 * 2").unary().unwrap(), expression("-1"));
    assert_eq!(parser("f(1) * 2").call().unwrap(), expression("f(1)"));
    assert_eq!(parser("1(2)").primary().unwrap(), expression("1"));
    assert_eq!(parser("1; 2;").statement().unwrap(), program("1;")[0]);
    assert_eq!(parser("1; 2;").expression_statement().unwrap(), program("1;")[0]);
    assert_eq!(parser("var a; 2;")._declaration().unwrap(), program("var a;")[0]);
    assert_eq!(parser("1; 2;").parse_statement().unwrap(), program("1; 2;"));
    assert_eq!(parser("print 1; }").block().unwrap(), program("print 1;"));
}

#[test]
fn a_number_token_without_a_value_is_no_expression() {
    let tokens = vec![
        token(TokenType::NUMBER, "1"),
        token(TokenType::IDENTIFIER, "a"),
        token(TokenType::EOF, ""),
    ];
    match Parser::new(tokens).primary() {
        Err(LoxError::RuntimeError(message)) => assert_eq!(message, "Expected expression."),
        other => panic!("no error: {:?}", other),
    }
}

#[test]
fn comparisons_chain_from_the_left() {
    assert_eq!(
        expression("1 < 2 >= 3"),
        Box::new(Expr::Binary {
            left: Box::new(Expr::Binary {
                left: number(1),
                operator: token(TokenType::LESS, "<"),
                right: number(2),
            }),
            operator: token(TokenType::GREATER_EQUAL, ">="),
            right: number(3),
        })
    );
}
