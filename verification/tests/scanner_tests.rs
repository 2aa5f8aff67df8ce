use lox::literal::Literal;
use lox::scanner::Scanner;
use lox::token::Token;
use lox::token_type::TokenType;

fn kinds(source: &str) -> Vec<TokenType> {
    let mut scanner = Scanner::new(source.to_string());
    let tokens = scanner.scan_tokens();
    tokens.into_iter().map(|t| t.of_type).collect()
}

#[test]
fn scanner_test() {
    let input = "(+);".to_string();

    let mut scanner = Scanner::new(input);

    scanner.scan_tokens();

    assert_eq!(
        scanner.tokens_helper(),
        vec!(
            Token {
                of_type: TokenType::LEFT_PAREN,
                lexeme: String::from("("),
                literal: None,
                line: 1,
            },
            Token {
                of_type: TokenType::PLUS,
                lexeme: String::from("+"),
                literal: None,
                line: 1,
            },
            Token {
                of_type: TokenType::RIGHT_PAREN,
                lexeme: String::from(")"),
                literal: None,
                line: 1,
            },
            Token {
                of_type: TokenType::SEMICOLON,
                lexeme: String::from(";"),
                literal: None,
                line: 1,
            },
            Token {
                of_type: TokenType::EOF,
                lexeme: String::from(""),
                literal: None,
                line: 1,
            },
        )
    );
}

#[test]
fn free_form_code_test() {
    let input = "/".to_string();
    let mut scanner = Scanner::new(input);

    scanner.scan_tokens();

    assert_eq!(
        scanner.tokens_helper(),
        vec!(
            Token {
                of_type: TokenType::SLASH,
                lexeme: String::from("/"),
                literal: None,
                line: 1,
            },
            Token {
                of_type: TokenType::EOF,
                lexeme: String::from(""),
                literal: None,
                line: 1
            },
        )
    );
}

#[test]
fn number_parsing_test() {
    let input = "1+2".to_string();
    let mut scanner = Scanner::new(input);

    scanner.scan_tokens();

    assert_eq!(
        scanner.tokens_helper(),
        vec!(
            Token {
                of_type: TokenType::NUMBER,
                lexeme: String::from("1"),
                literal: Some(Literal::Number(1)),
                line: 1
            },
            Token {
                of_type: TokenType::PLUS,
                lexeme: String::from("+"),
                literal: None,
                line: 1
            },
            Token {
                of_type: TokenType::NUMBER,
                lexeme: String::from("2"),
                literal: Some(Literal::Number(2)),
                line: 1
            },
            Token {
                of_type: TokenType::EOF,
                lexeme: String::from(""),
                literal: None,
                line: 1
            },
        )
    );
}

#[test]
fn expected_keywords_test() {
    let mut scanner = Scanner::new("and for if while".to_string());

    let tokens = scanner.scan_tokens();
    let token_types: Vec<TokenType> = tokens.into_iter().map(|t| t.of_type).collect();

    assert_eq!(
        token_types,
        vec![
            TokenType::AND,
            TokenType::FOR,
            TokenType::IF,
            TokenType::WHILE,
            TokenType::EOF
        ]
    );
}

#[test]
fn every_keyword_is_recognised() {
    assert_eq!(
        kinds("else class false fun nil or print return super this true var"),
        vec![
            TokenType::ELSE,
            TokenType::CLASS,
            TokenType::FALSE,
            TokenType::FUN,
            TokenType::NIL,
            TokenType::OR,
            TokenType::PRINT,
            TokenType::RETURN,
            TokenType::SUPER,
            TokenType::THIS,
            TokenType::TRUE,
            TokenType::VAR,
            TokenType::EOF
        ]
    );
}

#[test]
fn names_that_begin_like_keywords_are_identifiers() {
    assert_eq!(
        kinds("order _x forty x1"),
        vec![
            TokenType::IDENTIFIER,
            TokenType::IDENTIFIER,
            TokenType::IDENTIFIER,
            TokenType::IDENTIFIER,
            TokenType::EOF
        ]
    );
}

#[test]
fn operators_of_one_and_two_characters() {
    assert_eq!(
        kinds("! != = == < <= > >= - * . , { }"),
        vec![
            TokenType::BANG,
            TokenType::BANG_EQUAL,
            TokenType::EQUAL,
            TokenType::EQUAL_EQUAL,
            TokenType::LESS,
            TokenType::LESS_EQUAL,
            TokenType::GREATER,
            TokenType::GREATER_EQUAL,
            TokenType::MINUS,
            TokenType::STAR,
            TokenType::DOT,
            TokenType::COMMA,
            TokenType::LEFT_BRACE,
            TokenType::RIGHT_BRACE,
            TokenType::EOF
        ]
    );
}

#[test]
fn a_comment_runs_to_the_end_of_its_line() {
    let mut scanner = Scanner::new("1 // two three\n4".to_string());
    scanner.scan_tokens();
    let tokens = scanner.tokens_helper();
    assert_eq!(tokens.len(), 3);
    assert_eq!(tokens[0].literal, Some(Literal::Number(1)));
    assert_eq!(tokens[1].literal, Some(Literal::Number(4)));
    assert_eq!(tokens[1].line, 2);
    assert_eq!(tokens[2].of_type, TokenType::EOF);
    assert_eq!(tokens[2].line, 2);
}

#[test]
fn a_string_holds_the_text_between_its_quotes() {
    let mut scanner = Scanner::new("\"Hello world\"".to_string());
    scanner.scan_tokens();
    assert!(scanner.errors.is_empty());
    let tokens = scanner.tokens_helper();
    assert_eq!(tokens.len(), 2);
    assert_eq!(
        tokens[0],
        Token {
            of_type: TokenType::STRING,
            lexeme: String::from("\"Hello world\""),
            literal: Some(Literal::String(String::from("Hello world"))),
            line: 1,
        }
    );
}

#[test]
fn a_string_may_span_lines() {
    let mut scanner = Scanner::new("\"a\nb\" c".to_string());
    scanner.scan_tokens();
    let tokens = scanner.tokens_helper();
    assert_eq!(tokens[0].literal, Some(Literal::String(String::from("a\nb"))));
    assert_eq!(tokens[0].line, 2);
    assert_eq!(tokens[1].of_type, TokenType::IDENTIFIER);
    assert_eq!(tokens[1].line, 2);
}

#[test]
fn an_unterminated_string_is_reported() {
    let mut scanner = Scanner::new("\"abc".to_string());
    scanner.scan_tokens();
    assert_eq!(scanner.errors, vec![String::from("Unterminated string.")]);
    assert_eq!(
        scanner.tokens_helper().iter().map(|t| t.of_type).collect::<Vec<TokenType>>(),
        vec![TokenType::EOF]
    );
}

#[test]
fn an_unexpected_character_is_reported_and_passed_over() {
    let mut scanner = Scanner::new("1 # 2".to_string());
    scanner.scan_tokens();
    assert_eq!(scanner.errors, vec![String::from("Unexpected character.")]);
    let tokens = scanner.tokens_helper();
    assert_eq!(tokens.len(), 3);
    assert_eq!(tokens[1].literal, Some(Literal::Number(2)));
}

#[test]
fn the_largest_number_is_read_and_the_next_is_not() {
    let mut scanner = Scanner::new("2147483647".to_string());
    scanner.scan_tokens();
    assert!(scanner.errors.is_empty());
    assert_eq!(scanner.tokens_helper()[0].literal, Some(Literal::Number(2147483647)));

    let mut scanner = Scanner::new("2147483648".to_string());
    scanner.scan_tokens();
    assert_eq!(scanner.errors, vec![String::from("Invalid number.")]);
    assert_eq!(scanner.tokens_helper().len(), 1);
}

#[test]
fn a_number_with_a_fraction_is_reported() {
    let mut scanner = Scanner::new("1.5;".to_string());
    scanner.scan_tokens();
    assert_eq!(scanner.errors, vec![String::from("Invalid number.")]);
    assert_eq!(
        scanner.tokens_helper().iter().map(|t| t.of_type).collect::<Vec<TokenType>>(),
        vec![TokenType::SEMICOLON, TokenType::EOF]
    );
}

#[test]
fn a_number_before_a_dot_without_digits_is_read() {
    assert_eq!(
        kinds("12.x"),
        vec![TokenType::NUMBER, TokenType::DOT, TokenType::IDENTIFIER, TokenType::EOF]
    );
}

#[test]
fn an_empty_text_has_only_the_end_token() {
    assert_eq!(kinds(""), vec![TokenType::EOF]);
    assert_eq!(kinds(" \t\r\n"), vec![TokenType::EOF]);
}

#[test]
fn peek_and_advance_walk_the_text() {
    let mut scanner = Scanner::new("ab".to_string());
    assert_eq!(scanner.peek(), 'a');
    assert_eq!(scanner.peek_next(), 'b');
    assert_eq!(scanner.advance(), 'a');
    assert!(!scanner.advance_if_then('x'));
    assert!(scanner.advance_if_then('b'));
    assert_eq!(scanner.peek(), '\0');
    assert_eq!(scanner.peek_next(), '\0');
    assert!(!scanner.advance_if_then('b'));
}

#[test]
fn characters_are_classified() {
    let mut scanner = Scanner::new(String::new());
    assert!(scanner.is_apha('a') && scanner.is_apha('Z') && scanner.is_apha('_'));
    assert!(!scanner.is_apha('1') && !scanner.is_apha('-'));
    assert!(scanner.is_digit('0') && scanner.is_digit('9') && !scanner.is_digit('a'));
    assert!(scanner.is_alphanumeric('a') && scanner.is_alphanumeric('7'));
    assert!(!scanner.is_alphanumeric(' '));
    assert_eq!(scanner.match_identifier("while".to_string()), Some(TokenType::WHILE));
    assert_eq!(scanner.match_identifier("whale".to_string()), None);
}
