//! The grammar of the language: what the parser makes of a list of tokens,
//! as a function of the list and of the place at which it starts to read.

use crate::expression::ExprView;
use crate::literal::LiteralView;
use crate::lox_error::LoxErrorView;
use crate::statement::StmtView;
use crate::token::TokenView;
use crate::token_type::TokenType;
use vstd::prelude::*;

verus! {

/// What the parser has read, with the place of the token after it; or the
/// error that it met, with the place at which it gave up.
pub type Parse<T> = Result<(T, int), (LoxErrorView, int)>;

/// The error of the parser with the given message.
pub open spec fn syntax_error(message: Seq<char>) -> LoxErrorView {
    LoxErrorView::RuntimeError(message)
}

/// The message for a token with which no expression begins.
pub open spec fn msg_expected_expression() -> Seq<char> {
    "Expected expression."@
}

/// The message for a group that is not closed.
pub open spec fn msg_expected_paren() -> Seq<char> {
    "Expected ')'"@
}

/// The message for a list of arguments that is not closed.
pub open spec fn msg_arguments_paren() -> Seq<char> {
    "Expect \")\" after arguments."@
}

/// The message for a call with more than 255 arguments.
pub open spec fn msg_too_many_arguments() -> Seq<char> {
    "Argument size overpassed."@
}

/// The message for an assignment to what is no variable.
pub open spec fn msg_assignment_target() -> Seq<char> {
    "Invalid assignment target"@
}

/// The message for a part of the grammar that read no token. No list of tokens leads to it.
pub open spec fn msg_stuck() -> Seq<char> {
    "The parser made no progress."@
}

/// A list of tokens that ends with the token that marks the end.
pub open spec fn well_formed(t: Seq<TokenView>) -> bool {
    t.len() > 0 && t.last().of_type == TokenType::EOF
}

/// Whether the token at `pos` marks the end.
pub open spec fn at_end(t: Seq<TokenView>, pos: int) -> bool {
    t[pos].of_type == TokenType::EOF
}

/// Whether the token at `pos` is of the kind `kind` and does not mark the end.
pub open spec fn check(t: Seq<TokenView>, pos: int, kind: TokenType) -> bool {
    !at_end(t, pos) && t[pos].of_type == kind
}

/// Whether the token at `pos` is of one of the kinds and does not mark the
/// end.
pub open spec fn matches_any(t: Seq<TokenView>, pos: int, kinds: Seq<TokenType>) -> bool {
    !at_end(t, pos) && kinds.contains(t[pos].of_type)
}

/// The token at `pos` if it is of the kind `kind`, an error with the given
/// message if not.
pub open spec fn consume(t: Seq<TokenView>, pos: int, kind: TokenType, message: Seq<char>) -> Parse<
    TokenView,
> {
    if check(t, pos, kind) {
        Ok((t[pos], pos + 1))
    } else {
        Err((syntax_error(message), pos))
    }
}

/// Whether a place reached from `pos` lies after it and within the list.
pub open spec fn ahead(t: Seq<TokenView>, pos: int, reached: int) -> bool {
    pos < reached < t.len()
}

/// The kinds of operator of a level of binary expressions, from the
/// tightest, 0, to the loosest, 5.
pub open spec fn level_operators(level: nat) -> Seq<TokenType> {
    if level == 0 {
        seq![TokenType::SLASH, TokenType::STAR]
    } else if level == 1 {
        seq![TokenType::PLUS, TokenType::MINUS]
    } else if level == 2 {
        seq![
            TokenType::GREATER,
            TokenType::GREATER_EQUAL,
            TokenType::LESS,
            TokenType::LESS_EQUAL,
        ]
    } else if level == 3 {
        seq![TokenType::BANG_EQUAL, TokenType::EQUAL_EQUAL]
    } else if level == 4 {
        seq![TokenType::AND]
    } else {
        seq![TokenType::OR]
    }
}

/// The node that an operator of a level makes of what stands before it and
/// what stands after it: what stands before it is its left operand, what
/// stands after it its right operand. `and` and `or` make logical nodes.
pub open spec fn combine(level: nat, before: ExprView, operator: TokenView, after: ExprView) -> ExprView {
    if level >= 4 {
        ExprView::Logical { left: Box::new(before), operator, right: Box::new(after) }
    } else {
        ExprView::Binary { left: Box::new(before), operator, right: Box::new(after) }
    }
}

/// A primary expression: a literal, a name, or an expression in brackets.
/// A number or string token that carries no value is no expression.
pub open spec fn primary(t: Seq<TokenView>, base: int, pos: int) -> Parse<ExprView>
    decreases t.len() - pos, 0nat,
    when well_formed(t) && 0 <= pos < t.len()
{
    if check(t, pos, TokenType::FALSE) {
        Ok((ExprView::Literal { literal: LiteralView::Boolean(false) }, pos + 1))
    } else if check(t, pos, TokenType::TRUE) {
        Ok((ExprView::Literal { literal: LiteralView::Boolean(true) }, pos + 1))
    } else if check(t, pos, TokenType::NIL) {
        Ok((ExprView::Literal { literal: LiteralView::Nil }, pos + 1))
    } else if check(t, pos, TokenType::NUMBER) || check(t, pos, TokenType::STRING) {
        match t[pos].literal {
            Some(literal) => Ok((ExprView::Literal { literal }, pos + 1)),
            None => Err((syntax_error(msg_expected_expression()), pos + 1)),
        }
    } else if check(t, pos, TokenType::IDENTIFIER) {
        Ok((ExprView::Variable { name: t[pos], id: (base + pos) as usize }, pos + 1))
    } else if check(t, pos, TokenType::LEFT_PAREN) {
        match expression(t, base, pos + 1) {
            Ok((e, p2)) => match consume(t, p2, TokenType::RIGHT_PAREN, msg_expected_paren()) {
                Ok((_, p3)) => Ok((ExprView::Grouping { expression: Box::new(e) }, p3)),
                Err(m) => Err(m),
            },
            Err(m) => Err(m),
        }
    } else {
        Err((syntax_error(msg_expected_expression()), pos))
    }
}

/// A primary expression and the calls that follow it.
pub open spec fn call(t: Seq<TokenView>, base: int, pos: int) -> Parse<ExprView>
    decreases t.len() - pos, 1nat,
    when well_formed(t) && 0 <= pos < t.len()
{
    match primary(t, base, pos) {
        Ok((e, p)) => if ahead(t, pos, p) {
            call_rest(t, base, p, e)
        } else {
            Err((syntax_error(msg_stuck()), p))
        },
        Err(m) => Err(m),
    }
}

/// The calls of `callee` that follow from `pos` on, each of the one before.
pub open spec fn call_rest(t: Seq<TokenView>, base: int, pos: int, callee: ExprView) -> Parse<
    ExprView,
>
    decreases t.len() - pos, 0nat,
    when well_formed(t) && 0 <= pos < t.len()
{
    if check(t, pos, TokenType::LEFT_PAREN) {
        match finish_call(t, base, pos + 1, callee) {
            Ok((e, p)) => if ahead(t, pos, p) {
                call_rest(t, base, p, e)
            } else {
                Err((syntax_error(msg_stuck()), p))
            },
            Err(m) => Err(m),
        }
    } else {
        Ok((callee, pos))
    }
}

/// The call of `callee` whose opening bracket stands before `pos`.
pub open spec fn finish_call(t: Seq<TokenView>, base: int, pos: int, callee: ExprView) -> Parse<
    ExprView,
>
    decreases t.len() - pos, 30nat,
    when well_formed(t) && 0 <= pos < t.len()
{
    let list = if check(t, pos, TokenType::RIGHT_PAREN) {
        Ok((Seq::empty(), pos))
    } else {
        arguments(t, base, pos, Seq::empty())
    };
    match list {
        Ok((arguments, p)) => match consume(t, p, TokenType::RIGHT_PAREN, msg_arguments_paren()) {
            Ok((paren, p2)) => Ok((ExprView::Call { callee: Box::new(callee), paren, arguments }, p2)),
            Err(m) => Err(m),
        },
        Err(m) => Err(m),
    }
}

/// The arguments of a call from `pos` on, behind those already read.
pub open spec fn arguments(t: Seq<TokenView>, base: int, pos: int, read: Seq<ExprView>) -> Parse<
    Seq<ExprView>,
>
    decreases t.len() - pos, 29nat,
    when well_formed(t) && 0 <= pos < t.len()
{
    if read.len() >= 255 {
        Err((syntax_error(msg_too_many_arguments()), pos))
    } else {
        match expression(t, base, pos) {
            Ok((e, p)) => if !ahead(t, pos, p) {
                Err((syntax_error(msg_stuck()), p))
            } else if check(t, p, TokenType::COMMA) {
                arguments(t, base, p + 1, read.push(e))
            } else {
                Ok((read.push(e), p))
            },
            Err(m) => Err(m),
        }
    }
}

/// A unary expression: a call, or `!` or `-` before a unary expression.
pub open spec fn unary(t: Seq<TokenView>, base: int, pos: int) -> Parse<ExprView>
    decreases t.len() - pos, 2nat,
    when well_formed(t) && 0 <= pos < t.len()
{
    if check(t, pos, TokenType::BANG) || check(t, pos, TokenType::MINUS) {
        match unary(t, base, pos + 1) {
            Ok((right, p)) => Ok((ExprView::Unary { operator: t[pos], right: Box::new(right) }, p)),
            Err(m) => Err(m),
        }
    } else {
        call(t, base, pos)
    }
}

/// An operand of a level of binary expressions: an expression of the next
/// tighter level, of which the tightest are the unary expressions.
pub open spec fn operand(t: Seq<TokenView>, base: int, pos: int, level: nat) -> Parse<ExprView>
    decreases t.len() - pos, 3 + 2 * level,
    when well_formed(t) && 0 <= pos < t.len()
{
    if level == 0 {
        unary(t, base, pos)
    } else {
        binary(t, base, pos, (level - 1) as nat)
    }
}

/// A binary expression of a level: operands with operators of the level
/// between them, grouped from the left.
pub open spec fn binary(t: Seq<TokenView>, base: int, pos: int, level: nat) -> Parse<ExprView>
    decreases t.len() - pos, 4 + 2 * level,
    when well_formed(t) && 0 <= pos < t.len()
{
    match operand(t, base, pos, level) {
        Ok((e, p)) => if ahead(t, pos, p) {
            binary_rest(t, base, p, level, e)
        } else {
            Err((syntax_error(msg_stuck()), p))
        },
        Err(m) => Err(m),
    }
}

/// What follows the operand `before` in a binary expression of a level.
pub open spec fn binary_rest(
    t: Seq<TokenView>,
    base: int,
    pos: int,
    level: nat,
    before: ExprView,
) -> Parse<ExprView>
    decreases t.len() - pos, 0nat,
    when well_formed(t) && 0 <= pos < t.len()
{
    if matches_any(t, pos, level_operators(level)) {
        match operand(t, base, pos + 1, level) {
            Ok((after, p)) => if ahead(t, pos, p) {
                binary_rest(t, base, p, level, combine(level, before, t[pos], after))
            } else {
                Err((syntax_error(msg_stuck()), p))
            },
            Err(m) => Err(m),
        }
    } else {
        Ok((before, pos))
    }
}

/// An assignment: a binary expression of the loosest level, or a variable,
/// `=` and an assignment.
pub open spec fn assignment(t: Seq<TokenView>, base: int, pos: int) -> Parse<ExprView>
    decreases t.len() - pos, 20nat,
    when well_formed(t) && 0 <= pos < t.len()
{
    match binary(t, base, pos, 5) {
        Ok((e, p)) => if !ahead(t, pos, p) {
            Err((syntax_error(msg_stuck()), p))
        } else if check(t, p, TokenType::EQUAL) {
            match assignment(t, base, p + 1) {
                Ok((value, p2)) => match e {
                    ExprView::Variable { name, id } => Ok(
                        (ExprView::Assign { name, value: Box::new(value), id }, p2),
                    ),
                    _ => Err((syntax_error(msg_assignment_target()), p2)),
                },
                Err(m) => Err(m),
            }
        } else {
            Ok((e, p))
        },
        Err(m) => Err(m),
    }
}

/// An expression.
pub open spec fn expression(t: Seq<TokenView>, base: int, pos: int) -> Parse<ExprView>
    decreases t.len() - pos, 21nat,
    when well_formed(t) && 0 <= pos < t.len()
{
    assignment(t, base, pos)
}


/// The message for an expression statement without `;`.
pub open spec fn msg_expression_semicolon() -> Seq<char> {
    "Expect ';' after expression"@
}

/// The message for a `print` statement without `;`.
pub open spec fn msg_value_semicolon() -> Seq<char> {
    "Expect ';' after value."@
}

/// The message for a `return` statement without `;`.
pub open spec fn msg_return_semicolon() -> Seq<char> {
    "Expect ';' after return value."@
}

/// The message for a `while` without `(`.
pub open spec fn msg_while_open() -> Seq<char> {
    "Expect ( after while statement"@
}

/// The message for a `while` whose condition is not closed.
pub open spec fn msg_while_close() -> Seq<char> {
    "Expect ) after condition"@
}

/// The message for an `if` without `(`.
pub open spec fn msg_if_open() -> Seq<char> {
    "Expect '(' after 'if'."@
}

/// The message for an `if` whose condition is not closed.
pub open spec fn msg_if_close() -> Seq<char> {
    "Expect ')' after 'if' condition."@
}

/// The message for a `for` without `(`.
pub open spec fn msg_for_open() -> Seq<char> {
    "Expect ( for ."@
}

/// The message for a `for` without `;` behind its condition.
pub open spec fn msg_for_condition() -> Seq<char> {
    "Expect ; after loop condition"@
}

/// The message for a `for` whose clauses are not closed.
pub open spec fn msg_for_close() -> Seq<char> {
    "Expect ) after for clauses."@
}

/// The message for a block that is not closed.
pub open spec fn msg_block_close() -> Seq<char> {
    "Expect '}' after block."@
}

/// The message for a `var` without a name.
pub open spec fn msg_variable_name() -> Seq<char> {
    "Expect variable name."@
}

/// The message for a variable declaration without `;`.
pub open spec fn msg_variable_semicolon() -> Seq<char> {
    "Expect ';' after variable declaration"@
}

/// The message for a `fun` without a name.
pub open spec fn msg_function_name() -> Seq<char> {
    "Expect function name."@
}

/// The message for a function without `(` behind its name.
pub open spec fn msg_function_open() -> Seq<char> {
    "Expect '( after function name"@
}

/// The message for a function with more than 255 parameters.
pub open spec fn msg_too_many_parameters() -> Seq<char> {
    "Parameter size overpassed."@
}

/// The message for a parameter that is no name.
pub open spec fn msg_parameter_name() -> Seq<char> {
    "Expect parameter name"@
}

/// The message for a list of parameters that is not closed.
pub open spec fn msg_parameters_close() -> Seq<char> {
    "Expect ')' after parameters"@
}

/// The message for a function without a body.
pub open spec fn msg_function_body() -> Seq<char> {
    "Expect '{' before function body"@
}

/// An expression and the `;` behind it.
pub open spec fn expression_statement(t: Seq<TokenView>, base: int, pos: int) -> Parse<StmtView>
    decreases t.len() - pos, 40nat,
    when well_formed(t) && 0 <= pos < t.len()
{
    match expression(t, base, pos) {
        Ok((e, p)) => match consume(t, p, TokenType::SEMICOLON, msg_expression_semicolon()) {
            Ok((_, p2)) => Ok((StmtView::Expression { expression: e }, p2)),
            Err(m) => Err(m),
        },
        Err(m) => Err(m),
    }
}

/// What follows `print`: an expression and `;`.
pub open spec fn print_statement(t: Seq<TokenView>, base: int, pos: int) -> Parse<StmtView>
    decreases t.len() - pos, 40nat,
    when well_formed(t) && 0 <= pos < t.len()
{
    match expression(t, base, pos) {
        Ok((e, p)) => match consume(t, p, TokenType::SEMICOLON, msg_value_semicolon()) {
            Ok((_, p2)) => Ok((StmtView::Print { expression: e }, p2)),
            Err(m) => Err(m),
        },
        Err(m) => Err(m),
    }
}

/// What follows `return`, which stands before `pos`: an expression, if `;`
/// does not stand next, and `;`.
pub open spec fn return_statement(t: Seq<TokenView>, base: int, pos: int) -> Parse<StmtView>
    decreases t.len() - pos, 40nat,
    when well_formed(t) && 0 <= pos < t.len()
{
    let value = if check(t, pos, TokenType::SEMICOLON) {
        Ok((None, pos))
    } else {
        match expression(t, base, pos) {
            Ok((e, p)) => Ok((Some(e), p)),
            Err(m) => Err(m),
        }
    };
    match value {
        Ok((value, p)) => match consume(t, p, TokenType::SEMICOLON, msg_return_semicolon()) {
            Ok((_, p2)) => Ok((StmtView::Return { keyword: t[pos - 1], value }, p2)),
            Err(m) => Err(m),
        },
        Err(m) => Err(m),
    }
}

/// What follows `while`: a condition in brackets and a statement.
pub open spec fn while_statement(t: Seq<TokenView>, base: int, pos: int) -> Parse<StmtView>
    decreases t.len() - pos, 50nat,
    when well_formed(t) && 0 <= pos < t.len()
{
    match consume(t, pos, TokenType::LEFT_PAREN, msg_while_open()) {
        Ok((_, p)) => match expression(t, base, p) {
            Ok((condition, p2)) => match consume(t, p2, TokenType::RIGHT_PAREN, msg_while_close()) {
                Ok((_, p3)) => if !ahead(t, pos, p3) {
                    Err((syntax_error(msg_stuck()), p3))
                } else {
                    match statement(t, base, p3) {
                        Ok((body, p4)) => Ok(
                            (StmtView::While { condition, body: Box::new(body) }, p4),
                        ),
                        Err(m) => Err(m),
                    }
                },
                Err(m) => Err(m),
            },
            Err(m) => Err(m),
        },
        Err(m) => Err(m),
    }
}

/// What follows `if`: a condition in brackets, a statement and, behind
/// `else`, another.
pub open spec fn if_statement(t: Seq<TokenView>, base: int, pos: int) -> Parse<StmtView>
    decreases t.len() - pos, 50nat,
    when well_formed(t) && 0 <= pos < t.len()
{
    match consume(t, pos, TokenType::LEFT_PAREN, msg_if_open()) {
        Ok((_, p)) => match expression(t, base, p) {
            Ok((condition, p2)) => match consume(t, p2, TokenType::RIGHT_PAREN, msg_if_close()) {
                Ok((_, p3)) => if !ahead(t, pos, p3) {
                    Err((syntax_error(msg_stuck()), p3))
                } else {
                    match statement(t, base, p3) {
                        Ok((then_branch, p4)) => if !ahead(t, pos, p4) {
                            Err((syntax_error(msg_stuck()), p4))
                        } else if check(t, p4, TokenType::ELSE) {
                            match statement(t, base, p4 + 1) {
                                Ok((other, p5)) => Ok(
                                    (
                                        StmtView::If {
                                            condition,
                                            then_branch: Box::new(then_branch),
                                            else_branch: Some(Box::new(other)),
                                        },
                                        p5,
                                    ),
                                ),
                                Err(m) => Err(m),
                            }
                        } else {
                            Ok(
                                (
                                    StmtView::If {
                                        condition,
                                        then_branch: Box::new(then_branch),
                                        else_branch: None,
                                    },
                                    p4,
                                ),
                            )
                        },
                        Err(m) => Err(m),
                    }
                },
                Err(m) => Err(m),
            },
            Err(m) => Err(m),
        },
        Err(m) => Err(m),
    }
}

/// The loop that a `for` statement stands for.
///
/// The body and the increment make a block; the condition, or `true` where
/// there is none, makes a `while` loop of it; the initializer and the loop
/// make a block.
pub open spec fn for_loop(
    initializer: Option<StmtView>,
    condition: Option<ExprView>,
    increment: Option<ExprView>,
    body: StmtView,
) -> StmtView {
    let stepped = match increment {
        Some(e) => StmtView::Block { statements: seq![body, StmtView::Expression { expression: e }] },
        None => body,
    };
    let looped = StmtView::While {
        condition: match condition {
            Some(c) => c,
            None => ExprView::Literal { literal: LiteralView::Boolean(true) },
        },
        body: Box::new(stepped),
    };
    match initializer {
        Some(i) => StmtView::Block { statements: seq![i, looped] },
        None => looped,
    }
}

/// What follows `for`: in brackets an initializer, a condition and an
/// increment, each of which may be left out, and a statement.
pub open spec fn for_statement(t: Seq<TokenView>, base: int, pos: int) -> Parse<StmtView>
    decreases t.len() - pos, 50nat,
    when well_formed(t) && 0 <= pos < t.len()
{
    match consume(t, pos, TokenType::LEFT_PAREN, msg_for_open()) {
        Ok((_, p)) => {
            let first = if check(t, p, TokenType::SEMICOLON) {
                Ok((None, p + 1))
            } else if check(t, p, TokenType::VAR) {
                match var_declaration(t, base, p + 1) {
                    Ok((s, q)) => Ok((Some(s), q)),
                    Err(m) => Err(m),
                }
            } else {
                match expression_statement(t, base, p) {
                    Ok((s, q)) => Ok((Some(s), q)),
                    Err(m) => Err(m),
                }
            };
            match first {
                Ok((initializer, p2)) => if !ahead(t, pos, p2) {
                    Err((syntax_error(msg_stuck()), p2))
                } else {
                    let second = if check(t, p2, TokenType::SEMICOLON) {
                        Ok((None, p2))
                    } else {
                        match expression(t, base, p2) {
                            Ok((e, q)) => Ok((Some(e), q)),
                            Err(m) => Err(m),
                        }
                    };
                    match second {
                        Ok((condition, p3)) => match consume(
                            t,
                            p3,
                            TokenType::SEMICOLON,
                            msg_for_condition(),
                        ) {
                            Ok((_, p4)) => if !ahead(t, pos, p4) {
                                Err((syntax_error(msg_stuck()), p4))
                            } else {
                                let third = if check(t, p4, TokenType::RIGHT_PAREN) {
                                    Ok((None, p4))
                                } else {
                                    match expression(t, base, p4) {
                                        Ok((e, q)) => Ok((Some(e), q)),
                                        Err(m) => Err(m),
                                    }
                                };
                                match third {
                                    Ok((increment, p5)) => match consume(
                                        t,
                                        p5,
                                        TokenType::RIGHT_PAREN,
                                        msg_for_close(),
                                    ) {
                                        Ok((_, p6)) => if !ahead(t, pos, p6) {
                                            Err((syntax_error(msg_stuck()), p6))
                                        } else {
                                            match statement(t, base, p6) {
                                                Ok((body, p7)) => Ok(
                                                    (
                                                        for_loop(
                                                            initializer,
                                                            condition,
                                                            increment,
                                                            body,
                                                        ),
                                                        p7,
                                                    ),
                                                ),
                                                Err(m) => Err(m),
                                            }
                                        },
                                        Err(m) => Err(m),
                                    },
                                    Err(m) => Err(m),
                                }
                            },
                            Err(m) => Err(m),
                        },
                        Err(m) => Err(m),
                    }
                },
                Err(m) => Err(m),
            }
        },
        Err(m) => Err(m),
    }
}

/// What follows `var`: a name, an initializer behind `=` if there is one,
/// and `;`.
pub open spec fn var_declaration(t: Seq<TokenView>, base: int, pos: int) -> Parse<StmtView>
    decreases t.len() - pos, 45nat,
    when well_formed(t) && 0 <= pos < t.len()
{
    match consume(t, pos, TokenType::IDENTIFIER, msg_variable_name()) {
        Ok((name, p)) => {
            let value = if check(t, p, TokenType::EQUAL) {
                match expression(t, base, p + 1) {
                    Ok((e, q)) => Ok((Some(e), q)),
                    Err(m) => Err(m),
                }
            } else {
                Ok((None, p))
            };
            match value {
                Ok((initializer, p2)) => match consume(
                    t,
                    p2,
                    TokenType::SEMICOLON,
                    msg_variable_semicolon(),
                ) {
                    Ok((_, p3)) => Ok((StmtView::Variable { name, initializer }, p3)),
                    Err(m) => Err(m),
                },
                Err(m) => Err(m),
            }
        },
        Err(m) => Err(m),
    }
}

/// The parameters of a function from `pos` on, behind those already read:
/// names with `,` between them, at most 255.
pub open spec fn parameters(t: Seq<TokenView>, pos: int, read: Seq<TokenView>) -> Parse<
    Seq<TokenView>,
>
    decreases t.len() - pos,
    when well_formed(t) && 0 <= pos < t.len()
{
    if read.len() >= 255 {
        Err((syntax_error(msg_too_many_parameters()), pos))
    } else {
        match consume(t, pos, TokenType::IDENTIFIER, msg_parameter_name()) {
            Ok((name, p)) => if check(t, p, TokenType::COMMA) {
                parameters(t, p + 1, read.push(name))
            } else {
                Ok((read.push(name), p))
            },
            Err(m) => Err(m),
        }
    }
}

/// What follows `fun`: a name, the parameters in brackets, and a block.
pub open spec fn function(t: Seq<TokenView>, base: int, pos: int) -> Parse<StmtView>
    decreases t.len() - pos, 50nat,
    when well_formed(t) && 0 <= pos < t.len()
{
    match consume(t, pos, TokenType::IDENTIFIER, msg_function_name()) {
        Ok((name, p)) => match consume(t, p, TokenType::LEFT_PAREN, msg_function_open()) {
            Ok((_, p2)) => {
                let list = if check(t, p2, TokenType::RIGHT_PAREN) {
                    Ok((Seq::empty(), p2))
                } else {
                    parameters(t, p2, Seq::empty())
                };
                match list {
                    Ok((params, p3)) => match consume(
                        t,
                        p3,
                        TokenType::RIGHT_PAREN,
                        msg_parameters_close(),
                    ) {
                        Ok((_, p4)) => match consume(
                            t,
                            p4,
                            TokenType::LEFT_BRACE,
                            msg_function_body(),
                        ) {
                            Ok((_, p5)) => if !ahead(t, pos, p5) {
                                Err((syntax_error(msg_stuck()), p5))
                            } else {
                                match block(t, base, p5, Seq::empty()) {
                                    Ok((body, p6)) => Ok(
                                        (StmtView::Function { name, params, body }, p6),
                                    ),
                                    Err(m) => Err(m),
                                }
                            },
                            Err(m) => Err(m),
                        },
                        Err(m) => Err(m),
                    },
                    Err(m) => Err(m),
                }
            },
            Err(m) => Err(m),
        },
        Err(m) => Err(m),
    }
}

/// The statements of a block from `pos` on, behind those already read, up
/// to the `}` that closes the block.
pub open spec fn block(t: Seq<TokenView>, base: int, pos: int, read: Seq<StmtView>) -> Parse<
    Seq<StmtView>,
>
    decreases t.len() - pos, 75nat,
    when well_formed(t) && 0 <= pos < t.len()
{
    if !check(t, pos, TokenType::RIGHT_BRACE) && !at_end(t, pos) {
        match recovering(t, base, pos) {
            Ok((s, p)) => if ahead(t, pos, p) {
                block(t, base, p, read.push(s))
            } else {
                Err((syntax_error(msg_stuck()), p))
            },
            Err(m) => Err(m),
        }
    } else {
        match consume(t, pos, TokenType::RIGHT_BRACE, msg_block_close()) {
            Ok((_, p)) => Ok((read, p)),
            Err(m) => Err(m),
        }
    }
}

/// A statement.
pub open spec fn statement(t: Seq<TokenView>, base: int, pos: int) -> Parse<StmtView>
    decreases t.len() - pos, 60nat,
    when well_formed(t) && 0 <= pos < t.len()
{
    if check(t, pos, TokenType::IF) {
        if_statement(t, base, pos + 1)
    } else if check(t, pos, TokenType::RETURN) {
        return_statement(t, base, pos + 1)
    } else if check(t, pos, TokenType::FOR) {
        for_statement(t, base, pos + 1)
    } else if check(t, pos, TokenType::WHILE) {
        while_statement(t, base, pos + 1)
    } else if check(t, pos, TokenType::PRINT) {
        print_statement(t, base, pos + 1)
    } else if check(t, pos, TokenType::LEFT_BRACE) {
        match block(t, base, pos + 1, Seq::empty()) {
            Ok((statements, p)) => Ok((StmtView::Block { statements }, p)),
            Err(m) => Err(m),
        }
    } else {
        expression_statement(t, base, pos)
    }
}

/// A declaration of a variable or of a function, or a statement.
pub open spec fn declaration(t: Seq<TokenView>, base: int, pos: int) -> Parse<StmtView>
    decreases t.len() - pos, 70nat,
    when well_formed(t) && 0 <= pos < t.len()
{
    if check(t, pos, TokenType::VAR) {
        var_declaration(t, base, pos + 1)
    } else if check(t, pos, TokenType::FUN) {
        function(t, base, pos + 1)
    } else {
        statement(t, base, pos)
    }
}

/// A declaration; after an error, the parser goes on to where the next
/// statement may begin.
pub open spec fn recovering(t: Seq<TokenView>, base: int, pos: int) -> Parse<StmtView>
    decreases t.len() - pos, 71nat,
    when well_formed(t) && 0 <= pos < t.len()
{
    match declaration(t, base, pos) {
        Ok(read) => Ok(read),
        Err((e, p)) => Err((e, synchronize(t, p))),
    }
}

/// The declarations from `pos` up to the end of the list, behind those
/// already read.
pub open spec fn program(t: Seq<TokenView>, base: int, pos: int, read: Seq<StmtView>) -> Parse<
    Seq<StmtView>,
>
    decreases t.len() - pos, 80nat,
    when well_formed(t) && 0 <= pos < t.len()
{
    if at_end(t, pos) {
        Ok((read, pos))
    } else {
        match recovering(t, base, pos) {
            Ok((s, p)) => if ahead(t, pos, p) {
                program(t, base, p, read.push(s))
            } else {
                Err((syntax_error(msg_stuck()), p))
            },
            Err(m) => Err(m),
        }
    }
}

/// Whether a statement may begin with a token of this kind.
pub open spec fn begins_statement(kind: TokenType) -> bool {
    kind == TokenType::CLASS || kind == TokenType::FUN || kind == TokenType::VAR || kind
        == TokenType::FOR || kind == TokenType::IF || kind == TokenType::WHILE || kind
        == TokenType::PRINT || kind == TokenType::RETURN
}

/// The first place from `pos` on that lies at the end of the list, behind a
/// `;`, or before a token with which a statement may begin.
pub open spec fn next_statement(t: Seq<TokenView>, pos: int) -> int
    decreases t.len() - pos,
    when well_formed(t) && 0 < pos < t.len()
{
    if at_end(t, pos) || t[pos - 1].of_type == TokenType::SEMICOLON || begins_statement(
        t[pos].of_type,
    ) {
        pos
    } else {
        next_statement(t, pos + 1)
    }
}

/// The place at which the parser goes on after an error at `pos`: it
/// passes over one token and then looks for the next statement.
pub open spec fn synchronize(t: Seq<TokenView>, pos: int) -> int {
    if at_end(t, pos) {
        next_statement(t, pos)
    } else {
        next_statement(t, pos + 1)
    }
}

} // verus!
