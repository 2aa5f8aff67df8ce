//! The shape of what the parser reads: no declaration is the branch of an
//! `if` or the body of a loop.

use crate::expression::ExprView;
use crate::filing::{all_grammatical, grammatical};
use crate::grammar::{
    at_end, block, check, declaration, expression, expression_statement, for_loop,
    for_statement, function, if_statement, parameters, program, recovering, statement,
    var_declaration, while_statement, Parse,
};
use crate::literal::LiteralView;
use crate::lox_error::LoxErrorView;
use crate::numbering::{
    countable, lemma_declaration_spans, lemma_expression_spans,
    lemma_expression_statement_spans, lemma_parameters_end, lemma_statement_spans,
    lemma_var_declaration_spans,
};
use crate::soundness::plain;
use crate::statement::StmtView;
use crate::token::TokenView;
use crate::token_type::TokenType;
use vstd::prelude::*;

verus! {

/// A list of one or two statements of the shape has the shape.
pub proof fn lemma_short_lists_grammatical(a: StmtView, b: StmtView)
    requires
        grammatical(a),
        grammatical(b),
    ensures
        all_grammatical(seq![a]),
        all_grammatical(seq![a, b]),
{
    reveal_with_fuel(all_grammatical, 3);
}

/// The loop that a `for` statement stands for has the shape if its parts
/// have, and is no declaration.
pub proof fn lemma_for_loop_shape(
    initializer: Option<StmtView>,
    condition: Option<ExprView>,
    increment: Option<ExprView>,
    body: StmtView,
)
    requires
        plain(body),
        grammatical(body),
        initializer matches Some(i) ==> grammatical(i),
    ensures
        plain(for_loop(initializer, condition, increment, body)),
        grammatical(for_loop(initializer, condition, increment, body)),
{
    let stepped = match increment {
        Some(e) => StmtView::Block { statements: seq![body, StmtView::Expression { expression: e }] },
        None => body,
    };
    match increment {
        Some(e) => {
            lemma_short_lists_grammatical(body, StmtView::Expression { expression: e });
        },
        None => {},
    }
    let looped = StmtView::While {
        condition: match condition {
            Some(c) => c,
            None => ExprView::Literal { literal: LiteralView::Boolean(true) },
        },
        body: Box::new(stepped),
    };
    assert(grammatical(stepped));
    match initializer {
        Some(i) => {
            lemma_short_lists_grammatical(i, looped);
        },
        None => {},
    }
}

/// A statement that the parser reads is no declaration and has the shape.
#[verifier::rlimit(60)]
pub proof fn lemma_statement_shape(t: Seq<TokenView>, base: int, pos: int)
    requires
        countable(t, base),
        0 <= pos < t.len(),
    ensures
        statement(t, base, pos) matches Ok((s, p)) ==> plain(s) && grammatical(s),
    decreases t.len() - pos, 60nat,
{
    if check(t, pos, TokenType::IF) {
        lemma_if_statement_shape(t, base, pos + 1);
    } else if check(t, pos, TokenType::RETURN) {
    } else if check(t, pos, TokenType::FOR) {
        lemma_for_statement_shape(t, base, pos + 1);
    } else if check(t, pos, TokenType::WHILE) {
        lemma_while_statement_shape(t, base, pos + 1);
    } else if check(t, pos, TokenType::PRINT) {
    } else if check(t, pos, TokenType::LEFT_BRACE) {
        lemma_block_shape(t, base, pos + 1, Seq::empty());
    }
}

/// An `if` statement that the parser reads has the shape.
#[verifier::rlimit(60)]
pub proof fn lemma_if_statement_shape(t: Seq<TokenView>, base: int, pos: int)
    requires
        countable(t, base),
        0 <= pos < t.len(),
    ensures
        if_statement(t, base, pos) matches Ok((s, p)) ==> plain(s) && grammatical(s),
    decreases t.len() - pos, 50nat,
{
    if check(t, pos, TokenType::LEFT_PAREN) {
        lemma_expression_spans(t, base, pos + 1);
        match expression(t, base, pos + 1) {
            Ok((condition, p2)) => {
                if check(t, p2, TokenType::RIGHT_PAREN) {
                    lemma_statement_spans(t, base, p2 + 1);
                    lemma_statement_shape(t, base, p2 + 1);
                    match statement(t, base, p2 + 1) {
                        Ok((then_branch, p4)) => {
                            if check(t, p4, TokenType::ELSE) {
                                lemma_statement_shape(t, base, p4 + 1);
                            }
                        },
                        Err(_) => {},
                    }
                }
            },
            Err(_) => {},
        }
    }
}

/// A `while` statement that the parser reads has the shape.
#[verifier::rlimit(60)]
pub proof fn lemma_while_statement_shape(t: Seq<TokenView>, base: int, pos: int)
    requires
        countable(t, base),
        0 <= pos < t.len(),
    ensures
        while_statement(t, base, pos) matches Ok((s, p)) ==> plain(s) && grammatical(s),
    decreases t.len() - pos, 50nat,
{
    if check(t, pos, TokenType::LEFT_PAREN) {
        lemma_expression_spans(t, base, pos + 1);
        match expression(t, base, pos + 1) {
            Ok((condition, p2)) => {
                if check(t, p2, TokenType::RIGHT_PAREN) {
                    lemma_statement_shape(t, base, p2 + 1);
                }
            },
            Err(_) => {},
        }
    }
}

/// The loop that the parser reads for a `for` statement has the shape.
#[verifier::rlimit(60)]
pub proof fn lemma_for_statement_shape(t: Seq<TokenView>, base: int, pos: int)
    requires
        countable(t, base),
        0 <= pos < t.len(),
    ensures
        for_statement(t, base, pos) matches Ok((s, p)) ==> plain(s) && grammatical(s),
    decreases t.len() - pos, 50nat,
{
    if check(t, pos, TokenType::LEFT_PAREN) {
        let p = pos + 1;
        let first: Parse<Option<StmtView>> = if check(t, p, TokenType::SEMICOLON) {
            Ok((None, p + 1))
        } else if check(t, p, TokenType::VAR) {
            lemma_var_declaration_spans(t, base, p + 1);
            match var_declaration(t, base, p + 1) {
                Ok((s, q)) => Ok((Some(s), q)),
                Err(m) => Err(m),
            }
        } else {
            lemma_expression_statement_spans(t, base, p);
            match expression_statement(t, base, p) {
                Ok((s, q)) => Ok((Some(s), q)),
                Err(m) => Err(m),
            }
        };
        match first {
            Ok((initializer, p2)) => {
                let second: Parse<Option<ExprView>> = if check(t, p2, TokenType::SEMICOLON) {
                    Ok((None, p2))
                } else {
                    lemma_expression_spans(t, base, p2);
                    match expression(t, base, p2) {
                        Ok((e, q)) => Ok((Some(e), q)),
                        Err(m) => Err(m),
                    }
                };
                match second {
                    Ok((condition, p3)) => {
                        if check(t, p3, TokenType::SEMICOLON) {
                            let p4 = p3 + 1;
                            let third: Parse<Option<ExprView>> = if check(
                                t,
                                p4,
                                TokenType::RIGHT_PAREN,
                            ) {
                                Ok((None, p4))
                            } else {
                                lemma_expression_spans(t, base, p4);
                                match expression(t, base, p4) {
                                    Ok((e, q)) => Ok((Some(e), q)),
                                    Err(m) => Err(m),
                                }
                            };
                            match third {
                                Ok((increment, p5)) => {
                                    if check(t, p5, TokenType::RIGHT_PAREN) {
                                        lemma_statement_shape(t, base, p5 + 1);
                                        match statement(t, base, p5 + 1) {
                                            Ok((body, p7)) => {
                                                lemma_for_loop_shape(
                                                    initializer,
                                                    condition,
                                                    increment,
                                                    body,
                                                );
                                            },
                                            Err(_) => {},
                                        }
                                    }
                                },
                                Err(_) => {},
                            }
                        }
                    },
                    Err(_) => {},
                }
            },
            Err(_) => {},
        }
    }
}

/// The statements of a block that the parser reads have the shape.
#[verifier::rlimit(60)]
pub proof fn lemma_block_shape(t: Seq<TokenView>, base: int, pos: int, read: Seq<StmtView>)
    requires
        countable(t, base),
        0 <= pos < t.len(),
        all_grammatical(read),
    ensures
        block(t, base, pos, read) matches Ok((list, p)) ==> all_grammatical(list),
    decreases t.len() - pos, 75nat,
{
    if !check(t, pos, TokenType::RIGHT_BRACE) && !at_end(t, pos) {
        lemma_declaration_spans(t, base, pos);
        lemma_declaration_shape(t, base, pos);
        match declaration(t, base, pos) {
            Ok((s, p)) => {
                assert(recovering(t, base, pos) == Ok::<
                    (StmtView, int),
                    (LoxErrorView, int),
                >((s, p)));
                let more = read.push(s);
                assert(more.drop_last() =~= read);
                lemma_block_shape(t, base, p, more);
            },
            Err(_) => {},
        }
    }
}

/// A function declaration that the parser reads has the shape.
#[verifier::rlimit(60)]
pub proof fn lemma_function_shape(t: Seq<TokenView>, base: int, pos: int)
    requires
        countable(t, base),
        0 <= pos < t.len(),
    ensures
        function(t, base, pos) matches Ok((s, p)) ==> grammatical(s),
    decreases t.len() - pos, 50nat,
{
    if check(t, pos, TokenType::IDENTIFIER) && check(t, pos + 1, TokenType::LEFT_PAREN) {
        let p2 = pos + 2;
        let list: Parse<Seq<TokenView>> = if check(t, p2, TokenType::RIGHT_PAREN) {
            Ok((Seq::empty(), p2))
        } else {
            lemma_parameters_end(t, p2, Seq::empty());
            parameters(t, p2, Seq::empty())
        };
        match list {
            Ok((params, p3)) => {
                if check(t, p3, TokenType::RIGHT_PAREN) && check(t, p3 + 1, TokenType::LEFT_BRACE) {
                    lemma_block_shape(t, base, p3 + 2, Seq::empty());
                }
            },
            Err(_) => {},
        }
    }
}

/// A declaration that the parser reads has the shape.
#[verifier::rlimit(60)]
pub proof fn lemma_declaration_shape(t: Seq<TokenView>, base: int, pos: int)
    requires
        countable(t, base),
        0 <= pos < t.len(),
    ensures
        declaration(t, base, pos) matches Ok((s, p)) ==> grammatical(s),
    decreases t.len() - pos, 70nat,
{
    if check(t, pos, TokenType::VAR) {
    } else if check(t, pos, TokenType::FUN) {
        lemma_function_shape(t, base, pos + 1);
    } else {
        lemma_statement_shape(t, base, pos);
    }
}

/// The declarations of a program that the parser reads have the shape.
#[verifier::rlimit(60)]
pub proof fn lemma_program_shape(t: Seq<TokenView>, base: int, pos: int, read: Seq<StmtView>)
    requires
        countable(t, base),
        0 <= pos < t.len(),
        all_grammatical(read),
    ensures
        program(t, base, pos, read) matches Ok((list, p)) ==> all_grammatical(list),
    decreases t.len() - pos, 80nat,
{
    if !at_end(t, pos) {
        lemma_declaration_spans(t, base, pos);
        lemma_declaration_shape(t, base, pos);
        match declaration(t, base, pos) {
            Ok((s, p)) => {
                let more = read.push(s);
                assert(more.drop_last() =~= read);
                lemma_program_shape(t, base, p, more);
            },
            Err(_) => {},
        }
    }
}

} // verus!
