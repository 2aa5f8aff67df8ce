use crate::expression::{expr_view, exprs_view, lemma_call_view, Expr, ExprView};
use crate::grammar::{at_end, check, combine, level_operators, matches_any, well_formed, Parse};
use crate::literal::Literal;
use crate::lox_error::{LoxError, LoxErrorView};
use crate::statement::{lemma_list_views, stmt_view, stmts_view, Statement, StmtView};
use crate::token::{tokens_view, Token, TokenView};
use crate::token_type::TokenType;
use vstd::prelude::*;

verus! {

/// The parser: it reads a list of tokens from the place `current` on.
///
/// A variable node gets as its number the place of its name in the list,
/// counted from `first_id`, so that the nodes of one list differ.
#[derive(PartialEq, Debug)]
pub struct Parser {
    pub tokens: Vec<Token>,
    pub current: usize,
    pub first_id: usize,
}

/// What a call of the parser yielded: the expression with the place that
/// the parser has reached, or the message of the error.
pub open spec fn expr_outcome(r: Result<Box<Expr>, LoxError>, reached: usize) -> Parse<ExprView> {
    match r {
        Ok(e) => Ok((expr_view(*e), reached as int)),
        Err(e) => Err((e@, reached as int)),
    }
}

/// What a call of the parser yielded: the statement with the place that
/// the parser has reached, or the message of the error.
pub open spec fn stmt_outcome(r: Result<Box<Statement>, LoxError>, reached: usize) -> Parse<
    StmtView,
> {
    match r {
        Ok(s) => Ok((stmt_view(*s), reached as int)),
        Err(e) => Err((e@, reached as int)),
    }
}

/// What a call of the parser yielded: the statements with the place that
/// the parser has reached, or the message of the error.
pub open spec fn stmts_outcome(r: Result<Vec<Box<Statement>>, LoxError>, reached: usize) -> Parse<
    Seq<StmtView>,
> {
    match r {
        Ok(list) => Ok((stmts_view(list@), reached as int)),
        Err(e) => Err((e@, reached as int)),
    }
}

/// An error of the parser with the given message.
pub fn syntax_error<T>(message: &str) -> (r: Result<T, LoxError>)
    ensures
        r matches Err(e) && e@ == LoxErrorView::RuntimeError(message@),
{
    Err(LoxError::runtime(message))
}

impl Parser {
    /// The tokens, as the grammar sees them.
    pub open spec fn view(&self) -> Seq<TokenView> {
        tokens_view(self.tokens@)
    }

    /// The list ends with the token that marks the end, the parser stands
    /// within it, and the number of every node fits the machine.
    pub open spec fn wf(&self) -> bool {
        &&& well_formed(self@)
        &&& self.current < self.tokens@.len()
        &&& self.first_id + self.tokens@.len() <= usize::MAX
    }

    /// The parser reads the same list as `before` and has not gone back.
    pub open spec fn follows(&self, before: &Parser) -> bool {
        &&& self.wf()
        &&& self.tokens == before.tokens
        &&& self.first_id == before.first_id
        &&& before.current <= self.current
    }

    /// A parser at the start of `tokens`, which numbers its nodes from 0.
    pub fn new(tokens: Vec<Token>) -> (r: Self)
        requires
            well_formed(tokens_view(tokens@)),
        ensures
            r.wf(),
            r.tokens == tokens,
            r.current == 0,
            r.first_id == 0,
    {
        let count = tokens.len();
        assert(count == tokens@.len());
        Self { tokens, current: 0, first_id: 0 }
    }

    /// A parser at the start of `tokens`, which numbers its nodes from
    /// `first_id`.
    pub fn numbered_from(tokens: Vec<Token>, first_id: usize) -> (r: Self)
        requires
            well_formed(tokens_view(tokens@)),
            first_id + tokens@.len() <= usize::MAX,
        ensures
            r.wf(),
            r.tokens == tokens,
            r.current == 0,
            r.first_id == first_id,
    {
        Self { tokens, current: 0, first_id }
    }

    /// Reads the next token if it is of one of the kinds, and tells whether
    /// it was.
    pub fn if_match(&mut self, token_types: &[TokenType]) -> (b: bool)
        requires
            old(self).wf(),
        ensures
            final(self).follows(old(self)),
            b == matches_any(old(self)@, old(self).current as int, token_types@),
            final(self).current == if b {
                old(self).current + 1
            } else {
                old(self).current as int
            },
    {
        let mut i: usize = 0;
        while i < token_types.len()
            invariant
                i <= token_types@.len(),
                *self == *old(self),
                self.wf(),
                forall|j: int| 0 <= j < i ==> !check(self@, self.current as int, token_types@[j]),
            decreases token_types@.len() - i,
        {
            if self.check(&token_types[i]) {
                self.advance();
                return true;
            }
            i += 1;
        }
        false
    }

    /// The token that is read next.
    pub fn peek(&self) -> (t: &Token)
        requires
            self.wf(),
        ensures
            *t == self.tokens@[self.current as int],
    {
        &self.tokens[self.current]
    }

    /// Whether the next token marks the end.
    pub fn is_at_end(&self) -> (b: bool)
        requires
            self.wf(),
        ensures
            b == at_end(self@, self.current as int),
    {
        self.peek().of_type == TokenType::EOF
    }

    /// Whether the next token is of the kind `of_type` and does not mark the
    /// end.
    pub fn check(&self, of_type: &TokenType) -> (b: bool)
        requires
            self.wf(),
        ensures
            b == check(self@, self.current as int, *of_type),
    {
        if self.is_at_end() {
            return false;
        }
        self.peek().of_type == *of_type
    }

    /// Goes past the next token, unless it marks the end, and gives the token
    /// before the place reached.
    pub fn advance(&mut self) -> (t: Token)
        requires
            old(self).wf(),
            old(self).current > 0 || !at_end(old(self)@, old(self).current as int),
        ensures
            final(self).follows(old(self)),
            final(self).current == if at_end(old(self)@, old(self).current as int) {
                old(self).current as int
            } else {
                old(self).current + 1
            },
            t == final(self).tokens@[final(self).current - 1],
    {
        if !self.is_at_end() {
            self.current += 1;
        }
        self.previous()
    }

    /// The token before the next one.
    pub fn previous(&self) -> (t: Token)
        requires
            self.wf(),
            self.current > 0,
        ensures
            t == self.tokens@[self.current - 1],
    {
        self.tokens[self.current - 1].clone()
    }

    /// Reads the next token if it is of the kind `token_type`; fails with
    /// `message` if it is not.
    pub fn consume(&mut self, token_type: TokenType, message: String) -> (r: Result<Token, LoxError>)
        requires
            old(self).wf(),
        ensures
            final(self).follows(old(self)),
            match r {
                Ok(t) => crate::grammar::consume(
                    old(self)@,
                    old(self).current as int,
                    token_type,
                    message@,
                ) == Ok::<(TokenView, int), (LoxErrorView, int)>((t@, final(self).current as int))
                    && t == old(self).tokens@[old(self).current as int],
                Err(e) => e@ == LoxErrorView::RuntimeError(message@) && !check(
                    old(self)@,
                    old(self).current as int,
                    token_type,
                ) && final(self).current == old(self).current,
            },
    {
        if self.check(&token_type) {
            Ok(self.advance())
        } else {
            Err(LoxError::RuntimeError(message))
        }
    }
}


impl Parser {
    /// Reads operands joined by `or`.
    pub fn or(&mut self) -> (r: Result<Box<Expr>, LoxError>)
        requires
            old(self).wf(),
        ensures
            final(self).follows(old(self)),
            r is Ok ==> old(self).current < final(self).current,
            expr_outcome(r, final(self).current) == crate::grammar::binary(
                old(self)@,
                old(self).first_id as int,
                old(self).current as int,
                5,
            ),
        decreases old(self).tokens@.len() - old(self).current, 15nat,
    {
        self.level(5)
    }

    /// Reads an expression.
    pub fn parse_expression(&mut self) -> (r: Result<Box<Expr>, LoxError>)
        requires
            old(self).wf(),
        ensures
            final(self).follows(old(self)),
            r is Ok ==> old(self).current < final(self).current,
            expr_outcome(r, final(self).current) == crate::grammar::expression(
                old(self)@,
                old(self).first_id as int,
                old(self).current as int,
            ),
    {
        self.expression()
    }

    /// Reads operands joined by `and`.
    pub fn and(&mut self) -> (r: Result<Box<Expr>, LoxError>)
        requires
            old(self).wf(),
        ensures
            final(self).follows(old(self)),
            r is Ok ==> old(self).current < final(self).current,
            expr_outcome(r, final(self).current) == crate::grammar::binary(
                old(self)@,
                old(self).first_id as int,
                old(self).current as int,
                4,
            ),
        decreases old(self).tokens@.len() - old(self).current, 13nat,
    {
        self.level(4)
    }

    /// Reads an assignment, or an expression that is none.
    pub fn assignment(&mut self) -> (r: Result<Box<Expr>, LoxError>)
        requires
            old(self).wf(),
        ensures
            final(self).follows(old(self)),
            r is Ok ==> old(self).current < final(self).current,
            expr_outcome(r, final(self).current) == crate::grammar::assignment(
                old(self)@,
                old(self).first_id as int,
                old(self).current as int,
            ),
        decreases old(self).tokens@.len() - old(self).current, 20nat,
    {
        let expr = match self.or() {
            Ok(e) => e,
            Err(e) => {
                return Err(e);
            },
        };
        if self.if_match(&[TokenType::EQUAL]) {
            let _equals = self.previous();
            let value = match self.assignment() {
                Ok(e) => e,
                Err(e) => {
                    return Err(e);
                },
            };
            match *expr {
                Expr::Variable { name, id } => {
                    return Ok(Box::new(Expr::Assign { name, value, id }));
                },
                _ => {
                    return syntax_error("Invalid assignment target");
                },
            }
        }
        Ok(expr)
    }

    /// Reads an expression.
    pub fn expression(&mut self) -> (r: Result<Box<Expr>, LoxError>)
        requires
            old(self).wf(),
        ensures
            final(self).follows(old(self)),
            r is Ok ==> old(self).current < final(self).current,
            expr_outcome(r, final(self).current) == crate::grammar::expression(
                old(self)@,
                old(self).first_id as int,
                old(self).current as int,
            ),
        decreases old(self).tokens@.len() - old(self).current, 21nat,
    {
        self.assignment()
    }

    /// Reads operands joined by `==` and `!=`.
    pub fn equality(&mut self) -> (r: Result<Box<Expr>, LoxError>)
        requires
            old(self).wf(),
        ensures
            final(self).follows(old(self)),
            r is Ok ==> old(self).current < final(self).current,
            expr_outcome(r, final(self).current) == crate::grammar::binary(
                old(self)@,
                old(self).first_id as int,
                old(self).current as int,
                3,
            ),
        decreases old(self).tokens@.len() - old(self).current, 11nat,
    {
        self.level(3)
    }

    /// Reads operands joined by `<`, `<=`, `>` and `>=`.
    pub fn comparison(&mut self) -> (r: Result<Box<Expr>, LoxError>)
        requires
            old(self).wf(),
        ensures
            final(self).follows(old(self)),
            r is Ok ==> old(self).current < final(self).current,
            expr_outcome(r, final(self).current) == crate::grammar::binary(
                old(self)@,
                old(self).first_id as int,
                old(self).current as int,
                2,
            ),
        decreases old(self).tokens@.len() - old(self).current, 9nat,
    {
        self.level(2)
    }

    /// Reads operands joined by `*` and `/`.
    pub fn multiplication(&mut self) -> (r: Result<Box<Expr>, LoxError>)
        requires
            old(self).wf(),
        ensures
            final(self).follows(old(self)),
            r is Ok ==> old(self).current < final(self).current,
            expr_outcome(r, final(self).current) == crate::grammar::binary(
                old(self)@,
                old(self).first_id as int,
                old(self).current as int,
                0,
            ),
        decreases old(self).tokens@.len() - old(self).current, 5nat,
    {
        self.level(0)
    }

    /// Reads operands joined by `+` and `-`.
    pub fn addition(&mut self) -> (r: Result<Box<Expr>, LoxError>)
        requires
            old(self).wf(),
        ensures
            final(self).follows(old(self)),
            r is Ok ==> old(self).current < final(self).current,
            expr_outcome(r, final(self).current) == crate::grammar::binary(
                old(self)@,
                old(self).first_id as int,
                old(self).current as int,
                1,
            ),
        decreases old(self).tokens@.len() - old(self).current, 7nat,
    {
        self.level(1)
    }

    /// Reads the operator of a level, if one stands next.
    fn match_operator(&mut self, level: u8) -> (b: bool)
        requires
            old(self).wf(),
        ensures
            final(self).follows(old(self)),
            b == matches_any(old(self)@, old(self).current as int, level_operators(level as nat)),
            final(self).current == if b {
                old(self).current + 1
            } else {
                old(self).current as int
            },
    {
        if level == 0 {
            let kinds = [TokenType::SLASH, TokenType::STAR];
            assert(kinds@ =~= level_operators(0));
            self.if_match(&kinds)
        } else if level == 1 {
            let kinds = [TokenType::PLUS, TokenType::MINUS];
            assert(kinds@ =~= level_operators(1));
            self.if_match(&kinds)
        } else if level == 2 {
            let kinds = [
                TokenType::GREATER,
                TokenType::GREATER_EQUAL,
                TokenType::LESS,
                TokenType::LESS_EQUAL,
            ];
            assert(kinds@ =~= level_operators(2));
            self.if_match(&kinds)
        } else if level == 3 {
            let kinds = [TokenType::BANG_EQUAL, TokenType::EQUAL_EQUAL];
            assert(kinds@ =~= level_operators(3));
            self.if_match(&kinds)
        } else if level == 4 {
            let kinds = [TokenType::AND];
            assert(kinds@ =~= level_operators(4));
            self.if_match(&kinds)
        } else {
            let kinds = [TokenType::OR];
            assert(kinds@ =~= level_operators(level as nat));
            self.if_match(&kinds)
        }
    }

    /// The node that an operator of a level makes of its operands.
    fn combine(level: u8, before: Box<Expr>, operator: Token, after: Box<Expr>) -> (r: Box<Expr>)
        ensures
            expr_view(*r) == combine(level as nat, expr_view(*before), operator@, expr_view(*after)),
    {
        if level >= 4 {
            Box::new(Expr::Logical { left: before, operator, right: after })
        } else {
            Box::new(Expr::Binary { left: before, operator, right: after })
        }
    }

    /// Reads an operand of a level of binary expressions.
    fn operand(&mut self, level: u8) -> (r: Result<Box<Expr>, LoxError>)
        requires
            old(self).wf(),
            level <= 5,
        ensures
            final(self).follows(old(self)),
            r is Ok ==> old(self).current < final(self).current,
            expr_outcome(r, final(self).current) == crate::grammar::operand(
                old(self)@,
                old(self).first_id as int,
                old(self).current as int,
                level as nat,
            ),
        decreases old(self).tokens@.len() - old(self).current, 3 + 2 * level,
    {
        if level == 0 {
            self.unary()
        } else {
            self.level(level - 1)
        }
    }

    /// Reads a binary expression of a level.
    fn level(&mut self, level: u8) -> (r: Result<Box<Expr>, LoxError>)
        requires
            old(self).wf(),
            level <= 5,
        ensures
            final(self).follows(old(self)),
            r is Ok ==> old(self).current < final(self).current,
            expr_outcome(r, final(self).current) == crate::grammar::binary(
                old(self)@,
                old(self).first_id as int,
                old(self).current as int,
                level as nat,
            ),
        decreases old(self).tokens@.len() - old(self).current, 4 + 2 * level,
    {
        let ghost t = self@;
        let ghost base = self.first_id as int;
        let mut expr = match self.operand(level) {
            Ok(e) => e,
            Err(e) => {
                return Err(e);
            },
        };
        loop
            invariant
                level <= 5,
                t == old(self)@,
                base == old(self).first_id,
                self.follows(old(self)),
                old(self).current < self.current,
                crate::grammar::binary_rest(
                    t,
                    base,
                    self.current as int,
                    level as nat,
                    expr_view(*expr),
                ) == crate::grammar::binary(t, base, old(self).current as int, level as nat),
            ensures
                !matches_any(t, self.current as int, level_operators(level as nat)),
            decreases self.tokens@.len() - self.current,
        {
            if !self.match_operator(level) {
                break ;
            }
            let operator = self.previous();
            let right = match self.operand(level) {
                Ok(e) => e,
                Err(e) => {
                    return Err(e);
                },
            };
            expr = Self::combine(level, expr, operator, right);
        }
        Ok(expr)
    }

    /// Reads a unary expression: `!` or `-` before a unary expression, or a
    /// call.
    pub fn unary(&mut self) -> (r: Result<Box<Expr>, LoxError>)
        requires
            old(self).wf(),
        ensures
            final(self).follows(old(self)),
            r is Ok ==> old(self).current < final(self).current,
            expr_outcome(r, final(self).current) == crate::grammar::unary(
                old(self)@,
                old(self).first_id as int,
                old(self).current as int,
            ),
        decreases old(self).tokens@.len() - old(self).current, 2nat,
    {
        let kinds = [TokenType::BANG, TokenType::MINUS];
        assert(kinds@ =~= seq![TokenType::BANG, TokenType::MINUS]);
        if self.if_match(&kinds) {
            let operator = self.previous().clone();
            let right = match self.unary() {
                Ok(e) => e,
                Err(e) => {
                    return Err(e);
                },
            };
            return Ok(Box::new(Expr::Unary { operator, right }));
        }
        self.call()
    }

    /// Reads a primary expression and the calls that follow it.
    pub fn call(&mut self) -> (r: Result<Box<Expr>, LoxError>)
        requires
            old(self).wf(),
        ensures
            final(self).follows(old(self)),
            r is Ok ==> old(self).current < final(self).current,
            expr_outcome(r, final(self).current) == crate::grammar::call(
                old(self)@,
                old(self).first_id as int,
                old(self).current as int,
            ),
        decreases old(self).tokens@.len() - old(self).current, 1nat,
    {
        let ghost t = self@;
        let ghost base = self.first_id as int;
        let mut expr = match self.primary() {
            Ok(e) => e,
            Err(e) => {
                return Err(e);
            },
        };
        loop
            invariant
                t == old(self)@,
                base == old(self).first_id,
                self.follows(old(self)),
                old(self).current < self.current,
                crate::grammar::call_rest(t, base, self.current as int, expr_view(*expr))
                    == crate::grammar::call(t, base, old(self).current as int),
            ensures
                !check(t, self.current as int, TokenType::LEFT_PAREN),
            decreases self.tokens@.len() - self.current,
        {
            let kinds = [TokenType::LEFT_PAREN];
            assert(kinds@ =~= seq![TokenType::LEFT_PAREN]);
            if self.if_match(&kinds) {
                expr = match self.finish_call(expr) {
                    Ok(e) => e,
                    Err(e) => {
                        return Err(e);
                    },
                };
            } else {
                break ;
            }
        }
        Ok(expr)
    }

    /// Reads the arguments of a call of `callee`, whose opening bracket has
    /// been read, and the closing bracket.
    pub fn finish_call(&mut self, callee: Box<Expr>) -> (r: Result<Box<Expr>, LoxError>)
        requires
            old(self).wf(),
        ensures
            final(self).follows(old(self)),
            r is Ok ==> old(self).current < final(self).current,
            expr_outcome(r, final(self).current) == crate::grammar::finish_call(
                old(self)@,
                old(self).first_id as int,
                old(self).current as int,
                expr_view(*callee),
            ),
        decreases old(self).tokens@.len() - old(self).current, 30nat,
    {
        let ghost t = self@;
        let ghost base = self.first_id as int;
        let mut arguments: Vec<Box<Expr>> = Vec::new();
        assert(exprs_view(arguments@) =~= Seq::<ExprView>::empty());
        if !self.check(&TokenType::RIGHT_PAREN) {
            loop
                invariant_except_break
                    crate::grammar::arguments(t, base, self.current as int, exprs_view(arguments@))
                        == crate::grammar::arguments(
                        t,
                        base,
                        old(self).current as int,
                        Seq::empty(),
                    ),
                invariant
                    t == old(self)@,
                    base == old(self).first_id,
                    self.follows(old(self)),
                    !check(t, old(self).current as int, TokenType::RIGHT_PAREN),
                ensures
                    crate::grammar::arguments(t, base, old(self).current as int, Seq::empty())
                        == Ok::<(Seq<ExprView>, int), (LoxErrorView, int)>(
                        (exprs_view(arguments@), self.current as int),
                    ),
                decreases self.tokens@.len() - self.current,
            {
                if arguments.len() >= 255 {
                    return syntax_error("Argument size overpassed.");
                }
                let ghost read = exprs_view(arguments@);
                let argument = match self.expression() {
                    Ok(e) => e,
                    Err(e) => {
                        return Err(e);
                    },
                };
                arguments.push(argument);
                assert(exprs_view(arguments@) =~= read.push(expr_view(*argument)));
                let kinds = [TokenType::COMMA];
                assert(kinds@ =~= seq![TokenType::COMMA]);
                if !self.if_match(&kinds) {
                    break ;
                }
            }
        }
        let paren = match self.consume(
            TokenType::RIGHT_PAREN,
            "Expect \")\" after arguments.".to_owned(),
        ) {
            Ok(t) => t,
            Err(e) => {
                return Err(e);
            },
        };
        proof {
            lemma_call_view(callee, paren, arguments);
        }
        Ok(Box::new(Expr::Call { callee, paren, arguments }))
    }

    /// Reads a literal, a name, or an expression in brackets.
    pub fn primary(&mut self) -> (r: Result<Box<Expr>, LoxError>)
        requires
            old(self).wf(),
        ensures
            final(self).follows(old(self)),
            r is Ok ==> old(self).current < final(self).current,
            expr_outcome(r, final(self).current) == crate::grammar::primary(
                old(self)@,
                old(self).first_id as int,
                old(self).current as int,
            ),
        decreases old(self).tokens@.len() - old(self).current, 0nat,
    {
        let kinds = [TokenType::FALSE];
        assert(kinds@ =~= seq![TokenType::FALSE]);
        if self.if_match(&kinds) {
            return Ok(Box::new(Expr::Literal { literal: Literal::Boolean(false) }));
        }
        let kinds = [TokenType::TRUE];
        assert(kinds@ =~= seq![TokenType::TRUE]);
        if self.if_match(&kinds) {
            return Ok(Box::new(Expr::Literal { literal: Literal::Boolean(true) }));
        }
        let kinds = [TokenType::NIL];
        assert(kinds@ =~= seq![TokenType::NIL]);
        if self.if_match(&kinds) {
            return Ok(Box::new(Expr::Literal { literal: Literal::Nil }));
        }
        let kinds = [TokenType::NUMBER, TokenType::STRING];
        assert(kinds@ =~= seq![TokenType::NUMBER, TokenType::STRING]);
        if self.if_match(&kinds) {
            if let Some(l) = self.previous().clone().literal {
                return Ok(Box::new(Expr::Literal { literal: l }));
            }
            return syntax_error("Expected expression.");
        }
        let kinds = [TokenType::IDENTIFIER];
        assert(kinds@ =~= seq![TokenType::IDENTIFIER]);
        if self.if_match(&kinds) {
            return Ok(
                Box::new(
                    Expr::Variable {
                        name: self.previous().clone(),
                        id: self.first_id + (self.current - 1),
                    },
                ),
            );
        }
        let kinds = [TokenType::LEFT_PAREN];
        assert(kinds@ =~= seq![TokenType::LEFT_PAREN]);
        if self.if_match(&kinds) {
            let expr = match self.expression() {
                Ok(e) => e,
                Err(e) => {
                    return Err(e);
                },
            };
            match self.consume(TokenType::RIGHT_PAREN, "Expected ')'".to_owned()) {
                Ok(_) => {},
                Err(e) => {
                    return Err(e);
                },
            }
            return Ok(Box::new(Expr::Grouping { expression: expr }));
        }
        syntax_error("Expected expression.")
    }
}


impl Parser {
    /// Reads the declarations up to the end of the list.
    pub fn parse_statement(&mut self) -> (r: Result<Vec<Box<Statement>>, LoxError>)
        requires
            old(self).wf(),
        ensures
            final(self).follows(old(self)),
            stmts_outcome(r, final(self).current) == crate::grammar::program(
                old(self)@,
                old(self).first_id as int,
                old(self).current as int,
                Seq::empty(),
            ),
    {
        self.parse()
    }

    /// Reads a declaration of a variable or of a function, or a statement.
    pub fn _declaration(&mut self) -> (r: Result<Box<Statement>, LoxError>)
        requires
            old(self).wf(),
        ensures
            final(self).follows(old(self)),
            r is Ok ==> old(self).current < final(self).current,
            stmt_outcome(r, final(self).current) == crate::grammar::declaration(
                old(self)@,
                old(self).first_id as int,
                old(self).current as int,
            ),
        decreases old(self).tokens@.len() - old(self).current, 70nat,
    {
        let kinds = [TokenType::VAR];
        assert(kinds@ =~= seq![TokenType::VAR]);
        let funs = [TokenType::FUN];
        assert(funs@ =~= seq![TokenType::FUN]);
        if self.if_match(&kinds) {
            self.var_declaration()
        } else if self.if_match(&funs) {
            self.function("function")
        } else {
            self.statement()
        }
    }

    /// Reads a function, whose `fun` has been read.
    pub fn function(&mut self, _kind: &str) -> (r: Result<Box<Statement>, LoxError>)
        requires
            old(self).wf(),
        ensures
            final(self).follows(old(self)),
            r is Ok ==> old(self).current < final(self).current,
            stmt_outcome(r, final(self).current) == crate::grammar::function(
                old(self)@,
                old(self).first_id as int,
                old(self).current as int,
            ),
        decreases old(self).tokens@.len() - old(self).current, 50nat,
    {
        let ghost t = self@;
        let name = match self.consume(TokenType::IDENTIFIER, "Expect function name.".to_owned()) {
            Ok(t) => t,
            Err(e) => {
                return Err(e);
            },
        };
        match self.consume(TokenType::LEFT_PAREN, "Expect '( after function name".to_owned()) {
            Ok(_) => {},
            Err(e) => {
                return Err(e);
            },
        }
        let ghost opened = self.current;
        let mut parameters: Vec<Token> = Vec::new();
        assert(tokens_view(parameters@) =~= Seq::<TokenView>::empty());
        if !self.check(&TokenType::RIGHT_PAREN) {
            loop
                invariant_except_break
                    crate::grammar::parameters(t, self.current as int, tokens_view(parameters@))
                        == crate::grammar::parameters(t, opened as int, Seq::empty()),
                invariant
                    t == old(self)@,
                    self.follows(old(self)),
                    old(self).current < opened <= self.current,
                    opened == old(self).current + 2,
                    check(t, old(self).current as int, TokenType::IDENTIFIER),
                    check(t, old(self).current + 1, TokenType::LEFT_PAREN),
                    !check(t, opened as int, TokenType::RIGHT_PAREN),
                ensures
                    crate::grammar::parameters(t, opened as int, Seq::empty()) == Ok::<
                        (Seq<TokenView>, int),
                        (LoxErrorView, int),
                    >((tokens_view(parameters@), self.current as int)),
                decreases self.tokens@.len() - self.current,
            {
                if parameters.len() >= 255 {
                    return syntax_error("Parameter size overpassed.");
                }
                let ghost read = tokens_view(parameters@);
                let parameter = match self.consume(
                    TokenType::IDENTIFIER,
                    "Expect parameter name".to_owned(),
                ) {
                    Ok(t) => t,
                    Err(e) => {
                        return Err(e);
                    },
                };
                parameters.push(parameter);
                assert(tokens_view(parameters@) =~= read.push(parameter@));
                let kinds = [TokenType::COMMA];
                assert(kinds@ =~= seq![TokenType::COMMA]);
                if !self.if_match(&kinds) {
                    break ;
                }
            }
        }
        match self.consume(TokenType::RIGHT_PAREN, "Expect ')' after parameters".to_owned()) {
            Ok(_) => {},
            Err(e) => {
                return Err(e);
            },
        }
        match self.consume(TokenType::LEFT_BRACE, "Expect '{' before function body".to_owned()) {
            Ok(_) => {},
            Err(e) => {
                return Err(e);
            },
        }
        let body = match self.block() {
            Ok(b) => b,
            Err(e) => {
                return Err(e);
            },
        };
        let r = Box::new(Statement::Function { name, params: parameters, body });
        proof {
            lemma_list_views(*r);
        }
        return Ok(r);
    }

    /// Reads a declaration; after an error, goes on to where the next
    /// statement may begin.
    fn declaration(&mut self) -> (r: Result<Box<Statement>, LoxError>)
        requires
            old(self).wf(),
            !at_end(old(self)@, old(self).current as int),
        ensures
            final(self).follows(old(self)),
            r is Ok ==> old(self).current < final(self).current,
            stmt_outcome(r, final(self).current) == crate::grammar::recovering(
                old(self)@,
                old(self).first_id as int,
                old(self).current as int,
            ),
        decreases old(self).tokens@.len() - old(self).current, 71nat,
    {
        match self._declaration() {
            Ok(r) => Ok(r),
            Err(e) => {
                self.synchronize();
                Err(e)
            },
        }
    }

    /// Reads a variable declaration, whose `var` has been read.
    pub fn var_declaration(&mut self) -> (r: Result<Box<Statement>, LoxError>)
        requires
            old(self).wf(),
        ensures
            final(self).follows(old(self)),
            r is Ok ==> old(self).current < final(self).current,
            stmt_outcome(r, final(self).current) == crate::grammar::var_declaration(
                old(self)@,
                old(self).first_id as int,
                old(self).current as int,
            ),
        decreases old(self).tokens@.len() - old(self).current, 45nat,
    {
        let name = match self.consume(TokenType::IDENTIFIER, "Expect variable name.".to_owned()) {
            Ok(t) => t,
            Err(e) => {
                return Err(e);
            },
        };
        let mut initializer: Option<Box<Expr>> = None;
        let kinds = [TokenType::EQUAL];
        assert(kinds@ =~= seq![TokenType::EQUAL]);
        if self.if_match(&kinds) {
            initializer = Some(
                match self.expression() {
                    Ok(e) => e,
                    Err(e) => {
                        return Err(e);
                    },
                },
            );
        }
        match self.consume(
            TokenType::SEMICOLON,
            "Expect ';' after variable declaration".to_owned(),
        ) {
            Ok(_) => {},
            Err(e) => {
                return Err(e);
            },
        }
        Ok(Box::new(Statement::Variable { name, initializer }))
    }

    /// Reads a `print` statement, whose `print` has been read.
    pub fn print_statement(&mut self) -> (r: Result<Box<Statement>, LoxError>)
        requires
            old(self).wf(),
        ensures
            final(self).follows(old(self)),
            r is Ok ==> old(self).current < final(self).current,
            stmt_outcome(r, final(self).current) == crate::grammar::print_statement(
                old(self)@,
                old(self).first_id as int,
                old(self).current as int,
            ),
        decreases old(self).tokens@.len() - old(self).current, 40nat,
    {
        let value = match self.expression() {
            Ok(e) => e,
            Err(e) => {
                return Err(e);
            },
        };
        match self.consume(TokenType::SEMICOLON, "Expect ';' after value.".to_owned()) {
            Ok(_) => {},
            Err(e) => {
                return Err(e);
            },
        }
        return Ok(Box::new(Statement::Print { expression: value }));
    }

    /// Reads a `while` statement, whose `while` has been read.
    pub fn while_statement(&mut self) -> (r: Result<Box<Statement>, LoxError>)
        requires
            old(self).wf(),
        ensures
            final(self).follows(old(self)),
            r is Ok ==> old(self).current < final(self).current,
            stmt_outcome(r, final(self).current) == crate::grammar::while_statement(
                old(self)@,
                old(self).first_id as int,
                old(self).current as int,
            ),
        decreases old(self).tokens@.len() - old(self).current, 50nat,
    {
        match self.consume(TokenType::LEFT_PAREN, "Expect ( after while statement".to_owned()) {
            Ok(_) => {},
            Err(e) => {
                return Err(e);
            },
        }
        let condition = match self.expression() {
            Ok(e) => e,
            Err(e) => {
                return Err(e);
            },
        };
        match self.consume(TokenType::RIGHT_PAREN, "Expect ) after condition".to_owned()) {
            Ok(_) => {},
            Err(e) => {
                return Err(e);
            },
        }
        let body = match self.statement() {
            Ok(s) => s,
            Err(e) => {
                return Err(e);
            },
        };
        return Ok(Box::new(Statement::While { condition, body }));
    }

    /// Reads a `for` statement, whose `for` has been read, as the loop that
    /// it stands for.
    pub fn for_statement(&mut self) -> (r: Result<Box<Statement>, LoxError>)
        requires
            old(self).wf(),
        ensures
            final(self).follows(old(self)),
            r is Ok ==> old(self).current < final(self).current,
            stmt_outcome(r, final(self).current) == crate::grammar::for_statement(
                old(self)@,
                old(self).first_id as int,
                old(self).current as int,
            ),
        decreases old(self).tokens@.len() - old(self).current, 50nat,
    {
        match self.consume(TokenType::LEFT_PAREN, "Expect ( for .".to_owned()) {
            Ok(_) => {},
            Err(e) => {
                return Err(e);
            },
        }
        let mut initializer = None;
        let semicolons = [TokenType::SEMICOLON];
        assert(semicolons@ =~= seq![TokenType::SEMICOLON]);
        let vars = [TokenType::VAR];
        assert(vars@ =~= seq![TokenType::VAR]);
        if self.if_match(&semicolons) {
        } else if self.if_match(&vars) {
            initializer = Some(
                match self.var_declaration() {
                    Ok(s) => s,
                    Err(e) => {
                        return Err(e);
                    },
                },
            );
        } else {
            initializer = Some(
                match self.expression_statement() {
                    Ok(s) => s,
                    Err(e) => {
                        return Err(e);
                    },
                },
            );
        }
        let mut condition = None;
        if !self.check(&TokenType::SEMICOLON) {
            condition = Some(
                match self.expression() {
                    Ok(e) => e,
                    Err(e) => {
                        return Err(e);
                    },
                },
            );
        }
        match self.consume(TokenType::SEMICOLON, "Expect ; after loop condition".to_owned()) {
            Ok(_) => {},
            Err(e) => {
                return Err(e);
            },
        }
        let mut increment = None;
        if !self.check(&TokenType::RIGHT_PAREN) {
            increment = Some(
                match self.expression() {
                    Ok(e) => e,
                    Err(e) => {
                        return Err(e);
                    },
                },
            );
        }
        match self.consume(TokenType::RIGHT_PAREN, "Expect ) after for clauses.".to_owned()) {
            Ok(_) => {},
            Err(e) => {
                return Err(e);
            },
        }
        let body = match self.statement() {
            Ok(s) => s,
            Err(e) => {
                return Err(e);
            },
        };
        Ok(Self::for_loop(initializer, condition, increment, body))
    }

    /// The loop that a `for` statement stands for.
    fn for_loop(
        initializer: Option<Box<Statement>>,
        condition: Option<Box<Expr>>,
        increment: Option<Box<Expr>>,
        body: Box<Statement>,
    ) -> (r: Box<Statement>)
        ensures
            stmt_view(*r) == crate::grammar::for_loop(
                match initializer {
                    Some(s) => Some(stmt_view(*s)),
                    None => None,
                },
                match condition {
                    Some(e) => Some(expr_view(*e)),
                    None => None,
                },
                match increment {
                    Some(e) => Some(expr_view(*e)),
                    None => None,
                },
                stmt_view(*body),
            ),
    {
        let mut body = body;
        if let Some(increment) = increment {
            let ghost inner = stmt_view(*body);
            let mut statements: Vec<Box<Statement>> = Vec::new();
            statements.push(body);
            statements.push(Box::new(Statement::Expression { expression: increment }));
            body = Box::new(Statement::Block { statements });
            proof {
                lemma_list_views(*body);
                assert(stmts_view(statements@) =~= seq![
                    inner,
                    StmtView::Expression { expression: expr_view(*increment) },
                ]);
            }
        }
        if let Some(condition) = condition {
            body = Box::new(Statement::While { condition, body });
        } else {
            body = Box::new(
                Statement::While {
                    condition: Box::new(Expr::Literal { literal: Literal::Boolean(true) }),
                    body,
                },
            );
        }
        if let Some(initializer) = initializer {
            let ghost looped = stmt_view(*body);
            let mut statements: Vec<Box<Statement>> = Vec::new();
            statements.push(initializer);
            statements.push(body);
            body = Box::new(Statement::Block { statements });
            proof {
                lemma_list_views(*body);
                assert(stmts_view(statements@) =~= seq![stmt_view(*initializer), looped]);
            }
        }
        body
    }

    /// Reads a `return` statement, whose `return` has been read.
    pub fn return_statement(&mut self) -> (r: Result<Box<Statement>, LoxError>)
        requires
            old(self).wf(),
            old(self).current > 0,
        ensures
            final(self).follows(old(self)),
            r is Ok ==> old(self).current < final(self).current,
            stmt_outcome(r, final(self).current) == crate::grammar::return_statement(
                old(self)@,
                old(self).first_id as int,
                old(self).current as int,
            ),
        decreases old(self).tokens@.len() - old(self).current, 40nat,
    {
        let keyword = self.previous();
        let mut value = None;
        if !self.check(&TokenType::SEMICOLON) {
            value = Some(
                match self.expression() {
                    Ok(e) => e,
                    Err(e) => {
                        return Err(e);
                    },
                },
            );
        }
        match self.consume(TokenType::SEMICOLON, "Expect ';' after return value.".to_owned()) {
            Ok(_) => {},
            Err(e) => {
                return Err(e);
            },
        }
        Ok(Box::new(Statement::Return { keyword, value }))
    }

    /// Reads a statement.
    pub fn statement(&mut self) -> (r: Result<Box<Statement>, LoxError>)
        requires
            old(self).wf(),
        ensures
            final(self).follows(old(self)),
            r is Ok ==> old(self).current < final(self).current,
            stmt_outcome(r, final(self).current) == crate::grammar::statement(
                old(self)@,
                old(self).first_id as int,
                old(self).current as int,
            ),
        decreases old(self).tokens@.len() - old(self).current, 60nat,
    {
        let ifs = [TokenType::IF];
        assert(ifs@ =~= seq![TokenType::IF]);
        let leaves = [TokenType::RETURN];
        assert(leaves@ =~= seq![TokenType::RETURN]);
        let fors = [TokenType::FOR];
        assert(fors@ =~= seq![TokenType::FOR]);
        let whiles = [TokenType::WHILE];
        assert(whiles@ =~= seq![TokenType::WHILE]);
        let prints = [TokenType::PRINT];
        assert(prints@ =~= seq![TokenType::PRINT]);
        let braces = [TokenType::LEFT_BRACE];
        assert(braces@ =~= seq![TokenType::LEFT_BRACE]);
        if self.if_match(&ifs) {
            return self.if_statement();
        } else if self.if_match(&leaves) {
            return self.return_statement();
        } else if self.if_match(&fors) {
            let res = self.for_statement();
            res
        } else if self.if_match(&whiles) {
            let res = self.while_statement();
            res
        } else if self.if_match(&prints) {
            return self.print_statement();
        } else if self.if_match(&braces) {
            let statements = match self.block() {
                Ok(b) => b,
                Err(e) => {
                    return Err(e);
                },
            };
            let r = Box::new(Statement::Block { statements });
            proof {
                lemma_list_views(*r);
            }
            return Ok(r);
        } else {
            self.expression_statement()
        }
    }

    /// Reads an `if` statement, whose `if` has been read.
    pub fn if_statement(&mut self) -> (r: Result<Box<Statement>, LoxError>)
        requires
            old(self).wf(),
        ensures
            final(self).follows(old(self)),
            r is Ok ==> old(self).current < final(self).current,
            stmt_outcome(r, final(self).current) == crate::grammar::if_statement(
                old(self)@,
                old(self).first_id as int,
                old(self).current as int,
            ),
        decreases old(self).tokens@.len() - old(self).current, 50nat,
    {
        match self.consume(TokenType::LEFT_PAREN, "Expect '(' after 'if'.".to_owned()) {
            Ok(_) => {},
            Err(e) => {
                return Err(e);
            },
        }
        let condition = match self.expression() {
            Ok(e) => e,
            Err(e) => {
                return Err(e);
            },
        };
        match self.consume(TokenType::RIGHT_PAREN, "Expect ')' after 'if' condition.".to_owned()) {
            Ok(_) => {},
            Err(e) => {
                return Err(e);
            },
        }
        let then_branch = match self.statement() {
            Ok(s) => s,
            Err(e) => {
                return Err(e);
            },
        };
        let mut else_branch = None;
        let kinds = [TokenType::ELSE];
        assert(kinds@ =~= seq![TokenType::ELSE]);
        if self.if_match(&kinds) {
            else_branch = Some(
                match self.statement() {
                    Ok(s) => s,
                    Err(e) => {
                        return Err(e);
                    },
                },
            );
        }
        return Ok(Box::new(Statement::If { condition, then_branch, else_branch }));
    }

    /// Reads the statements of a block up to the `}` that closes it.
    pub fn block(&mut self) -> (r: Result<Vec<Box<Statement>>, LoxError>)
        requires
            old(self).wf(),
        ensures
            final(self).follows(old(self)),
            r is Ok ==> old(self).current < final(self).current,
            stmts_outcome(r, final(self).current) == crate::grammar::block(
                old(self)@,
                old(self).first_id as int,
                old(self).current as int,
                Seq::empty(),
            ),
        decreases old(self).tokens@.len() - old(self).current, 75nat,
    {
        let ghost t = self@;
        let ghost base = self.first_id as int;
        let mut statements: Vec<Box<Statement>> = Vec::new();
        assert(stmts_view(statements@) =~= Seq::<StmtView>::empty());
        while !self.check(&TokenType::RIGHT_BRACE) && !self.is_at_end()
            invariant
                t == old(self)@,
                base == old(self).first_id,
                self.follows(old(self)),
                crate::grammar::block(t, base, self.current as int, stmts_view(statements@))
                    == crate::grammar::block(t, base, old(self).current as int, Seq::empty()),
            decreases self.tokens@.len() - self.current,
        {
            let ghost read = stmts_view(statements@);
            let statement = match self.declaration() {
                Ok(s) => s,
                Err(e) => {
                    return Err(e);
                },
            };
            statements.push(statement);
            assert(stmts_view(statements@) =~= read.push(stmt_view(*statement)));
        }
        match self.consume(TokenType::RIGHT_BRACE, "Expect '}' after block.".to_owned()) {
            Ok(_) => {},
            Err(e) => {
                return Err(e);
            },
        }
        Ok(statements)
    }

    /// Reads an expression and the `;` behind it.
    pub fn expression_statement(&mut self) -> (r: Result<Box<Statement>, LoxError>)
        requires
            old(self).wf(),
        ensures
            final(self).follows(old(self)),
            r is Ok ==> old(self).current < final(self).current,
            stmt_outcome(r, final(self).current) == crate::grammar::expression_statement(
                old(self)@,
                old(self).first_id as int,
                old(self).current as int,
            ),
        decreases old(self).tokens@.len() - old(self).current, 40nat,
    {
        let expr = match self.expression() {
            Ok(e) => e,
            Err(e) => {
                return Err(e);
            },
        };
        match self.consume(TokenType::SEMICOLON, "Expect ';' after expression".to_owned()) {
            Ok(_) => {},
            Err(e) => {
                return Err(e);
            },
        }
        return Ok(Box::new(Statement::Expression { expression: expr }));
    }

    /// Reads the declarations up to the end of the list.
    pub fn parse(&mut self) -> (r: Result<Vec<Box<Statement>>, LoxError>)
        requires
            old(self).wf(),
        ensures
            final(self).follows(old(self)),
            stmts_outcome(r, final(self).current) == crate::grammar::program(
                old(self)@,
                old(self).first_id as int,
                old(self).current as int,
                Seq::empty(),
            ),
    {
        let ghost t = self@;
        let ghost base = self.first_id as int;
        let mut statements: Vec<Box<Statement>> = Vec::new();
        assert(stmts_view(statements@) =~= Seq::<StmtView>::empty());
        while !self.is_at_end()
            invariant
                t == old(self)@,
                base == old(self).first_id,
                self.follows(old(self)),
                crate::grammar::program(t, base, self.current as int, stmts_view(statements@))
                    == crate::grammar::program(t, base, old(self).current as int, Seq::empty()),
            decreases self.tokens@.len() - self.current,
        {
            let ghost read = stmts_view(statements@);
            let statement = match self.declaration() {
                Ok(s) => s,
                Err(e) => {
                    return Err(e);
                },
            };
            statements.push(statement);
            assert(stmts_view(statements@) =~= read.push(stmt_view(*statement)));
        }
        return Ok(statements);
    }

    /// Goes on, after an error, to where the next statement may begin.
    pub fn synchronize(&mut self)
        requires
            old(self).wf(),
            old(self).current > 0 || !at_end(old(self)@, old(self).current as int),
        ensures
            final(self).follows(old(self)),
            final(self).current == crate::grammar::synchronize(
                old(self)@,
                old(self).current as int,
            ),
    {
        self.advance();
        while !self.is_at_end()
            invariant
                self.follows(old(self)),
                self.current > 0,
                crate::grammar::next_statement(self@, self.current as int)
                    == crate::grammar::synchronize(old(self)@, old(self).current as int),
            decreases self.tokens@.len() - self.current,
        {
            if self.previous().of_type == TokenType::SEMICOLON {
                return ;
            }
            match self.peek().of_type {
                TokenType::CLASS
                | TokenType::FUN
                | TokenType::VAR
                | TokenType::FOR
                | TokenType::IF
                | TokenType::WHILE
                | TokenType::PRINT
                | TokenType::RETURN => {
                    return ;
                },
                _ => (),
            }
            self.advance();
        }
    }
}

} // verus!
