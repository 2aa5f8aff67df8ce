use crate::literal::{Literal, LiteralView};
use crate::token_type::TokenType;
use vstd::prelude::*;

verus! {

/// One lexeme of the source text, with its kind and the line it stands on.
#[derive(Debug, PartialEq, Eq, Hash)]
pub struct Token {
    pub of_type: TokenType,
    pub lexeme: String,
    pub literal: Option<Literal>,
    pub line: usize,
}

/// The mathematical value of a [`Token`].
pub struct TokenView {
    pub of_type: TokenType,
    pub lexeme: Seq<char>,
    pub literal: Option<LiteralView>,
    pub line: usize,
}

impl View for Token {
    type V = TokenView;

    open spec fn view(&self) -> TokenView {
        TokenView {
            of_type: self.of_type,
            lexeme: self.lexeme@,
            literal: match self.literal {
                Some(l) => Some(l@),
                None => None,
            },
            line: self.line,
        }
    }
}

/// The views of a sequence of tokens, in order.
pub open spec fn tokens_view(tokens: Seq<Token>) -> Seq<TokenView> {
    Seq::new(tokens.len(), |i: int| tokens[i]@)
}

impl Clone for Token {
    fn clone(&self) -> (r: Self)
        ensures
            r == *self,
    {
        Token {
            of_type: self.of_type,
            lexeme: self.lexeme.clone(),
            literal: match &self.literal {
                Some(l) => Some(l.clone()),
                None => None,
            },
            line: self.line,
        }
    }
}

impl Token {
    /// A token of the given kind, text, value and line.
    pub fn new(of_type: TokenType, lexeme: String, literal: Option<Literal>, line: usize) -> (t:
        Self)
        ensures
            t.of_type == of_type,
            t.lexeme == lexeme,
            t.literal == literal,
            t.line == line,
    {
        Self { of_type, lexeme, literal, line }
    }

    /// A copy of the text of the token.
    pub fn lexeme(&self) -> (s: String)
        ensures
            s == self.lexeme,
    {
        self.lexeme.clone()
    }
}

/// Copies a vector of tokens.
pub fn clone_tokens(tokens: &Vec<Token>) -> (r: Vec<Token>)
    ensures
        r@ == tokens@,
{
    let mut r: Vec<Token> = Vec::new();
    let mut i: usize = 0;
    while i < tokens.len()
        invariant
            i <= tokens.len(),
            r@ == tokens@.subrange(0, i as int),
        decreases tokens.len() - i,
    {
        r.push(tokens[i].clone());
        assert(r@ =~= tokens@.subrange(0, i + 1));
        i += 1;
    }
    assert(r@ =~= tokens@);
    r
}

} // verus!
