use crate::token::{Token, TokenView};
use vstd::prelude::*;
use vstd::string::StringExecFns;

verus! {

/// What can go wrong while a program is resolved or run.
#[derive(Debug, PartialEq, Eq)]
pub enum LoxError {
    /// A failure with its message.
    RuntimeError(String),
    /// A failure bound to a name: the name, then the message.
    BindingError(String, String),
}

/// The mathematical value of a [`LoxError`].
pub enum LoxErrorView {
    RuntimeError(Seq<char>),
    BindingError(Seq<char>, Seq<char>),
}

impl View for LoxError {
    type V = LoxErrorView;

    open spec fn view(&self) -> LoxErrorView {
        match self {
            LoxError::RuntimeError(m) => LoxErrorView::RuntimeError(m@),
            LoxError::BindingError(n, m) => LoxErrorView::BindingError(n@, m@),
        }
    }
}

/// The line that reports an error to the user.
pub open spec fn error_text(e: LoxErrorView) -> Seq<char> {
    match e {
        LoxErrorView::RuntimeError(m) => "Runtime error: "@ + m,
        LoxErrorView::BindingError(n, m) => "Binding error for "@ + n + ": "@ + m,
    }
}

impl Clone for LoxError {
    fn clone(&self) -> (r: Self)
        ensures
            r == *self,
    {
        match self {
            LoxError::RuntimeError(m) => LoxError::RuntimeError(m.clone()),
            LoxError::BindingError(n, m) => LoxError::BindingError(n.clone(), m.clone()),
        }
    }
}

impl LoxError {
    /// A runtime error with the given message.
    pub fn runtime(message: &str) -> (e: Self)
        ensures
            e@ == LoxErrorView::RuntimeError(message@),
    {
        LoxError::RuntimeError(message.to_owned())
    }

    /// The line that reports the error to the user.
    pub fn to_string(&self) -> (s: String)
        ensures
            s@ == error_text(self@),
    {
        match self {
            LoxError::RuntimeError(m) => {
                let mut s = "Runtime error: ".to_owned();
                s.append(m.as_str());
                s
            },
            LoxError::BindingError(n, m) => {
                let mut s = "Binding error for ".to_owned();
                s.append(n.as_str());
                s.append(": ");
                s.append(m.as_str());
                s
            },
        }
    }
}

/// A failure of the parser at a token.
#[derive(Debug, PartialEq, Eq)]
pub enum ParseError {
    SyntaxError(Token, String),
}

/// The mathematical value of a [`ParseError`].
pub enum ParseErrorView {
    SyntaxError(TokenView, Seq<char>),
}

impl View for ParseError {
    type V = ParseErrorView;

    open spec fn view(&self) -> ParseErrorView {
        match self {
            ParseError::SyntaxError(t, m) => ParseErrorView::SyntaxError(t@, m@),
        }
    }
}

} // verus!
