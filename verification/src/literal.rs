use crate::numeral::{decimal, number_to_string};
use vstd::prelude::*;

verus! {

/// A constant written in the source text.
#[derive(Debug, PartialEq, Eq, Hash)]
pub enum Literal {
    String(String),
    Number(i32),
    Nil,
    Boolean(bool),
}

/// The mathematical value of a [`Literal`].
pub enum LiteralView {
    String(Seq<char>),
    Number(i32),
    Nil,
    Boolean(bool),
}

impl View for Literal {
    type V = LiteralView;

    open spec fn view(&self) -> LiteralView {
        match self {
            Literal::String(s) => LiteralView::String(s@),
            Literal::Number(n) => LiteralView::Number(*n),
            Literal::Nil => LiteralView::Nil,
            Literal::Boolean(b) => LiteralView::Boolean(*b),
        }
    }
}

impl Clone for Literal {
    fn clone(&self) -> (r: Self)
        ensures
            r == *self,
    {
        match self {
            Literal::String(s) => Literal::String(s.clone()),
            Literal::Number(n) => Literal::Number(*n),
            Literal::Nil => Literal::Nil,
            Literal::Boolean(b) => Literal::Boolean(*b),
        }
    }
}

/// The text that stands for a literal when it is printed.
pub open spec fn literal_text(l: LiteralView) -> Seq<char> {
    match l {
        LiteralView::String(s) => s,
        LiteralView::Number(n) => decimal(n as int),
        LiteralView::Nil => "nil"@,
        LiteralView::Boolean(b) => if b {
            "true"@
        } else {
            "false"@
        },
    }
}

impl Literal {
    /// The printed form of the literal.
    pub fn to_string(&self) -> (s: String)
        ensures
            s@ == literal_text(self@),
    {
        match self {
            Literal::String(s) => s.clone(),
            Literal::Number(n) => number_to_string(*n),
            Literal::Nil => "nil".to_owned(),
            Literal::Boolean(b) => if *b {
                "true".to_owned()
            } else {
                "false".to_owned()
            },
        }
    }
}

} // verus!
