//! A tree-walking interpreter for the Lox scripting language.

pub mod environment;
pub mod expression;
pub mod filing;
pub mod grammar;
pub mod interpreter;
pub mod invariants;
pub mod laws;
pub mod literal;
pub mod lox;
pub mod lox_class;
pub mod lox_error;
pub mod natives;
pub mod numbering;
pub mod numeral;
pub mod object;
pub mod parser;
pub mod resolver;
pub mod safety;
pub mod scanner;
pub mod semantics;
pub mod shape;
pub mod soundness;
pub mod statement;
pub mod table;
pub mod token;
pub mod token_type;
