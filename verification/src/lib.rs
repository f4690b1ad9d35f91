//! An arithmetic-expression front end. Text made of numbers, parentheses and the
//! operators `+ - * /` is parsed into a tree, every operation of the tree is
//! given a numeric type, and the typed tree is evaluated to one number:
//! `evaluation::evaluate` does all three.
//!
//! Text is a slice of characters, and what a parsing step leaves unread is a
//! part of that slice: nothing is copied, and a failed step hands back the
//! very input that it was given, so that another step can be tried on it.
//!
//! Integers are computed here, in wrapping arithmetic. A single-precision
//! result is handed out in exact form, as a `parser::Float`: the operations on
//! the literals and integers that make it up, in the order in which they are
//! to be carried out. The rounding is left to whoever needs the rounded value.
//!
//! Every type has a mathematical model, its `deep_view`, and the contracts say
//! over these models, by spec functions, what each step returns. What follows
//! for the front end as a whole is proved in the modules `laws` (types, values
//! and limits), `climbing` (the shape of the tree), `soundness` (the literals
//! in a result) and `flat` (expressions without parentheses: the white space
//! between their tokens, and their tree).

pub mod climbing;
pub mod combinators;
pub mod common;
pub mod error;
pub mod evaluation;
pub mod flat;
pub mod laws;
pub mod math;
pub mod parser;
pub mod soundness;
mod text;
pub mod typechecking;
