//! A small engine for arithmetic formulas over streamed component values.
//!
//! A [`FormulaEngine`] is built once from a formula string such as
//! `MIN(0.0, COALESCE(#4 + #3, #2))` and then evaluated repeatedly against
//! maps from component id to optional value, with null-propagating
//! arithmetic: a missing value poisons the operators, while `COALESCE`,
//! `MIN` and `MAX` recover from it.

mod error;
mod expression;
mod formula_engine;
mod parser;
pub mod traits;

pub use error::FormulaError;
pub use expression::{Expr, ExprV, Function, Op};
pub use formula_engine::FormulaEngine;
pub use parser::Token;
