//! An arithmetic engine on exact rational numbers: a recursive-descent
//! evaluator for infix expressions, and a button-driven calculator session that
//! keeps a running value, a pending operation and a text trace of the keys.

pub mod engine;
pub mod exact;
pub mod parser;
pub mod rational;
pub mod render;

pub use engine::{Calculator, Function, Number};
pub use parser::{ParseError, parse_expression};
pub use rational::Rational;
