//! A small stack language: integer literals, arithmetic and stack words, and
//! colon definitions, evaluated line by line against one integer stack.
//!
//! Every executable function carries a contract over the mathematical model
//! in [`machine`], [`text`] and [`parse`], and is proved against it.

pub mod interpreter;
pub mod machine;
pub mod parse;
pub mod text;
pub mod words;

pub use interpreter::Forth;
pub use words::{Error, ForthResult, Value};
