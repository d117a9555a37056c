//! The vocabulary of the language: values, instructions and errors.

use vstd::prelude::*;

verus! {

/// What the stack holds.
pub type Value = i32;

/// What evaluating a line returns.
pub type ForthResult = Result<(), Error>;

/// The ways in which a line can fail.
#[derive(Debug, PartialEq, Eq, Clone, Copy, Structural)]
pub enum Error {
    /// A division whose divisor is zero.
    DivisionByZero,
    /// A word found fewer values on the stack than it takes.
    StackUnderflow,
    /// A token that is neither a number nor a defined word.
    UnknownWord,
    /// A malformed definition.
    InvalidWord,
}

/// A word that takes two values and leaves one.
#[derive(Debug, PartialEq, Eq, Clone, Copy, Structural)]
pub enum ArithWord {
    Add,
    Sub,
    Mul,
    Div,
}

/// A word that rearranges the top of the stack.
#[derive(Debug, PartialEq, Eq, Clone, Copy, Structural)]
pub enum StackWord {
    Dup,
    Drop,
    Swap,
    Over,
}

/// The two marks that delimit a definition: `:` and `;`.
#[derive(Debug, PartialEq, Eq, Clone, Copy, Structural)]
pub enum Symbol {
    Colon,
    SemiColon,
}

/// Something the evaluator can carry out.
#[derive(Debug, PartialEq, Eq, Clone, Copy, Structural)]
pub enum Exec {
    Arith(ArithWord),
    Stack(StackWord),
    Value(Value),
}

/// What a token stands for once it is resolved.
#[derive(Debug, PartialEq, Eq, Clone, Copy, Structural)]
pub enum Item {
    Exec(Exec),
    Symbol(Symbol),
}

} // verus!
