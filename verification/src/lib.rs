//! Stack evaluation engine of a terminal reverse-Polish-notation
//! calculator.
//!
//! A submitted line of text is parsed into either a literal operand or a
//! named function call; a dispatcher applies the call against an explicit
//! operand stack.  Operands are binary64 scalars or rectangular matrices
//! of them, carried as raw bit patterns (see [`scalar`]); the terminal
//! itself (rendering, raw keystrokes) lives outside this crate and talks
//! to the engine only through plain values.

pub mod scalar;

pub mod errors;
pub mod literal;
pub mod operand;

pub mod arith;
pub mod dispatch;

pub mod parse;

pub mod render;

pub mod session;

pub mod terminal;
