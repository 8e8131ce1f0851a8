//! A verified arithmetic-expression evaluator.
//!
//! A line of text is lexed into tokens, parsed by recursive descent into an
//! abstract syntax tree, compiled into a linear bytecode sequence, and run on
//! a stack-based virtual machine with implicit integer/float type promotion.
//!
//! Floating-point values are carried as IEEE-754 bit patterns; the machine
//! pauses with an explicit request whenever a floating-point computation is
//! needed, and the (unverified) driver answers it with the computed bits.

pub mod token;
pub mod lexer;
pub mod ast;
pub mod parser;
pub mod bytecode;
pub mod compiler;
pub mod laws;
pub mod printer;
pub mod vm;
