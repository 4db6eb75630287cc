//! A single-pass bytecode compiler and stack-based virtual machine for an
//! arithmetic expression language: numeric literals, unary negation, the
//! binary operators `+ - * /`, and parenthesised grouping.
//!
//! Source text is scanned on demand, compiled by precedence climbing
//! directly into a [`chunk::Chunk`] of bytecode, and executed by a
//! fetch-decode-execute loop over an operand stack.

pub mod chunk;
pub mod compiler;
pub mod debug;
pub mod laws;
pub mod scanner;
pub mod value;
pub mod vm;
