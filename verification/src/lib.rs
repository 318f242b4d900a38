//! The execution core of a stack-based bytecode virtual machine: chunks
//! of bytecode with their constants and line tables, a bounded operand
//! stack, and an interpreter with a structured trace.
//!
//! Values are double-precision numbers held as bit patterns. The
//! library moves them about and flips their sign; the four arithmetic
//! operations are handed to the interpreter by its caller.

pub mod chunk;
pub mod debug;
pub mod stack;
pub mod value;
pub mod vector;
pub mod vm;
