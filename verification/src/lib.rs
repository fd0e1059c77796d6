//! A small-language toolchain: a scanner, a single-pass compiler, a compact
//! bytecode container, and a stack-based virtual machine.
//!
//! Runtime values are IEEE-754 doubles; inside this library each one is
//! carried as its 64-bit pattern (see [`chunk::Value`]), and the caller
//! performs the floating-point arithmetic and formatting that the library
//! asks for.

pub mod chunk;
pub mod chunk_printer;
pub mod compiler;
pub mod scanner;
pub mod token;
pub mod token_type;
pub mod vm;
