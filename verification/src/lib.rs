//! A single-pass bytecode compiler and a stack-based virtual machine for a
//! small dynamically typed scripting language.
//!
//! Source text is scanned into tokens, compiled by a precedence-climbing
//! parser straight into bytecode, and executed by a virtual machine with call
//! frames, closures and a table of globals.
//!
//! Numbers are IEEE 754 double-precision values, held as their 64-bit
//! patterns. The library compares and negates them itself; it takes the
//! conversion from text, the four arithmetic operations and the rendering as
//! functions from its caller.

use vstd::prelude::*;

pub mod text;
pub mod number;
pub mod token;
pub mod source;
pub mod scanner;
pub mod value;
pub mod chunk;
pub mod scopes;
pub mod compiler;
pub mod grammar;
pub mod parser;
pub mod semantics;
pub mod inspector;
pub mod vm;
pub mod laws;
pub mod layout;
pub mod render;
pub mod disassembly;

pub use chunk::Chunk;
pub use parser::Parser;
pub use scanner::Scanner;
pub use vm::VM;
pub use vm::interpret;
pub use inspector::Inspector;
