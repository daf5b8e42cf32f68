//! Core of an embeddable bytecode engine for a small scripting language: a value model, a
//! bytecode format with a framed serialization, a single-pass compiler from a syntax tree,
//! and a stack machine that runs one instruction per step.
pub mod bytecode;
pub mod compiler;
pub mod json;
pub mod lowering;
pub mod text;
pub mod value;
pub mod vm;

pub use bytecode::{BytecodeChunk, Instruction, OpCode};
pub use compiler::BytecodeCompiler;
pub use value::Value;
pub use vm::VirtualMachine;
