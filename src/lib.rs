//! A scanner for a small scripting language and the bytecode chunk that its
//! virtual machine will run, with a disassembler for that chunk.

pub mod chunk;
pub mod scanner;
pub mod token;
