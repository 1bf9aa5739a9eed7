//! Lexical front end and bytecode model of a small scripting language.
//!
//! The scanner turns source text into tokens; the chunk model holds compiled
//! instructions with their constant pool; the disassembler renders a chunk as
//! a listing. Each executable function states in its contract what it returns
//! or changes, over the mathematical view of its data.

pub mod bytecode;
pub mod bytecode_interpreter;
pub mod grammar;
pub mod scanner;
pub mod text;
