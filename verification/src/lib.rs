//! A compiler for a small expression subset of C: a lexer, a precedence-climbing
//! parser, lowering to a three-address intermediate representation, and a backend
//! that selects, allocates and legalizes x86-64 instructions, with every stage
//! verified against a mathematical model of what it produces.
//!
//! The modules `semantics`, `ir_semantics` and `machine` say what expressions,
//! the intermediate representation and the machine instructions mean, and
//! `correctness` proves that lowering and code generation keep the meaning.

pub mod ast;
pub mod codegen;
pub mod compiler;
pub mod correctness;
pub mod ir;
pub mod ir_gen;
pub mod ir_semantics;
pub mod lexer;
pub mod machine;
pub mod parser;
pub mod semantics;
pub mod text;
