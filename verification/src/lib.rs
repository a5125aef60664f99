//! The code generator of a compiler for a small imperative language.
//!
//! A program is a list of procedures and a main block, given as a syntax
//! tree. The generator lays out the variables in memory, compiles the
//! commands of the main block into pseudo-instructions with relative jumps,
//! inlining every procedure call, and writes the pseudo-instructions out as
//! the text of an assembly program for a register machine, with every jump
//! resolved to the number of a line.
//!
//! What the generator gives for a program is stated by the functions of
//! `outcome`; the laws that hold of it are proved in `laws`, `closure`,
//! `layout` and `recursion`.
pub mod assembler;
pub mod ast;
pub mod blocks;
pub mod closure;
pub mod command;
pub mod condition;
pub mod context;
pub mod diagnostics;
pub mod error;
pub mod independence;
pub mod instruction;
pub mod laws;
pub mod layout;
pub mod memory;
pub mod names;
pub mod number;
pub mod outcome;
pub mod pas;
pub mod plain;
pub mod recursion;
pub mod rename;
pub mod text;
pub mod value;
