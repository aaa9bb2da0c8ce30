//! A small stack-oriented language: a loader that resolves source text into
//! an instruction stream with its tables, and an engine that runs the
//! stream over an operand stack, a return stack and a memory arena.
//!
//! The library touches nothing outside itself. A driver hands the loader
//! the bytes of a source ([`loader::Loader::supply`]); where the source
//! includes another, the loader asks for it by its path, and goes on when
//! it is handed those bytes. The driver then steps the engine
//! ([`interpreter::Interpreter::run`]), and does what a step asks for: it
//! prints a line, reads from a descriptor or writes to one.
//!
//! What loading and running mean is stated over mathematical values in
//! [`loading`] and [`semantics`]; the executable code is proved to do just
//! that.

use vstd::prelude::*;

pub mod fault;
pub mod interpreter;
pub mod lexer;
pub mod loader;
pub mod loading;
pub mod memory;
pub mod program;
pub mod semantics;
pub mod text;
pub mod words;

verus! {

/// Options of a run.
#[derive(Debug, Clone, Copy)]
pub struct Args {
    /// In debug mode the engine yields after every instruction, so that the
    /// driver can log the pointer and the instruction about to be dispatched.
    pub debug: bool,
}

} // verus!
