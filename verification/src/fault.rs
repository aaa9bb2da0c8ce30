//! The ways in which loading or running a program fails.

use crate::lexer::Types;
use vstd::prelude::*;

verus! {

/// Why loading or running ended early. A step that fails leaves the state
/// as it was, so what was being read or dispatched is still at hand.
#[derive(Debug, PartialEq, Eq, Clone, Copy, Structural)]
pub enum Fault {
    /// An `end` stands where no block is open.
    UnexpectedEnd,
    /// A block has no `end`: a source ends with a block still open, or a
    /// false condition has no closed block to skip.
    UnclosedBlock,
    /// A source ends inside a string literal, a procedure header, the path
    /// of a `use` or the label of a `goto`.
    Unfinished,
    /// The program has no procedure `main`.
    MissingMain,
    /// No procedure is registered under the name.
    UnknownIdent,
    /// No label is registered under the word.
    UnknownLabel,
    /// A value on the stack has another tag than the instruction takes.
    TypeMismatch { expected: Types, actual: Types },
    /// The stack holds fewer values than the instruction takes.
    StackUnderflow,
    /// A read of more than 199 bytes was asked for.
    ReadTooLong,
    /// The write that the engine asked for failed.
    WriteFailed,
    DivisionByZero,
}

/// The four families of failure.
#[derive(Debug, PartialEq, Eq, Clone, Copy, Structural)]
pub enum FaultKind {
    /// The text of the program does not hold together.
    Lexical,
    /// A name stands for nothing.
    Link,
    /// The stack does not hold what an instruction takes.
    Type,
    /// The run itself went wrong.
    Runtime,
}

impl Fault {
    pub open spec fn spec_kind(self) -> FaultKind {
        match self {
            Fault::UnexpectedEnd | Fault::UnclosedBlock | Fault::Unfinished => FaultKind::Lexical,
            Fault::MissingMain | Fault::UnknownIdent | Fault::UnknownLabel => FaultKind::Link,
            Fault::TypeMismatch { .. } => FaultKind::Type,
            Fault::StackUnderflow | Fault::ReadTooLong | Fault::WriteFailed
            | Fault::DivisionByZero => FaultKind::Runtime,
        }
    }

    /// The family of a failure.
    #[verifier::when_used_as_spec(spec_kind)]
    pub fn kind(self) -> (kind: FaultKind)
        ensures
            kind == self.spec_kind(),
    {
        match self {
            Fault::UnexpectedEnd | Fault::UnclosedBlock | Fault::Unfinished => FaultKind::Lexical,
            Fault::MissingMain | Fault::UnknownIdent | Fault::UnknownLabel => FaultKind::Link,
            Fault::TypeMismatch { .. } => FaultKind::Type,
            Fault::StackUnderflow | Fault::ReadTooLong | Fault::WriteFailed
            | Fault::DivisionByZero => FaultKind::Runtime,
        }
    }
}

} // verus!
