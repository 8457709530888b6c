use vstd::prelude::*;

use crate::op::Op;

verus! {

/// A runtime fault: fatal to the whole machine.
#[derive(Clone, Copy, Debug, PartialEq, Eq, Structural)]
pub enum Fault {
    /// An instruction needed more values than the stack held.
    StackUnderflow,
    /// `Div` with a zero divisor.
    DivisionByZero,
    /// An arithmetic result does not fit in 32 signed bits.
    Overflow,
    /// `Const` or `Push` without its immediate operand.
    MissingOperand,
    /// `Call` named an index or a name that no internal function has.
    UnknownFunction,
    /// `CallExt` named an index or a name that no native callback has.
    UnknownExternal,
    /// An `If` without a matching `EndIf` after it.
    UnmatchedIf,
    /// A `Function` without a matching `EndFunction` after it.
    UnmatchedFunction,
    /// An `Else` or `EndIf` reached outside the resolution of an `If`.
    StrayBlockEnd,
    /// An operation the engine does not execute.
    Unsupported(Op),
    /// Nested invocations (blocks, calls, forked children) went too deep.
    DepthExceeded,
    /// No process identifier is left to give a forked child.
    PidExhausted,
}

/// A structural error found before any instruction runs.
#[derive(Clone, Copy, Debug, PartialEq, Eq, Structural)]
pub enum SyntaxError {
    /// The counts of `If` and `EndIf` differ.
    UnbalancedIf { ifs: usize, end_ifs: usize },
    /// The counts of `Function` and `EndFunction` differ.
    UnbalancedFunction { functions: usize, end_functions: usize },
    /// More `Else` than `If`.
    TooManyElse { elses: usize, ifs: usize },
}

/// Why a call of `execute` failed.
#[derive(Clone, Copy, Debug, PartialEq, Eq, Structural)]
pub enum ExecError {
    Syntax(SyntaxError),
    Fault(Fault),
}

} // verus!
