//! A small stack-based virtual machine: typed instructions run against an
//! operand stack, with nested conditionals, named and indexed subroutines,
//! host callbacks and a fork primitive.
pub mod builder;
pub mod error;
pub mod laws;
pub mod machine;
pub mod op;
pub mod reader;
pub mod registry;
pub mod semantics;
pub mod text;

pub use builder::Builder;
pub use error::{ExecError, Fault, SyntaxError};
pub use machine::{Output, StackMachine};
pub use op::{Instruction, Op, Operation};
pub use reader::{parse_opcode, ParseError, Reader};
pub use registry::{Function, FunctionTable, Native, NativeFunction, NativeTable};
