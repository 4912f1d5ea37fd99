//! A small virtual machine for an eight-symbol tape language.
//!
//! Source text is parsed into a list of [`Instruction`]s whose loop
//! brackets carry resolved jump targets, and the list is then run against a
//! fixed-size byte tape.

pub mod error;
pub mod instruction;
pub mod laws;
pub mod machine;
pub mod parser;
pub mod syntax;
pub mod tape;

pub use error::{ExecError, ParseError};
pub use instruction::Instruction;
pub use machine::{
    awaits_input, execute_code, is_executable, step, Action, Execution, InputPolicy, RunState,
};
pub use parser::{compile, parse_code};
pub use tape::{Intepreter, TAPE_SIZE};
