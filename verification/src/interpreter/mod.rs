//! From a syntax tree to instructions, and the machine that runs them.
pub mod emitter;
pub mod instruction;
pub mod machine;
pub mod script;
pub mod value;

pub use self::emitter::{emit, EmitError, Emitter};
pub use self::instruction::Instruction;
pub use self::machine::{Callback, Host, Machine, MachineError};
pub use self::script::{BlockId, CompileError, Script, SharedNamespace, Stage};
pub use self::value::{List, Record, Value};

use vstd::prelude::*;

verus! {

/// A handle to a block of instructions of a machine's program: where the block
/// starts, how many instructions it has, and how many arguments it takes.
#[derive(Debug, Clone, Copy, PartialEq, Eq, Structural)]
pub struct Block {
    pub ip: u32,
    pub size: u16,
    pub argc: u8,
}

} // verus!
