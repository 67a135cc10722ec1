//! Execution core of an Ethereum-style virtual machine: the stack, the
//! memory, the per-call contract data and the data and control-flow
//! instructions that step one call frame.

pub mod word;
pub mod control;
pub mod stack;
pub mod memory;
pub mod contract;
pub mod machine;
pub mod opcode;
pub mod env;
