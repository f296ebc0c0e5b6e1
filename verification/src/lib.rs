//! Verified core of a driver layer for the programmable I/O (PIO) blocks of a
//! dual-core microcontroller.
//!
//! The crate holds the parts of the driver that decide something: the codec
//! for 16-bit PIO instruction words, the relocation of programs to the slot
//! they are loaded at, the allocator of each block's 32-slot instruction
//! memory, the ownership and life cycle of the four state machines of a
//! block, the registry of interrupt bindings, the arithmetic of the atomic
//! register aliases and of the stack guard. Every function is total on the
//! inputs its contract admits and proved against a mathematical model.
//!
//! Nothing here touches a register. The register images kept by
//! [`block::PioBlock`] and the [`reg::RegWrite`] values returned by its
//! operations tell the caller which bus writes to perform.

pub mod allocator;
pub mod block;
pub mod config;
pub mod error;
pub mod free_list;
pub mod instr;
pub mod interrupt;
pub mod laws;
pub mod machine;
pub mod memory;
pub mod model;
pub mod mpu;
pub mod program;
pub mod reg;
pub mod relocate;

pub use allocator::{InstructionMemory, LoadedProgram};
pub use block::{PioBlock, StateMachineHandle};
pub use config::{ClockConfig, Config};
pub use error::Error;
pub use program::Program;
