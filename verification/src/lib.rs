//! A verified CHIP-8 virtual machine core.
//!
//! The machine state (memory, registers, call stack, timers, framebuffer,
//! key flags) lives in [`machine::Chip8`]; one fetch-decode-execute cycle is
//! [`machine::Chip8::step`]. Every instruction handler carries a contract
//! that pins down the full effect of the instruction on the machine state,
//! and [`model`] holds the transition relations those contracts are stated
//! over.

pub mod errors;
pub mod laws;
pub mod machine;
pub mod model;
pub mod opcodes;
pub mod stack;
