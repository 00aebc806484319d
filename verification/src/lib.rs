//! A deterministic, metered register machine: instruction set, bytecode containers, fixed
//! cost schedules, the interpreter with its post-quantum instructions, a small text
//! assembler, and generators of random programs and containers for fuzzing.

pub mod abi;
pub mod alu;
pub mod assembler;
pub mod bytes;
pub mod container;
pub mod crypto;
pub mod entry_fuzz;
pub mod gas;
pub mod harness;
pub mod interp;
pub mod isa;
pub mod meter;
pub mod primitives;
pub mod semantics;
pub mod state;
pub mod storage;
