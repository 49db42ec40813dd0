//! An emulator for RV32I with the M extension: instruction decoding, the execution of each
//! instruction format, and the fetch-decode-execute step, with their contracts proved by Verus.

pub mod alu;
pub mod assembler;
pub mod decode;
pub mod handlers;
pub mod loader;
pub mod machine;
pub mod memory;
pub mod types;

