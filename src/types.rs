//! The extension flags and the faults that an instruction can raise.
use crate::decode::hex_of;
use vstd::prelude::*;
use vstd::string::StringExecFns;

verus! {

/// Which optional RISC-V extensions are enabled. Only `m` changes what the engine does.
#[derive(Clone, Copy, Debug, PartialEq, Eq)]
pub struct Extensions {
    pub m: bool,
    pub a: bool,
    pub f: bool,
    pub d: bool,
    pub q: bool,
    pub e: bool,
    pub c: bool,
}

impl Extensions {
    /// No extension enabled: plain RV32I.
    pub fn base() -> (r: Extensions)
        ensures
            !r.m && !r.a && !r.f && !r.d && !r.q && !r.e && !r.c,
    {
        Extensions { m: false, a: false, f: false, d: false, q: false, e: false, c: false }
    }

    /// RV32I with the M extension.
    pub fn with_m() -> (r: Extensions)
        ensures
            r.m && !r.a && !r.f && !r.d && !r.q && !r.e && !r.c,
    {
        Extensions { m: true, a: false, f: false, d: false, q: false, e: false, c: false }
    }
}

/// Why an instruction could not complete.
#[derive(Clone, Debug, PartialEq, Eq)]
pub enum ExecutionError {
    /// The instruction needs the named extension, which is not enabled.
    Extension(String),
    /// No operation matches the instruction; holds its bytes in hex.
    InvalidInstruction(String),
    /// A branch or jump target is not a multiple of 4.
    InstructionAddressMisaligned,
    /// A recognised instruction that the engine does not carry out; holds its mnemonic.
    Unimplemented(String),
    /// The program asked to stop (`ecall` with `a0 = 10`).
    UserTerminate,
    /// A load or store reaches past the end of data memory.
    MemoryOutOfBounds,
}

pub open spec fn is_extension_error(e: ExecutionError, name: Seq<char>) -> bool {
    e matches ExecutionError::Extension(s) && s@ == name
}

/// `e` reports the instruction `b` as invalid.
pub open spec fn is_invalid_error(e: ExecutionError, b: Seq<u8>) -> bool {
    e matches ExecutionError::InvalidInstruction(s) && s@ == hex_of(b)
}

pub open spec fn is_unimplemented_error(e: ExecutionError, mnemonic: Seq<char>) -> bool {
    e matches ExecutionError::Unimplemented(s) && s@ == mnemonic
}

/// The message shown when a run stops on `e`.
pub open spec fn message_of(e: ExecutionError) -> Seq<char> {
    match e {
        ExecutionError::Extension(s) => "The "@ + s@ + " extension was not activated"@,
        ExecutionError::InvalidInstruction(s) => s@ + " is an invalid instruction"@,
        ExecutionError::InstructionAddressMisaligned => "Instruction address misaligned exception"@,
        ExecutionError::Unimplemented(s) => "The "@ + s@ + " instruction is not implemented"@,
        ExecutionError::UserTerminate => "The user terminated the program"@,
        ExecutionError::MemoryOutOfBounds => "Memory access out of bounds"@,
    }
}

impl ExecutionError {
    /// The human-readable message for this error.
    pub fn message(&self) -> (r: String)
        ensures
            r@ == message_of(*self),
    {
        match self {
            ExecutionError::Extension(s) => {
                let mut r = String::from_str("The ");
                r.append(s.as_str());
                r.append(" extension was not activated");
                r
            },
            ExecutionError::InvalidInstruction(s) => {
                let mut r = s.clone();
                r.append(" is an invalid instruction");
                r
            },
            ExecutionError::InstructionAddressMisaligned => String::from_str(
                "Instruction address misaligned exception",
            ),
            ExecutionError::Unimplemented(s) => {
                let mut r = String::from_str("The ");
                r.append(s.as_str());
                r.append(" instruction is not implemented");
                r
            },
            ExecutionError::UserTerminate => String::from_str("The user terminated the program"),
            ExecutionError::MemoryOutOfBounds => String::from_str("Memory access out of bounds"),
        }
    }
}

} // verus!
