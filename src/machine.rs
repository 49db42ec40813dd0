//! The machine state and one fetch–decode–execute step.
use crate::alu::{next_pc, wrap};
use crate::decode::{
    encode_hex, funct3_of, get_bits, get_opcode, hex_of, i_imm_bits, imm_b, imm_j, inst_word,
    instruction_length, lemma_field_bounds, opcode_of, rs1_of, rs2_of, word,
};
use crate::handlers::{
    b_type_post, branch_taken, fence_post, handle_fence, handle_i_type, handle_r_type,
    handle_s_type, handle_sb_type, handle_u_type, handle_uj_type, i_type_post, j_type_post, r_type_post,
    reg, s_type_post, u_type_post, REGFILE_SIZE,
};
use crate::memory::MEM_SIZE;
use crate::types::{is_invalid_error, ExecutionError, Extensions};
use vstd::prelude::*;

verus! {

/// Why no instruction could be fetched.
#[derive(Clone, Debug, PartialEq, Eq)]
pub enum FetchError {
    /// The PC is past the last whole instruction: the normal end of a run.
    EndOfImem,
    /// The instruction is not 32 bits long; holds the length that its first byte gives.
    UnsupportedLength(i32),
    /// The word is all zeros or all ones; holds its bytes in hex.
    IllegalInstruction(String),
}

/// Why a run stops.
#[derive(Clone, Debug, PartialEq, Eq)]
pub enum Halt {
    Fetch(FetchError),
    Fault(ExecutionError),
}

/// The four bytes of instruction memory at `pc`.
pub open spec fn inst_at(imem: Seq<u8>, pc: u32) -> Seq<u8> {
    imem.subrange(pc as int, pc + 4)
}

/// What fetching at `pc` gives.
pub open spec fn fetch_post(pc: u32, imem: Seq<u8>, r: Result<[u8; 4], FetchError>) -> bool {
    if pc + 4 > imem.len() {
        r == Err::<[u8; 4], FetchError>(FetchError::EndOfImem)
    } else if instruction_length(imem[pc as int]) != 32 {
        r == Err::<[u8; 4], FetchError>(
            FetchError::UnsupportedLength(instruction_length(imem[pc as int]) as i32),
        )
    } else if word(inst_at(imem, pc)) == 0 || word(inst_at(imem, pc)) == 0xFFFF_FFFF {
        r matches Err(FetchError::IllegalInstruction(s)) && s@ == hex_of(inst_at(imem, pc))
    } else {
        r matches Ok(b) && b@ == inst_at(imem, pc)
    }
}

/// The 32-bit instruction at `pc`, or why there is none to run.
pub fn fetch_inst(pc: u32, imem: &Vec<u8>) -> (r: Result<[u8; 4], FetchError>)
    ensures
        fetch_post(pc, imem@, r),
{
    let len = imem.len();
    if pc as u64 + 4 > len as u64 {
        return Err(FetchError::EndOfImem);
    }
    let i = pc as usize;
    let bits = get_bits(imem[i]);
    if bits != 32 {
        return Err(FetchError::UnsupportedLength(bits));
    }
    let bytes: [u8; 4] = [imem[i], imem[i + 1], imem[i + 2], imem[i + 3]];
    assert(bytes@ =~= inst_at(imem@, pc));
    let w = inst_word(&bytes);
    if w == 0 || w == 0xFFFF_FFFF {
        return Err(FetchError::IllegalInstruction(encode_hex(bytes.as_slice())));
    }
    Ok(bytes)
}

/// An `ecall`: funct3 0 and immediate 0 under the system opcode.
pub open spec fn is_ecall(w: u32) -> bool {
    opcode_of(w) == 0x73 && funct3_of(w) == 0 && i_imm_bits(w) == 0
}

/// The opcodes that the I-type handler takes.
pub open spec fn is_i_group(op: u32) -> bool {
    op == 0x03 || op == 0x13 || op == 0x67 || op == 0x73
}

/// A step result that a handler without output can give: `Ok(None)` or a fault.
pub open spec fn is_plain_result(r: Result<Option<i32>, Halt>) -> bool {
    match r {
        Ok(None) => true,
        Err(Halt::Fault(_)) => true,
        _ => false,
    }
}

/// The step result as the result of a handler without output.
pub open spec fn handler_result(r: Result<Option<i32>, Halt>) -> Result<(), ExecutionError> {
    match r {
        Err(Halt::Fault(e)) => Err(e),
        _ => Ok(()),
    }
}

/// The step result as the result of the I-type handler.
pub open spec fn i_handler_result(r: Result<Option<i32>, Halt>) -> Result<Option<i32>, ExecutionError> {
    match r {
        Ok(p) => Ok(p),
        Err(Halt::Fault(e)) => Err(e),
        Err(Halt::Fetch(_)) => Ok(None),
    }
}

/// The register file, PC, data memory and instruction memory of one run.
pub struct Machine {
    pub regfile: Vec<u32>,
    pub pc: u32,
    pub mem: Vec<u8>,
    pub imem: Vec<u8>,
    pub extensions: Extensions,
    /// Whether a completed `ecall` moves the PC on by 4; when false the PC stays on the `ecall`.
    pub advance_pc_on_ecall: bool,
}

impl Machine {
    /// 32 registers with `x0` zero, and a PC on a 4-byte boundary.
    pub open spec fn wf(&self) -> bool {
        &&& self.regfile@.len() == 32
        &&& self.regfile@[0] == 0
        &&& self.pc % 4 == 0
    }

    /// A machine at boot: registers and data memory zero, PC 0, running `imem`.
    pub fn new(imem: Vec<u8>, extensions: Extensions) -> (m: Machine)
        ensures
            m.wf(),
            m.regfile@ == Seq::new(32, |i: int| 0u32),
            m.pc == 0,
            m.mem@ == Seq::new(MEM_SIZE as nat, |i: int| 0u8),
            m.imem@ == imem@,
            m.extensions == extensions,
            m.advance_pc_on_ecall,
    {
        let mut regfile: Vec<u32> = Vec::new();
        let mut i: usize = 0;
        while i < REGFILE_SIZE
            invariant
                i <= REGFILE_SIZE,
                regfile@ == Seq::new(i as nat, |k: int| 0u32),
            decreases REGFILE_SIZE - i,
        {
            regfile.push(0);
            i = i + 1;
            assert(regfile@ =~= Seq::new(i as nat, |k: int| 0u32));
        }
        let mut mem: Vec<u8> = Vec::new();
        let mut j: usize = 0;
        while j < MEM_SIZE
            invariant
                j <= MEM_SIZE,
                mem@ == Seq::new(j as nat, |k: int| 0u8),
            decreases MEM_SIZE - j,
        {
            mem.push(0);
            j = j + 1;
            assert(mem@ =~= Seq::new(j as nat, |k: int| 0u8));
        }
        Machine { regfile, pc: 0, mem, imem, extensions, advance_pc_on_ecall: true }
    }

    /// What one step does, from state `self` to state `next`, returning `r`.
    pub open spec fn step_post(&self, next: &Machine, r: Result<Option<i32>, Halt>) -> bool {
        let pc = self.pc;
        let regs = self.regfile@;
        let b = inst_at(self.imem@, pc);
        let w = word(b);
        let op = opcode_of(w);
        let unchanged = next.regfile@ == regs && next.pc == pc && next.mem@ == self.mem@;
        if pc + 4 > self.imem@.len() || instruction_length(self.imem@[pc as int]) != 32 || w == 0 || w
            == 0xFFFF_FFFF {
            r matches Err(Halt::Fetch(fe)) && fetch_post(pc, self.imem@, Err(fe)) && unchanged
        } else if op == 0x33 {
            &&& is_plain_result(r)
            &&& r_type_post(b, self.extensions.m, regs, pc, next.regfile@, next.pc, handler_result(r))
            &&& next.mem@ == self.mem@
        } else if is_i_group(op) {
            let completed_ecall = is_ecall(w) && r is Ok;
            &&& !(r matches Err(Halt::Fetch(_)))
            &&& i_type_post(
                b,
                self.mem@,
                regs,
                pc,
                next.regfile@,
                if completed_ecall {
                    pc
                } else {
                    next.pc
                },
                i_handler_result(r),
            )
            &&& completed_ecall ==> next.pc == if self.advance_pc_on_ecall {
                next_pc(pc)
            } else {
                pc
            }
            &&& next.mem@ == self.mem@
        } else if op == 0x23 {
            &&& is_plain_result(r)
            &&& s_type_post(b, regs, self.mem@, pc, next.mem@, next.pc, handler_result(r))
            &&& next.regfile@ == regs
        } else if op == 0x63 {
            &&& is_plain_result(r)
            &&& b_type_post(b, regs, pc, next.pc, handler_result(r))
            &&& next.regfile@ == regs && next.mem@ == self.mem@
        } else if op == 0x17 || op == 0x37 {
            &&& is_plain_result(r)
            &&& u_type_post(b, regs, pc, next.regfile@, next.pc, handler_result(r))
            &&& next.mem@ == self.mem@
        } else if op == 0x6F {
            &&& is_plain_result(r)
            &&& j_type_post(b, regs, pc, next.regfile@, next.pc, handler_result(r))
            &&& next.mem@ == self.mem@
        } else if op == 0x0F {
            r matches Err(Halt::Fault(_)) && fence_post(b, handler_result(r)) && unchanged
        } else {
            r matches Err(Halt::Fault(e)) && is_invalid_error(e, b) && unchanged
        }
    }

    /// Fetches the instruction at the PC and carries it out; `Ok(Some(v))` asks the host to
    /// print `v`, `Err` ends the run.
    pub fn step(&mut self) -> (r: Result<Option<i32>, Halt>)
        requires
            old(self).wf(),
        ensures
            final(self).wf(),
            final(self).regfile@[0] == 0,
            final(self).regfile@.len() == 32,
            final(self).imem@ == old(self).imem@,
            final(self).mem@.len() == old(self).mem@.len(),
            final(self).extensions == old(self).extensions,
            final(self).advance_pc_on_ecall == old(self).advance_pc_on_ecall,
            old(self).step_post(&*final(self), r),
    {
        let ghost old_self = *self;
        let fetched = fetch_inst(self.pc, &self.imem);
        let bytes = match fetched {
            Ok(b) => b,
            Err(e) => {
                return Err(Halt::Fetch(e));
            },
        };
        proof {
            lemma_field_bounds(word(bytes@));
        }
        let opcode = get_opcode(&bytes);
        let r = if opcode == 0x33 {
            match handle_r_type(&mut self.regfile, &bytes, &mut self.pc, &self.extensions) {
                Ok(()) => Ok(None),
                Err(e) => Err(Halt::Fault(e)),
            }
        } else if opcode == 0x03 || opcode == 0x13 || opcode == 0x67 || opcode == 0x73 {
            let res = handle_i_type(
                &mut self.regfile,
                &self.mem,
                &bytes,
                &mut self.pc,
                &self.extensions,
            );
            match res {
                Ok(p) => {
                    if is_ecall_word(&bytes) && self.advance_pc_on_ecall {
                        self.pc = self.pc.wrapping_add(4);
                    }
                    Ok(p)
                },
                Err(e) => Err(Halt::Fault(e)),
            }
        } else if opcode == 0x23 {
            match handle_s_type(&self.regfile, &mut self.mem, &bytes, &mut self.pc, &self.extensions) {
                Ok(()) => Ok(None),
                Err(e) => Err(Halt::Fault(e)),
            }
        } else if opcode == 0x63 {
            match handle_sb_type(&self.regfile, &bytes, &mut self.pc, &self.extensions) {
                Ok(()) => Ok(None),
                Err(e) => Err(Halt::Fault(e)),
            }
        } else if opcode == 0x17 || opcode == 0x37 {
            match handle_u_type(&mut self.regfile, &bytes, &mut self.pc, &self.extensions) {
                Ok(()) => Ok(None),
                Err(e) => Err(Halt::Fault(e)),
            }
        } else if opcode == 0x6F {
            match handle_uj_type(&mut self.regfile, &bytes, &mut self.pc, &self.extensions) {
                Ok(()) => Ok(None),
                Err(e) => Err(Halt::Fault(e)),
            }
        } else if opcode == 0x0F {
            match handle_fence(&mut self.regfile, &bytes, &mut self.pc) {
                Ok(()) => Ok(None),
                Err(e) => Err(Halt::Fault(e)),
            }
        } else {
            Err(Halt::Fault(ExecutionError::InvalidInstruction(encode_hex(bytes.as_slice()))))
        };
        // x0 is hardwired to zero; the handlers already discard writes to it.
        let ghost mid = self.regfile@;
        assert(mid[0] == 0);
        self.regfile.set(0, 0);
        proof {
            assert(self.regfile@ =~= mid);
            lemma_pc_aligned(old_self.pc, word(bytes@));
        }
        r
    }
}

/// Whether `bytes` is an `ecall`.
fn is_ecall_word(bytes: &[u8; 4]) -> (r: bool)
    ensures
        r == is_ecall(word(bytes@)),
{
    let w = inst_word(bytes);
    (w & 0x7F) == 0x73 && ((w >> 12u32) & 0x7) == 0 && (w >> 20u32) == 0
}

/// A PC on a 4-byte boundary stays on one when it moves by a multiple of 4.
pub proof fn lemma_wrap_aligned(pc: u32, d: int)
    requires
        pc % 4 == 0,
        d % 4 == 0,
    ensures
        wrap(pc + d) % 4 == 0,
{
    assert((pc + d) % 0x1_0000_0000 % 4 == 0) by {
        vstd::arithmetic::div_mod::lemma_mod_mod(pc + d, 4, 0x4000_0000);
    }
}

proof fn lemma_pc_aligned(pc: u32, w: u32)
    requires
        pc % 4 == 0,
    ensures
        next_pc(pc) % 4 == 0,
        imm_b(w) % 4 == 0 ==> wrap(pc + imm_b(w)) % 4 == 0,
        imm_j(w) % 4 == 0 ==> wrap(pc + imm_j(w)) % 4 == 0,
{
    lemma_wrap_aligned(pc, 4);
    if imm_b(w) % 4 == 0 {
        lemma_wrap_aligned(pc, imm_b(w));
    }
    if imm_j(w) % 4 == 0 {
        lemma_wrap_aligned(pc, imm_j(w));
    }
}

/// A branch, `jal` or `jalr`: an instruction that sets the PC itself.
pub open spec fn is_control(w: u32) -> bool {
    opcode_of(w) == 0x63 || opcode_of(w) == 0x6F || opcode_of(w) == 0x67
}

/// After an instruction that completes and is not a branch or jump, the PC has moved on by 4
/// (for an `ecall`, when the machine is set to move past it).
pub proof fn lemma_pc_advances(m: Machine, next: Machine, r: Result<Option<i32>, Halt>)
    requires
        m.wf(),
        m.step_post(&next, r),
        r is Ok,
        !is_control(word(inst_at(m.imem@, m.pc))),
        is_ecall(word(inst_at(m.imem@, m.pc))) ==> m.advance_pc_on_ecall,
    ensures
        next.pc == next_pc(m.pc),
{
}

/// A taken branch moves the PC by its immediate to a 4-byte boundary, or fails as misaligned.
pub proof fn lemma_taken_branch(m: Machine, next: Machine, r: Result<Option<i32>, Halt>)
    requires
        m.wf(),
        m.step_post(&next, r),
        !(r matches Err(Halt::Fetch(_))),
        opcode_of(word(inst_at(m.imem@, m.pc))) == 0x63,
        branch_taken(
            funct3_of(word(inst_at(m.imem@, m.pc))),
            reg(m.regfile@, rs1_of(word(inst_at(m.imem@, m.pc)))),
            reg(m.regfile@, rs2_of(word(inst_at(m.imem@, m.pc)))),
        ),
    ensures
        r == Ok::<Option<i32>, Halt>(None) ==> next.pc == wrap(m.pc + imm_b(word(inst_at(m.imem@, m.pc))))
            && next.pc % 4 == 0,
        r is Err ==> next.pc == m.pc,
        r is Err ==> r == Err::<Option<i32>, Halt>(Halt::Fault(ExecutionError::InstructionAddressMisaligned))
            || r matches Err(Halt::Fault(ExecutionError::InvalidInstruction(_))),
{
    lemma_pc_aligned(m.pc, word(inst_at(m.imem@, m.pc)));
}

/// `jal` moves the PC by its immediate to a 4-byte boundary, or fails as misaligned.
pub proof fn lemma_jump(m: Machine, next: Machine, r: Result<Option<i32>, Halt>)
    requires
        m.wf(),
        m.step_post(&next, r),
        !(r matches Err(Halt::Fetch(_))),
        opcode_of(word(inst_at(m.imem@, m.pc))) == 0x6F,
    ensures
        r is Ok ==> next.pc == wrap(m.pc + imm_j(word(inst_at(m.imem@, m.pc)))) && next.pc % 4 == 0,
        r is Err ==> r == Err::<Option<i32>, Halt>(Halt::Fault(ExecutionError::InstructionAddressMisaligned))
            && next.pc == m.pc,
{
    lemma_pc_aligned(m.pc, word(inst_at(m.imem@, m.pc)));
}

} // verus!
