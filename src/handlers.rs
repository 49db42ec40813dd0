//! One handler per instruction format. Each reads the register file (and data memory), and on
//! success writes the destination register, memory and PC; on failure it changes nothing.
use crate::alu::{add_offset, alu, lemma_signed, next_pc, r_type_valid, r_type_value, signed, wrap};
use crate::decode::{
    decode_i_type_immediate, decode_s_type_immediate, decode_sb_immediate, decode_u_type_immediate,
    decode_uj_type_immediate, encode_hex, funct3_of, funct7_of, get_f3, get_f7, get_opcode, get_rd,
    get_rs1, get_rs2, i_imm_bits, imm_b, imm_i, imm_j, imm_s, imm_u, lemma_field_bounds,
    opcode_of, rd_of, rs1_of, rs2_of, word,
};
use crate::memory::{
    access_size, in_bounds, is_load_funct3, is_store_funct3, load, load_value, store, store_value,
};
use crate::types::{
    is_extension_error, is_invalid_error, is_unimplemented_error, ExecutionError, Extensions,
};
use vstd::prelude::*;
use vstd::string::StringExecFns;

verus! {

/// Number of general-purpose registers.
pub const REGFILE_SIZE: usize = 32;

/// `regs` after writing `v` to register `rd`; a write to `x0` is discarded.
pub open spec fn with_reg(regs: Seq<u32>, rd: u32, v: u32) -> Seq<u32> {
    if rd == 0 {
        regs
    } else {
        regs.update(rd as int, v)
    }
}

/// The value of register `i`.
pub open spec fn reg(regs: Seq<u32>, i: u32) -> u32 {
    regs[i as int]
}

/// Whether the branch with this funct3 is taken on operands `a`, `b`.
pub open spec fn branch_taken(f3: u32, a: u32, b: u32) -> bool {
    if f3 == 0 {
        a == b
    } else if f3 == 1 {
        a != b
    } else if f3 == 4 {
        signed(a) < signed(b)
    } else if f3 == 5 {
        signed(a) >= signed(b)
    } else if f3 == 6 {
        a < b
    } else {
        a >= b
    }
}

/// `beq`, `bne`, `blt`, `bge`, `bltu`, `bgeu`.
pub open spec fn is_branch_funct3(f3: u32) -> bool {
    f3 == 0 || f3 == 1 || f3 == 4 || f3 == 5 || f3 == 6 || f3 == 7
}

/// The (funct3, funct7) pairs of the register-immediate operations: the shifts fix funct7.
pub open spec fn i_arith_valid(f3: u32, f7: u32) -> bool {
    f3 < 8 && (f3 != 1 || f7 == 0) && (f3 != 5 || f7 == 0 || f7 == 0x20)
}

/// The R-type funct7 that the register-immediate operation with these fields follows.
pub open spec fn i_arith_f7(f3: u32, f7: u32) -> u32 {
    if f3 == 5 {
        f7
    } else {
        0
    }
}

/// Mnemonics of the CSR instructions by funct3 (1 to 6).
pub open spec fn csr_mnemonic(f3: u32) -> Seq<char> {
    if f3 == 1 {
        "csrrw"@
    } else if f3 == 2 {
        "csrrs"@
    } else if f3 == 3 {
        "csrrc"@
    } else if f3 == 4 {
        "csrrwi"@
    } else if f3 == 5 {
        "csrrsi"@
    } else {
        "csrrci"@
    }
}

/// What an R-type instruction `b` does to the registers and PC, and what it returns.
pub open spec fn r_type_post(
    b: Seq<u8>,
    m: bool,
    regs: Seq<u32>,
    pc: u32,
    regs2: Seq<u32>,
    pc2: u32,
    res: Result<(), ExecutionError>,
) -> bool {
    let w = word(b);
    let f3 = funct3_of(w);
    let f7 = funct7_of(w);
    if opcode_of(w) == 0x33 && r_type_valid(f3, f7) {
        if f7 == 0x01 && !m {
            res matches Err(e) && is_extension_error(e, "M"@) && regs2 == regs && pc2 == pc
        } else {
            &&& res is Ok
            &&& regs2 == with_reg(
                regs,
                rd_of(w),
                r_type_value(f3, f7, reg(regs, rs1_of(w)), reg(regs, rs2_of(w))),
            )
            &&& pc2 == next_pc(pc)
        }
    } else {
        res matches Err(e) && is_invalid_error(e, b) && regs2 == regs && pc2 == pc
    }
}

/// What an I-type instruction `b` (load, register-immediate, `jalr`, system) does. An `Ok(Some(v))`
/// result asks the host to print `v`.
pub open spec fn i_type_post(
    b: Seq<u8>,
    mem: Seq<u8>,
    regs: Seq<u32>,
    pc: u32,
    regs2: Seq<u32>,
    pc2: u32,
    res: Result<Option<i32>, ExecutionError>,
) -> bool {
    let w = word(b);
    let op = opcode_of(w);
    let f3 = funct3_of(w);
    let f7 = funct7_of(w);
    let a = reg(regs, rs1_of(w));
    let unchanged = regs2 == regs && pc2 == pc;
    if op == 0x03 && is_load_funct3(f3) {
        let ea = wrap(a + imm_i(w));
        if in_bounds(ea, access_size(f3), mem.len() as int) {
            &&& res == Ok::<Option<i32>, ExecutionError>(None)
            &&& regs2 == with_reg(regs, rd_of(w), load_value(f3, mem, ea as int))
            &&& pc2 == next_pc(pc)
        } else {
            res == Err::<Option<i32>, ExecutionError>(ExecutionError::MemoryOutOfBounds) && unchanged
        }
    } else if op == 0x13 && i_arith_valid(f3, f7) {
        &&& res == Ok::<Option<i32>, ExecutionError>(None)
        &&& regs2 == with_reg(regs, rd_of(w), r_type_value(f3, i_arith_f7(f3, f7), a, wrap(imm_i(w))))
        &&& pc2 == next_pc(pc)
    } else if op == 0x67 && f3 == 0 {
        let dest = wrap(a + imm_i(w)) & 0xFFFF_FFFE;
        if dest % 4 != 0 {
            res == Err::<Option<i32>, ExecutionError>(ExecutionError::InstructionAddressMisaligned)
                && unchanged
        } else {
            &&& res == Ok::<Option<i32>, ExecutionError>(None)
            &&& regs2 == with_reg(regs, rd_of(w), next_pc(pc))
            &&& pc2 == dest
        }
    } else if op == 0x73 && f3 == 0 && i_imm_bits(w) == 0 {
        &&& unchanged
        &&& if reg(regs, 10) == 1 {
            res == Ok::<Option<i32>, ExecutionError>(Some(signed(reg(regs, 11)) as i32))
        } else if reg(regs, 10) == 10 {
            res == Err::<Option<i32>, ExecutionError>(ExecutionError::UserTerminate)
        } else {
            res == Ok::<Option<i32>, ExecutionError>(None)
        }
    } else if op == 0x73 && f3 == 0 && f7 == 1 {
        res matches Err(e) && is_unimplemented_error(e, "ebreak"@) && unchanged
    } else if op == 0x73 && 1 <= f3 <= 6 {
        res matches Err(e) && is_unimplemented_error(e, csr_mnemonic(f3)) && unchanged
    } else {
        res matches Err(e) && is_invalid_error(e, b) && unchanged
    }
}

/// What an S-type instruction `b` does to memory and PC.
pub open spec fn s_type_post(
    b: Seq<u8>,
    regs: Seq<u32>,
    mem: Seq<u8>,
    pc: u32,
    mem2: Seq<u8>,
    pc2: u32,
    res: Result<(), ExecutionError>,
) -> bool {
    let w = word(b);
    let f3 = funct3_of(w);
    if opcode_of(w) == 0x23 && is_store_funct3(f3) {
        let ea = wrap(reg(regs, rs1_of(w)) + imm_s(w));
        if in_bounds(ea, access_size(f3), mem.len() as int) {
            &&& res is Ok
            &&& mem2 == store_value(mem, ea as int, access_size(f3), reg(regs, rs2_of(w)))
            &&& pc2 == next_pc(pc)
        } else {
            res == Err::<(), ExecutionError>(ExecutionError::MemoryOutOfBounds) && mem2 == mem
                && pc2 == pc
        }
    } else {
        res matches Err(e) && is_invalid_error(e, b) && mem2 == mem && pc2 == pc
    }
}

/// What a B-type instruction `b` does to the PC.
pub open spec fn b_type_post(b: Seq<u8>, regs: Seq<u32>, pc: u32, pc2: u32, res: Result<(), ExecutionError>) -> bool {
    let w = word(b);
    let f3 = funct3_of(w);
    if opcode_of(w) == 0x63 && is_branch_funct3(f3) {
        if branch_taken(f3, reg(regs, rs1_of(w)), reg(regs, rs2_of(w))) {
            if imm_b(w) % 4 != 0 {
                res == Err::<(), ExecutionError>(ExecutionError::InstructionAddressMisaligned) && pc2
                    == pc
            } else {
                res is Ok && pc2 == wrap(pc + imm_b(w))
            }
        } else {
            res is Ok && pc2 == next_pc(pc)
        }
    } else {
        res matches Err(e) && is_invalid_error(e, b) && pc2 == pc
    }
}

/// What a U-type instruction `b` (`lui`, `auipc`) does to the registers and PC.
pub open spec fn u_type_post(
    b: Seq<u8>,
    regs: Seq<u32>,
    pc: u32,
    regs2: Seq<u32>,
    pc2: u32,
    res: Result<(), ExecutionError>,
) -> bool {
    let w = word(b);
    if opcode_of(w) == 0x17 {
        res is Ok && regs2 == with_reg(regs, rd_of(w), wrap(pc + imm_u(w))) && pc2 == next_pc(pc)
    } else if opcode_of(w) == 0x37 {
        res is Ok && regs2 == with_reg(regs, rd_of(w), wrap(imm_u(w))) && pc2 == next_pc(pc)
    } else {
        res matches Err(e) && is_invalid_error(e, b) && regs2 == regs && pc2 == pc
    }
}

/// What a J-type instruction `b` (`jal`) does to the registers and PC.
pub open spec fn j_type_post(
    b: Seq<u8>,
    regs: Seq<u32>,
    pc: u32,
    regs2: Seq<u32>,
    pc2: u32,
    res: Result<(), ExecutionError>,
) -> bool {
    let w = word(b);
    if opcode_of(w) == 0x6F {
        if imm_j(w) % 4 != 0 {
            res == Err::<(), ExecutionError>(ExecutionError::InstructionAddressMisaligned) && regs2
                == regs && pc2 == pc
        } else {
            res is Ok && regs2 == with_reg(regs, rd_of(w), next_pc(pc)) && pc2 == wrap(pc + imm_j(w))
        }
    } else {
        res matches Err(e) && is_invalid_error(e, b) && regs2 == regs && pc2 == pc
    }
}

/// What a fence instruction `b` returns: it is never carried out.
pub open spec fn fence_post(b: Seq<u8>, res: Result<(), ExecutionError>) -> bool {
    let w = word(b);
    if opcode_of(w) == 0x0F && funct3_of(w) == 0 {
        res matches Err(e) && is_unimplemented_error(e, "FENCE"@)
    } else if opcode_of(w) == 0x0F && funct3_of(w) == 1 {
        res matches Err(e) && is_unimplemented_error(e, "FENCE.I"@)
    } else {
        res matches Err(e) && is_invalid_error(e, b)
    }
}

/// Writes `v` to register `rd`, discarding a write to `x0`.
fn write_reg(regfile: &mut Vec<u32>, rd: u8, v: u32)
    requires
        old(regfile)@.len() == 32,
        rd < 32,
    ensures
        final(regfile)@ == with_reg(old(regfile)@, rd as u32, v),
{
    if rd != 0 {
        regfile.set(rd as usize, v);
    }
}

fn invalid_instruction(bytes: &[u8; 4]) -> (e: ExecutionError)
    ensures
        is_invalid_error(e, bytes@),
{
    ExecutionError::InvalidInstruction(encode_hex(bytes.as_slice()))
}

fn unimplemented(mnemonic: &str) -> (e: ExecutionError)
    ensures
        is_unimplemented_error(e, mnemonic@),
{
    ExecutionError::Unimplemented(String::from_str(mnemonic))
}

/// Whether the access of `size` bytes at `a` fits in `mem`.
fn fits(mem: &Vec<u8>, a: u32, size: u64) -> (r: bool)
    requires
        size <= 4,
    ensures
        r == in_bounds(a, size as int, mem@.len() as int),
{
    a as u64 + size <= mem.len() as u64
}

fn access_bytes(f3: u8) -> (r: u64)
    ensures
        r == access_size(f3 as u32),
{
    if f3 % 4 == 0 {
        1
    } else if f3 % 4 == 1 {
        2
    } else {
        4
    }
}

/// Carries out a register-register instruction (opcode 0x33), including the M extension.
pub fn handle_r_type(
    regfile: &mut Vec<u32>,
    bytes: &[u8; 4],
    pc: &mut u32,
    extensions: &Extensions,
) -> (r: Result<(), ExecutionError>)
    requires
        old(regfile)@.len() == 32,
    ensures
        final(regfile)@.len() == 32,
        r_type_post(bytes@, extensions.m, old(regfile)@, *old(pc), final(regfile)@, *final(pc), r),
{
    let opcode = get_opcode(bytes);
    let rd = get_rd(bytes);
    let f3 = get_f3(bytes);
    let rs1 = get_rs1(bytes);
    let rs2 = get_rs2(bytes);
    let f7 = get_f7(bytes);
    if opcode != 0x33 || !(f7 == 0x00 || f7 == 0x01 || (f7 == 0x20 && (f3 == 0 || f3 == 5))) {
        return Err(invalid_instruction(bytes));
    }
    if f7 == 0x01 && !extensions.m {
        proof {
            reveal_strlit("M");
        }
        return Err(ExecutionError::Extension(String::from_str("M")));
    }
    let v = alu(f3, f7, regfile[rs1 as usize], regfile[rs2 as usize]);
    write_reg(regfile, rd, v);
    *pc = pc.wrapping_add(4);
    Ok(())
}

/// Carries out a load, a register-immediate operation, `jalr`, or a system instruction.
pub fn handle_i_type(
    regfile: &mut Vec<u32>,
    mem: &Vec<u8>,
    bytes: &[u8; 4],
    pc: &mut u32,
    _extensions: &Extensions,
) -> (r: Result<Option<i32>, ExecutionError>)
    requires
        old(regfile)@.len() == 32,
    ensures
        final(regfile)@.len() == 32,
        i_type_post(bytes@, mem@, old(regfile)@, *old(pc), final(regfile)@, *final(pc), r),
{
    let opcode = get_opcode(bytes);
    let rd = get_rd(bytes);
    let f3 = get_f3(bytes);
    let rs1 = get_rs1(bytes);
    let f7 = get_f7(bytes);
    let imm = decode_i_type_immediate(bytes);
    let a = regfile[rs1 as usize];
    proof {
        lemma_field_bounds(word(bytes@));
        crate::alu::lemma_i32_bits(imm);
        vstd::arithmetic::power2::lemma2_to64();
    }
    if opcode == 0x03 && (f3 == 0 || f3 == 1 || f3 == 2 || f3 == 4 || f3 == 5) {
        let ea = add_offset(a, imm);
        if !fits(mem, ea, access_bytes(f3)) {
            return Err(ExecutionError::MemoryOutOfBounds);
        }
        let v = load(mem, ea, f3);
        write_reg(regfile, rd, v);
        *pc = pc.wrapping_add(4);
        Ok(None)
    } else if opcode == 0x13 && (f3 != 1 || f7 == 0) && (f3 != 5 || f7 == 0 || f7 == 0x20) {
        let v = alu(f3, if f3 == 5 { f7 } else { 0 }, a, imm as u32);
        write_reg(regfile, rd, v);
        *pc = pc.wrapping_add(4);
        Ok(None)
    } else if opcode == 0x67 && f3 == 0 {
        let dest = add_offset(a, imm) & 0xFFFF_FFFE;
        if dest % 4 != 0 {
            return Err(ExecutionError::InstructionAddressMisaligned);
        }
        write_reg(regfile, rd, pc.wrapping_add(4));
        *pc = dest;
        Ok(None)
    } else if opcode == 0x73 && f3 == 0 && imm == 0 {
        let service = regfile[10];
        if service == 1 {
            proof {
                lemma_signed(regfile@[11]);
            }
            Ok(Some(regfile[11] as i32))
        } else if service == 10 {
            Err(ExecutionError::UserTerminate)
        } else {
            Ok(None)
        }
    } else if opcode == 0x73 && f3 == 0 && f7 == 1 {
        Err(unimplemented("ebreak"))
    } else if opcode == 0x73 && f3 == 1 {
        Err(unimplemented("csrrw"))
    } else if opcode == 0x73 && f3 == 2 {
        Err(unimplemented("csrrs"))
    } else if opcode == 0x73 && f3 == 3 {
        Err(unimplemented("csrrc"))
    } else if opcode == 0x73 && f3 == 4 {
        Err(unimplemented("csrrwi"))
    } else if opcode == 0x73 && f3 == 5 {
        Err(unimplemented("csrrsi"))
    } else if opcode == 0x73 && f3 == 6 {
        Err(unimplemented("csrrci"))
    } else {
        Err(invalid_instruction(bytes))
    }
}

/// Carries out a store (opcode 0x23).
pub fn handle_s_type(
    regfile: &Vec<u32>,
    mem: &mut Vec<u8>,
    bytes: &[u8; 4],
    pc: &mut u32,
    _extensions: &Extensions,
) -> (r: Result<(), ExecutionError>)
    requires
        regfile@.len() == 32,
    ensures
        final(mem)@.len() == old(mem)@.len(),
        s_type_post(bytes@, regfile@, old(mem)@, *old(pc), final(mem)@, *final(pc), r),
{
    let opcode = get_opcode(bytes);
    let f3 = get_f3(bytes);
    let rs1 = get_rs1(bytes);
    let rs2 = get_rs2(bytes);
    let imm = decode_s_type_immediate(bytes);
    if opcode != 0x23 || f3 > 2 {
        return Err(invalid_instruction(bytes));
    }
    let ea = add_offset(regfile[rs1 as usize], imm);
    if !fits(mem, ea, access_bytes(f3)) {
        return Err(ExecutionError::MemoryOutOfBounds);
    }
    store(mem, ea, f3, regfile[rs2 as usize]);
    *pc = pc.wrapping_add(4);
    Ok(())
}

/// Carries out a conditional branch (opcode 0x63).
pub fn handle_sb_type(
    regfile: &Vec<u32>,
    bytes: &[u8; 4],
    pc: &mut u32,
    _extensions: &Extensions,
) -> (r: Result<(), ExecutionError>)
    requires
        regfile@.len() == 32,
    ensures
        b_type_post(bytes@, regfile@, *old(pc), *final(pc), r),
{
    let opcode = get_opcode(bytes);
    let f3 = get_f3(bytes);
    let rs1 = get_rs1(bytes);
    let rs2 = get_rs2(bytes);
    let imm = decode_sb_immediate(bytes);
    if opcode != 0x63 || f3 == 2 || f3 == 3 {
        return Err(invalid_instruction(bytes));
    }
    let a = regfile[rs1 as usize];
    let b = regfile[rs2 as usize];
    proof {
        lemma_signed(a);
        lemma_signed(b);
        crate::alu::lemma_i32_bits(imm);
    }
    let taken = if f3 == 0 {
        a == b
    } else if f3 == 1 {
        a != b
    } else if f3 == 4 {
        (a as i32) < (b as i32)
    } else if f3 == 5 {
        (a as i32) >= (b as i32)
    } else if f3 == 6 {
        a < b
    } else {
        a >= b
    };
    if taken {
        if (imm as u32) % 4 != 0 {
            return Err(ExecutionError::InstructionAddressMisaligned);
        }
        *pc = add_offset(*pc, imm);
    } else {
        *pc = pc.wrapping_add(4);
    }
    Ok(())
}

/// Carries out `lui` (opcode 0x37) or `auipc` (opcode 0x17).
pub fn handle_u_type(
    regfile: &mut Vec<u32>,
    bytes: &[u8; 4],
    pc: &mut u32,
    _extensions: &Extensions,
) -> (r: Result<(), ExecutionError>)
    requires
        old(regfile)@.len() == 32,
    ensures
        final(regfile)@.len() == 32,
        u_type_post(bytes@, old(regfile)@, *old(pc), final(regfile)@, *final(pc), r),
{
    let opcode = get_opcode(bytes);
    let rd = get_rd(bytes);
    let imm = decode_u_type_immediate(bytes);
    proof {
        crate::alu::lemma_i32_bits(imm);
    }
    if opcode == 0x17 {
        write_reg(regfile, rd, add_offset(*pc, imm));
    } else if opcode == 0x37 {
        write_reg(regfile, rd, imm as u32);
    } else {
        return Err(invalid_instruction(bytes));
    }
    *pc = pc.wrapping_add(4);
    Ok(())
}

/// Carries out `jal` (opcode 0x6F).
pub fn handle_uj_type(
    regfile: &mut Vec<u32>,
    bytes: &[u8; 4],
    pc: &mut u32,
    _extensions: &Extensions,
) -> (r: Result<(), ExecutionError>)
    requires
        old(regfile)@.len() == 32,
    ensures
        final(regfile)@.len() == 32,
        j_type_post(bytes@, old(regfile)@, *old(pc), final(regfile)@, *final(pc), r),
{
    let opcode = get_opcode(bytes);
    let rd = get_rd(bytes);
    let imm = decode_uj_type_immediate(bytes);
    proof {
        crate::alu::lemma_i32_bits(imm);
    }
    if opcode != 0x6F {
        return Err(invalid_instruction(bytes));
    }
    if (imm as u32) % 4 != 0 {
        return Err(ExecutionError::InstructionAddressMisaligned);
    }
    write_reg(regfile, rd, pc.wrapping_add(4));
    *pc = add_offset(*pc, imm);
    Ok(())
}

/// Reports a fence (opcode 0x0F), which the engine does not carry out.
pub fn handle_fence(_regfile: &mut Vec<u32>, bytes: &[u8; 4], _pc: &mut u32) -> (r: Result<(), ExecutionError>)
    ensures
        *final(_regfile) == *old(_regfile),
        *final(_pc) == *old(_pc),
        r is Err,
        fence_post(bytes@, r),
{
    let opcode = get_opcode(bytes);
    let f3 = get_f3(bytes);
    if opcode == 0x0F && f3 == 0 {
        Err(unimplemented("FENCE"))
    } else if opcode == 0x0F && f3 == 1 {
        Err(unimplemented("FENCE.I"))
    } else {
        Err(invalid_instruction(bytes))
    }
}

} // verus!
