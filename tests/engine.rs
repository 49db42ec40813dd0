use rv32emu::handlers::{
    handle_fence, handle_i_type, handle_r_type, handle_s_type, handle_sb_type, handle_u_type,
    handle_uj_type,
};
use rv32emu::machine::{fetch_inst, FetchError, Halt, Machine};
use rv32emu::types::{ExecutionError, Extensions};

fn program(words: &[u32]) -> Vec<u8> {
    let mut imem = Vec::new();
    for w in words {
        imem.extend_from_slice(&w.to_le_bytes());
    }
    imem
}

fn run_steps(m: &mut Machine, n: usize) {
    for _ in 0..n {
        assert_eq!(m.step(), Ok(None));
    }
}

fn le(w: u32) -> [u8; 4] {
    w.to_le_bytes()
}

#[test]
fn add_after_two_addi() {
    // addi x1, x0, 7; addi x2, x0, 5; add x3, x1, x2
    let mut m = Machine::new(program(&[0x00700093, 0x00500113, 0x002081B3]), Extensions::base());
    run_steps(&mut m, 3);
    assert_eq!(m.regfile[1], 7);
    assert_eq!(m.regfile[2], 5);
    assert_eq!(m.regfile[3], 12);
    assert_eq!(m.pc, 12);
    assert_eq!(m.step(), Err(Halt::Fetch(FetchError::EndOfImem)));
}

#[test]
fn lui_all_ones_upper() {
    // lui x5, 0xFFFFF
    let mut m = Machine::new(program(&[0xFFFFF2B7]), Extensions::base());
    run_steps(&mut m, 1);
    assert_eq!(m.regfile[5], 0xFFFFF000);
    assert_eq!(m.pc, 4);
}

#[test]
fn auipc_zero_at_start() {
    // auipc x6, 0
    let mut m = Machine::new(program(&[0x00000317]), Extensions::base());
    m.regfile[6] = 0x55;
    run_steps(&mut m, 1);
    assert_eq!(m.regfile[6], 0);
    assert_eq!(m.pc, 4);
}

#[test]
fn branch_not_taken_falls_through() {
    // addi x1, x0, 1; beq x1, x0, +8; addi x2, x0, 42
    let mut m = Machine::new(program(&[0x00100093, 0x00008463, 0x02A00113]), Extensions::base());
    run_steps(&mut m, 3);
    assert_eq!(m.regfile[2], 42);
    assert_eq!(m.pc, 12);
}

#[test]
fn branch_taken_skips_one() {
    // addi x1, x0, 1; bne x1, x0, +8; addi x2, x0, 42; addi x3, x0, 99
    let mut m = Machine::new(
        program(&[0x00100093, 0x00009463, 0x02A00113, 0x06300193]),
        Extensions::base(),
    );
    run_steps(&mut m, 2);
    assert_eq!(m.pc, 12);
    run_steps(&mut m, 1);
    assert_eq!(m.regfile[2], 0);
    assert_eq!(m.regfile[3], 99);
    assert_eq!(m.step(), Err(Halt::Fetch(FetchError::EndOfImem)));
}

#[test]
fn divide_with_m_extension() {
    // addi x1, x0, -1; addi x2, x0, 1; divu x3, x1, x2; div x4, x1, x2
    let mut m = Machine::new(
        program(&[0xFFF00093, 0x00100113, 0x0220D1B3, 0x0220C233]),
        Extensions::with_m(),
    );
    run_steps(&mut m, 4);
    assert_eq!(m.regfile[3], 0xFFFFFFFF);
    assert_eq!(m.regfile[4], 0xFFFFFFFF);
    assert_eq!(m.regfile[4] as i32, -1);
}

#[test]
fn m_instruction_without_extension() {
    let mut m = Machine::new(program(&[0xFFF00093, 0x00100113, 0x0220D1B3]), Extensions::base());
    run_steps(&mut m, 2);
    let r = m.step();
    assert_eq!(r, Err(Halt::Fault(ExecutionError::Extension("M".to_string()))));
    assert_eq!(m.regfile[3], 0);
    assert_eq!(m.pc, 8);
    if let Err(Halt::Fault(e)) = r {
        assert_eq!(e.message(), "The M extension was not activated");
    }
}

#[test]
fn write_to_x0_is_discarded() {
    // addi x0, x0, 5
    let mut m = Machine::new(program(&[0x00500013]), Extensions::base());
    run_steps(&mut m, 1);
    assert_eq!(m.regfile[0], 0);
    assert_eq!(m.regfile.len(), 32);
    assert_eq!(m.pc, 4);
}

fn regs() -> Vec<u32> {
    vec![0u32; 32]
}

#[test]
fn division_edge_cases() {
    let ext = Extensions::with_m();
    let cases: [(u32, u32, u32, u32); 8] = [
        // (funct3, rs1, rs2, expected)
        (5, 1234, 0, 0xFFFFFFFF),       // divu by zero
        (7, 1234, 0, 1234),             // remu by zero
        (4, 0x80000000, 0xFFFFFFFF, 0x80000000), // div overflow
        (6, 0x80000000, 0xFFFFFFFF, 0), // rem overflow
        (4, 1234, 0, 0xFFFFFFFF),       // div by zero
        (6, (-7i32) as u32, 0, (-7i32) as u32), // rem by zero
        (4, (-7i32) as u32, 2, (-3i32) as u32), // truncating division
        (6, (-7i32) as u32, 2, (-1i32) as u32), // remainder takes the dividend's sign
    ];
    for (f3, a, b, expected) in cases {
        let mut r = regs();
        r[1] = a;
        r[2] = b;
        let mut pc = 0u32;
        let w = (1 << 25) | (2 << 20) | (1 << 15) | (f3 << 12) | (3 << 7) | 0x33;
        assert_eq!(handle_r_type(&mut r, &le(w), &mut pc, &ext), Ok(()));
        assert_eq!(r[3], expected, "funct3 {}", f3);
        assert_eq!(pc, 4);
    }
}

#[test]
fn multiply_high_words() {
    let ext = Extensions::with_m();
    let cases: [(u32, u32, u32, u32); 5] = [
        (0, 0xFFFFFFFF, 0xFFFFFFFF, 1),          // mul: low word
        (1, 0xFFFFFFFF, 0xFFFFFFFF, 0),          // mulh: (-1)(-1) = 1
        (1, 0x80000000, 0x80000000, 0x40000000), // mulh: 2^62
        (2, 0xFFFFFFFF, 0xFFFFFFFF, 0xFFFFFFFF), // mulhsu: -1 * (2^32 - 1)
        (3, 0xFFFFFFFF, 0xFFFFFFFF, 0xFFFFFFFE), // mulhu
    ];
    for (f3, a, b, expected) in cases {
        let mut r = regs();
        r[1] = a;
        r[2] = b;
        let mut pc = 0u32;
        let w = (1 << 25) | (2 << 20) | (1 << 15) | (f3 << 12) | (3 << 7) | 0x33;
        assert_eq!(handle_r_type(&mut r, &le(w), &mut pc, &ext), Ok(()));
        assert_eq!(r[3], expected, "funct3 {}", f3);
    }
}

#[test]
fn shifts_use_low_five_bits() {
    let ext = Extensions::base();
    let mut r = regs();
    r[1] = 0x80000000;
    r[2] = 33; // shift amount 1
    let mut pc = 0u32;
    // sra x3, x1, x2
    assert_eq!(handle_r_type(&mut r, &le(0x4020D1B3), &mut pc, &ext), Ok(()));
    assert_eq!(r[3], 0xC0000000);
    // srai x3, x1, 4
    let mem = vec![0u8; 16];
    assert_eq!(handle_i_type(&mut r, &mem, &le(0x4040D193), &mut pc, &ext), Ok(None));
    assert_eq!(r[3], 0xF8000000);
    assert_eq!(pc, 8);
}

#[test]
fn signed_branch_ge() {
    // bge x1, x2, +8
    let ext = Extensions::base();
    let mut r = regs();
    r[1] = 5;
    r[2] = (-3i32) as u32;
    let mut pc = 100u32;
    assert_eq!(handle_sb_type(&r, &le(0x0020D463), &mut pc, &ext), Ok(()));
    assert_eq!(pc, 108);
    r[1] = (-4i32) as u32;
    let mut pc = 100u32;
    assert_eq!(handle_sb_type(&r, &le(0x0020D463), &mut pc, &ext), Ok(()));
    assert_eq!(pc, 104);
}

#[test]
fn misaligned_targets_fault() {
    let ext = Extensions::base();
    let mut r = regs();
    let mut pc = 0u32;
    // beq x0, x0, +6
    assert_eq!(
        handle_sb_type(&r, &le(0x00000363), &mut pc, &ext),
        Err(ExecutionError::InstructionAddressMisaligned)
    );
    assert_eq!(pc, 0);
    // jal x1, +6
    assert_eq!(
        handle_uj_type(&mut r, &le(0x006000EF), &mut pc, &ext),
        Err(ExecutionError::InstructionAddressMisaligned)
    );
    assert_eq!(r[1], 0);
    // jalr x1, 0(x2) with x2 = 6: target 6 & !1 = 6
    r[2] = 6;
    let mem = vec![0u8; 16];
    assert_eq!(
        handle_i_type(&mut r, &mem, &le(0x000100E7), &mut pc, &ext),
        Err(ExecutionError::InstructionAddressMisaligned)
    );
    assert_eq!(pc, 0);
}

#[test]
fn jumps_link_and_move() {
    let ext = Extensions::base();
    let mut r = regs();
    let mut pc = 16u32;
    // jal x1, +8
    assert_eq!(handle_uj_type(&mut r, &le(0x008000EF), &mut pc, &ext), Ok(()));
    assert_eq!(r[1], 20);
    assert_eq!(pc, 24);
    // jalr x1, 0(x2) with x2 = 9: target 9 & !1 = 8
    r[2] = 9;
    let mem = vec![0u8; 16];
    assert_eq!(handle_i_type(&mut r, &mem, &le(0x000100E7), &mut pc, &ext), Ok(None));
    assert_eq!(r[1], 28);
    assert_eq!(pc, 8);
}

#[test]
fn store_then_load_round_trip() {
    let ext = Extensions::base();
    let mut r = regs();
    let mut mem = vec![0u8; 64];
    r[5] = 8;
    r[6] = 0xDEADBEEF;
    let mut pc = 0u32;
    // sw x6, 0(x5); lw x7, 0(x5)
    assert_eq!(handle_s_type(&r, &mut mem, &le(0x0062A023), &mut pc, &ext), Ok(()));
    assert_eq!(&mem[8..12], &[0xEF, 0xBE, 0xAD, 0xDE]);
    assert_eq!(handle_i_type(&mut r, &mem, &le(0x0002A383), &mut pc, &ext), Ok(None));
    assert_eq!(r[7], 0xDEADBEEF);
    // sh x6, 0(x5) at 16; lhu x7, 0(x5)
    r[5] = 16;
    r[6] = 0xBEEF;
    assert_eq!(handle_s_type(&r, &mut mem, &le(0x00629023), &mut pc, &ext), Ok(()));
    assert_eq!(handle_i_type(&mut r, &mem, &le(0x0002D383), &mut pc, &ext), Ok(None));
    assert_eq!(r[7], 0xBEEF);
    // sb x6, 0(x5) at 24; lbu x7, 0(x5)
    r[5] = 24;
    r[6] = 0x7A;
    assert_eq!(handle_s_type(&r, &mut mem, &le(0x00628023), &mut pc, &ext), Ok(()));
    assert_eq!(handle_i_type(&mut r, &mem, &le(0x0002C383), &mut pc, &ext), Ok(None));
    assert_eq!(r[7], 0x7A);
    assert_eq!(pc, 24);
}

#[test]
fn signed_byte_load() {
    let ext = Extensions::base();
    let mut r = regs();
    let mut mem = vec![0u8; 64];
    r[5] = 3;
    r[6] = 0xFF;
    let mut pc = 0u32;
    // sb x6, 0(x5); lb x7, 0(x5)
    assert_eq!(handle_s_type(&r, &mut mem, &le(0x00628023), &mut pc, &ext), Ok(()));
    assert_eq!(handle_i_type(&mut r, &mem, &le(0x00028383), &mut pc, &ext), Ok(None));
    assert_eq!(r[7], 0xFFFFFFFF);
}

#[test]
fn access_outside_memory_faults() {
    let ext = Extensions::base();
    let mut r = regs();
    let mut mem = vec![0u8; 8];
    r[5] = 6;
    let mut pc = 0u32;
    // sw x6, 0(x5) at 6 reaches byte 9
    assert_eq!(
        handle_s_type(&r, &mut mem, &le(0x0062A023), &mut pc, &ext),
        Err(ExecutionError::MemoryOutOfBounds)
    );
    assert_eq!(mem, vec![0u8; 8]);
    // lw x7, -4(x0) wraps to 0xFFFFFFFC
    assert_eq!(
        handle_i_type(&mut r, &mem, &le(0xFFC02383), &mut pc, &ext),
        Err(ExecutionError::MemoryOutOfBounds)
    );
    assert_eq!(pc, 0);
}

#[test]
fn ecall_services() {
    let ext = Extensions::base();
    let mem = vec![0u8; 4];
    let mut r = regs();
    let mut pc = 40u32;
    r[10] = 1;
    r[11] = (-5i32) as u32;
    assert_eq!(handle_i_type(&mut r, &mem, &le(0x00000073), &mut pc, &ext), Ok(Some(-5)));
    assert_eq!(pc, 40);
    r[10] = 10;
    assert_eq!(
        handle_i_type(&mut r, &mem, &le(0x00000073), &mut pc, &ext),
        Err(ExecutionError::UserTerminate)
    );
    r[10] = 3;
    assert_eq!(handle_i_type(&mut r, &mem, &le(0x00000073), &mut pc, &ext), Ok(None));
    assert_eq!(pc, 40);
}

#[test]
fn ecall_pc_policy_in_machine() {
    // addi x10, x0, 1; addi x11, x0, -5; ecall; addi x10, x0, 10; ecall
    let words = [0x00100513, 0xFFB00593, 0x00000073, 0x00A00513, 0x00000073];
    let mut m = Machine::new(program(&words), Extensions::base());
    run_steps(&mut m, 2);
    assert_eq!(m.step(), Ok(Some(-5)));
    assert_eq!(m.pc, 12);
    run_steps(&mut m, 1);
    assert_eq!(m.step(), Err(Halt::Fault(ExecutionError::UserTerminate)));

    let mut m = Machine::new(program(&words), Extensions::base());
    m.advance_pc_on_ecall = false;
    run_steps(&mut m, 2);
    assert_eq!(m.step(), Ok(Some(-5)));
    assert_eq!(m.pc, 8);
}

#[test]
fn unimplemented_and_invalid_instructions() {
    let ext = Extensions::base();
    let mem = vec![0u8; 4];
    let mut r = regs();
    let mut pc = 0u32;
    assert_eq!(
        handle_i_type(&mut r, &mem, &le(0x02000073), &mut pc, &ext),
        Err(ExecutionError::Unimplemented("ebreak".to_string()))
    );
    assert_eq!(
        handle_i_type(&mut r, &mem, &le(0x00001073), &mut pc, &ext),
        Err(ExecutionError::Unimplemented("csrrw".to_string()))
    );
    assert_eq!(
        handle_fence(&mut r, &le(0x0000000F), &mut pc),
        Err(ExecutionError::Unimplemented("FENCE".to_string()))
    );
    assert_eq!(
        handle_fence(&mut r, &le(0x0000100F), &mut pc),
        Err(ExecutionError::Unimplemented("FENCE.I".to_string()))
    );
    // R-type with funct7 0x02 names no operation
    let e = handle_r_type(&mut r, &le(0x042081B3), &mut pc, &ext).unwrap_err();
    assert_eq!(e, ExecutionError::InvalidInstruction("b3812004".to_string()));
    assert_eq!(e.message(), "b3812004 is an invalid instruction");
    // store with funct3 3
    let mut m2 = vec![0u8; 4];
    assert_eq!(
        handle_s_type(&r, &mut m2, &le(0x0062B023), &mut pc, &ext),
        Err(ExecutionError::InvalidInstruction("23b06200".to_string()))
    );
    // U handler given a J opcode
    assert_eq!(
        handle_u_type(&mut r, &le(0x008000EF), &mut pc, &ext),
        Err(ExecutionError::InvalidInstruction("ef008000".to_string()))
    );
    assert_eq!(pc, 0);
    assert_eq!(
        ExecutionError::Unimplemented("FENCE".to_string()).message(),
        "The FENCE instruction is not implemented"
    );
    assert_eq!(
        ExecutionError::InstructionAddressMisaligned.message(),
        "Instruction address misaligned exception"
    );
    assert_eq!(ExecutionError::UserTerminate.message(), "The user terminated the program");
}

#[test]
fn fetch_classifies() {
    assert_eq!(fetch_inst(0, &vec![0x93, 0, 0x70]), Err(FetchError::EndOfImem));
    assert_eq!(fetch_inst(0, &vec![0x01, 0, 0, 0]), Err(FetchError::UnsupportedLength(16)));
    assert_eq!(fetch_inst(0, &vec![0xFF, 0xFF, 0xFF, 0xFF]), Err(FetchError::UnsupportedLength(-1)));
    assert_eq!(fetch_inst(4, &program(&[0x00000013, 0x00700093])), Ok([0x93, 0x00, 0x70, 0x00]));
}

#[test]
fn unknown_opcode_stops_run() {
    // opcode 0x0B is no RV32I opcode
    let mut m = Machine::new(program(&[0x0000000B]), Extensions::base());
    assert_eq!(
        m.step(),
        Err(Halt::Fault(ExecutionError::InvalidInstruction("0b000000".to_string())))
    );
    assert_eq!(m.pc, 0);
}
