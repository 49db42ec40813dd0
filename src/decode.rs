//! Fields and immediates of a 32-bit RISC-V instruction held as four little-endian bytes.
use vstd::arithmetic::power2::{lemma2_to64, pow2};
use vstd::prelude::*;
use vstd::string::{StrSliceExecFns, StringExecFns};

verus! {

/// The 32-bit instruction word held little-endian in `b` (byte 0 is bits [7:0]).
pub open spec fn word(b: Seq<u8>) -> u32 {
    (b[0] as u32) | ((b[1] as u32) << 8u32) | ((b[2] as u32) << 16u32) | ((b[3] as u32) << 24u32)
}

/// Bits [6:0].
pub open spec fn opcode_of(w: u32) -> u32 {
    w & 0x7F
}

/// Bits [11:7].
pub open spec fn rd_of(w: u32) -> u32 {
    (w >> 7u32) & 0x1F
}

/// Bits [14:12].
pub open spec fn funct3_of(w: u32) -> u32 {
    (w >> 12u32) & 0x7
}

/// Bits [19:15].
pub open spec fn rs1_of(w: u32) -> u32 {
    (w >> 15u32) & 0x1F
}

/// Bits [24:20].
pub open spec fn rs2_of(w: u32) -> u32 {
    (w >> 20u32) & 0x1F
}

/// Bits [31:25].
pub open spec fn funct7_of(w: u32) -> u32 {
    w >> 25u32
}

/// The value of `v` read as a two's-complement number of `width` bits.
pub open spec fn sign_extend(v: int, width: nat) -> int {
    if v < pow2((width - 1) as nat) {
        v
    } else {
        v - pow2(width)
    }
}

/// The raw I-immediate: `inst[31:20]`.
pub open spec fn i_imm_bits(w: u32) -> u32 {
    w >> 20u32
}

/// The raw S-immediate: `inst[31:25] || inst[11:7]`.
pub open spec fn s_imm_bits(w: u32) -> u32 {
    ((w >> 25u32) << 5u32) | ((w >> 7u32) & 0x1F)
}

/// The raw B-immediate: `inst[31] || inst[7] || inst[30:25] || inst[11:8] || 0`.
pub open spec fn b_imm_bits(w: u32) -> u32 {
    (((w >> 31u32) & 1) << 12u32) | (((w >> 7u32) & 1) << 11u32) | (((w >> 25u32) & 0x3F) << 5u32)
        | (((w >> 8u32) & 0xF) << 1u32)
}

/// The raw J-immediate: `inst[31] || inst[19:12] || inst[20] || inst[30:21] || 0`.
pub open spec fn j_imm_bits(w: u32) -> u32 {
    (((w >> 31u32) & 1) << 20u32) | (((w >> 12u32) & 0xFF) << 12u32) | (((w >> 20u32) & 1) << 11u32)
        | (((w >> 21u32) & 0x3FF) << 1u32)
}

/// The I-immediate as a signed value.
pub open spec fn imm_i(w: u32) -> int {
    sign_extend(i_imm_bits(w) as int, 12)
}

/// The S-immediate as a signed value.
pub open spec fn imm_s(w: u32) -> int {
    sign_extend(s_imm_bits(w) as int, 12)
}

/// The B-immediate as a signed value.
pub open spec fn imm_b(w: u32) -> int {
    sign_extend(b_imm_bits(w) as int, 13)
}

/// The U-immediate: `inst[31:12] << 12`, whose sign is already in place.
pub open spec fn imm_u(w: u32) -> int {
    sign_extend((w & 0xFFFF_F000) as int, 32)
}

/// The J-immediate as a signed value.
pub open spec fn imm_j(w: u32) -> int {
    sign_extend(j_imm_bits(w) as int, 21)
}

/// Every field fits its width.
pub proof fn lemma_field_bounds(w: u32)
    ensures
        opcode_of(w) < 128,
        rd_of(w) < 32,
        funct3_of(w) < 8,
        rs1_of(w) < 32,
        rs2_of(w) < 32,
        funct7_of(w) < 128,
        i_imm_bits(w) < 0x1000,
{
    assert(w & 0x7F < 128 && (w >> 7u32) & 0x1F < 32 && (w >> 12u32) & 0x7 < 8 && (w >> 15u32) & 0x1F
        < 32 && (w >> 20u32) & 0x1F < 32 && w >> 25u32 < 128 && w >> 20u32 < 0x1000) by (bit_vector);
}

/// The instruction word of `bytes`.
pub fn inst_word(bytes: &[u8; 4]) -> (w: u32)
    ensures
        w == word(bytes@),
{
    (bytes[0] as u32) | ((bytes[1] as u32) << 8u32) | ((bytes[2] as u32) << 16u32) | ((bytes[3] as u32)
        << 24u32)
}

/// The opcode: bits [6:0].
pub fn get_opcode(bytes: &[u8; 4]) -> (r: u8)
    ensures
        r == opcode_of(word(bytes@)),
{
    let w = inst_word(bytes);
    proof {
        lemma_field_bounds(w);
    }
    (w & 0x7F) as u8
}

/// The destination register: bits [11:7].
pub fn get_rd(bytes: &[u8; 4]) -> (r: u8)
    ensures
        r == rd_of(word(bytes@)),
        r < 32,
{
    let w = inst_word(bytes);
    proof {
        lemma_field_bounds(w);
    }
    ((w >> 7u32) & 0x1F) as u8
}

/// funct3: bits [14:12].
pub fn get_f3(bytes: &[u8; 4]) -> (r: u8)
    ensures
        r == funct3_of(word(bytes@)),
        r < 8,
{
    let w = inst_word(bytes);
    proof {
        lemma_field_bounds(w);
    }
    ((w >> 12u32) & 0x7) as u8
}

/// The first source register: bits [19:15].
pub fn get_rs1(bytes: &[u8; 4]) -> (r: u8)
    ensures
        r == rs1_of(word(bytes@)),
        r < 32,
{
    let w = inst_word(bytes);
    proof {
        lemma_field_bounds(w);
    }
    ((w >> 15u32) & 0x1F) as u8
}

/// The second source register: bits [24:20].
pub fn get_rs2(bytes: &[u8; 4]) -> (r: u8)
    ensures
        r == rs2_of(word(bytes@)),
        r < 32,
{
    let w = inst_word(bytes);
    proof {
        lemma_field_bounds(w);
    }
    ((w >> 20u32) & 0x1F) as u8
}

/// funct7: bits [31:25].
pub fn get_f7(bytes: &[u8; 4]) -> (r: u8)
    ensures
        r == funct7_of(word(bytes@)),
        r < 128,
{
    let w = inst_word(bytes);
    proof {
        lemma_field_bounds(w);
    }
    (w >> 25u32) as u8
}

/// Length in bits of the instruction that starts with `first_byte`; -1 stands for 80 bits or more.
pub open spec fn instruction_length(first_byte: u8) -> int {
    if first_byte & 0x03 != 0x03 {
        16
    } else if first_byte & 0x1F != 0x1F {
        32
    } else if first_byte & 0x3F == 0x1F {
        48
    } else if first_byte & 0x7F == 0x3F {
        64
    } else {
        -1
    }
}

/// Classifies an instruction by its first byte: 16, 32, 48, 64, or -1 for 80 bits or more.
pub fn get_bits(first_byte: u8) -> (r: i32)
    ensures
        r == instruction_length(first_byte),
{
    if first_byte & 0x03 != 0x03 {
        16
    } else if first_byte & 0x1F != 0x1F {
        32
    } else if first_byte & 0x3F == 0x1F {
        48
    } else if first_byte & 0x7F == 0x3F {
        64
    } else {
        -1
    }
}

/// The sign-extended I-immediate.
pub fn decode_i_type_immediate(bytes: &[u8; 4]) -> (r: i32)
    ensures
        r == imm_i(word(bytes@)),
{
    let w = inst_word(bytes);
    let r = (w as i32) >> 20u32;
    proof {
        lemma2_to64();
        assert(r as int == if w >> 20u32 < 0x800 {
            (w >> 20u32) as int
        } else {
            (w >> 20u32) as int - 0x1000
        }) by (bit_vector)
            requires
                r == (w as i32) >> 20u32,
        ;
    }
    r
}

/// The sign-extended S-immediate.
pub fn decode_s_type_immediate(bytes: &[u8; 4]) -> (r: i32)
    ensures
        r == imm_s(word(bytes@)),
{
    let w = inst_word(bytes);
    let bits = ((w >> 25u32) << 5u32) | ((w >> 7u32) & 0x1F);
    let r = ((bits << 20u32) as i32) >> 20u32;
    proof {
        lemma2_to64();
        assert(bits < 0x1000 && r as int == if bits < 0x800 {
            bits as int
        } else {
            bits as int - 0x1000
        }) by (bit_vector)
            requires
                bits == ((w >> 25u32) << 5u32) | ((w >> 7u32) & 0x1F),
                r == ((bits << 20u32) as i32) >> 20u32,
        ;
    }
    r
}

/// The sign-extended B-immediate (always even).
pub fn decode_sb_immediate(bytes: &[u8; 4]) -> (r: i32)
    ensures
        r == imm_b(word(bytes@)),
        r % 2 == 0,
{
    let w = inst_word(bytes);
    let bits = (((w >> 31u32) & 1) << 12u32) | (((w >> 7u32) & 1) << 11u32) | (((w >> 25u32) & 0x3F)
        << 5u32) | (((w >> 8u32) & 0xF) << 1u32);
    let r = ((bits << 19u32) as i32) >> 19u32;
    proof {
        lemma2_to64();
        assert(bits & 1 == 0 && r as int == if bits < 0x1000 {
            bits as int
        } else {
            bits as int - 0x2000
        }) by (bit_vector)
            requires
                bits == (((w >> 31u32) & 1) << 12u32) | (((w >> 7u32) & 1) << 11u32) | (((w
                    >> 25u32) & 0x3F) << 5u32) | (((w >> 8u32) & 0xF) << 1u32),
                r == ((bits << 19u32) as i32) >> 19u32,
        ;
        assert(bits % 2 == 0) by (bit_vector)
            requires
                bits & 1 == 0,
        ;
    }
    r
}

/// The U-immediate: the upper 20 bits in place, lower 12 bits zero.
pub fn decode_u_type_immediate(bytes: &[u8; 4]) -> (r: i32)
    ensures
        r == imm_u(word(bytes@)),
{
    let w = inst_word(bytes);
    let r = (w & 0xFFFF_F000) as i32;
    proof {
        lemma2_to64();
        assert(r as int == if (w & 0xFFFF_F000) < 0x8000_0000 {
            (w & 0xFFFF_F000) as int
        } else {
            (w & 0xFFFF_F000) as int - 0x1_0000_0000
        }) by (bit_vector)
            requires
                r == (w & 0xFFFF_F000) as i32,
        ;
    }
    r
}

/// The sign-extended J-immediate (always even).
pub fn decode_uj_type_immediate(bytes: &[u8; 4]) -> (r: i32)
    ensures
        r == imm_j(word(bytes@)),
        r % 2 == 0,
{
    let w = inst_word(bytes);
    let bits = (((w >> 31u32) & 1) << 20u32) | (((w >> 12u32) & 0xFF) << 12u32) | (((w >> 20u32) & 1)
        << 11u32) | (((w >> 21u32) & 0x3FF) << 1u32);
    let r = ((bits << 11u32) as i32) >> 11u32;
    proof {
        lemma2_to64();
        assert(bits % 2 == 0 && r as int == if bits < 0x10_0000 {
            bits as int
        } else {
            bits as int - 0x20_0000
        }) by (bit_vector)
            requires
                bits == (((w >> 31u32) & 1) << 20u32) | (((w >> 12u32) & 0xFF) << 12u32) | (((w
                    >> 20u32) & 1) << 11u32) | (((w >> 21u32) & 0x3FF) << 1u32),
                r == ((bits << 11u32) as i32) >> 11u32,
        ;
    }
    r
}

/// `w` with its I-immediate field set to the low 12 bits of `v`.
pub open spec fn with_i_imm(w: u32, v: i32) -> u32 {
    (w & 0x000F_FFFF) | ((v as u32) << 20u32)
}

/// `w` with its S-immediate fields set to the low 12 bits of `v`.
pub open spec fn with_s_imm(w: u32, v: i32) -> u32 {
    (w & 0x01FF_F07F) | ((((v as u32) >> 5u32) & 0x7F) << 25u32) | (((v as u32) & 0x1F) << 7u32)
}

/// `w` with its B-immediate fields set to bits [12:1] of `v`.
pub open spec fn with_b_imm(w: u32, v: i32) -> u32 {
    (w & 0x01FF_F07F) | ((((v as u32) >> 12u32) & 1) << 31u32) | ((((v as u32) >> 5u32) & 0x3F)
        << 25u32) | ((((v as u32) >> 1u32) & 0xF) << 8u32) | ((((v as u32) >> 11u32) & 1) << 7u32)
}

/// `w` with its J-immediate fields set to bits [20:1] of `v`.
pub open spec fn with_j_imm(w: u32, v: i32) -> u32 {
    (w & 0x0000_0FFF) | ((((v as u32) >> 20u32) & 1) << 31u32) | ((((v as u32) >> 1u32) & 0x3FF)
        << 21u32) | ((((v as u32) >> 11u32) & 1) << 20u32) | ((((v as u32) >> 12u32) & 0xFF)
        << 12u32)
}

/// Any value of the signed 12-bit range, written into an I-type word, decodes to itself.
pub proof fn lemma_i_imm_round_trip(w: u32, v: i32)
    requires
        -2048 <= v < 2048,
    ensures
        imm_i(with_i_imm(w, v)) == v,
{
    lemma2_to64();
    assert((if i_imm_bits(with_i_imm(w, v)) < 0x800 {
        i_imm_bits(with_i_imm(w, v)) as int
    } else {
        i_imm_bits(with_i_imm(w, v)) as int - 0x1000
    }) == v) by (bit_vector)
        requires
            -2048 <= v < 2048,
    ;
}

/// Any value of the signed 12-bit range, written into an S-type word, decodes to itself.
pub proof fn lemma_s_imm_round_trip(w: u32, v: i32)
    requires
        -2048 <= v < 2048,
    ensures
        imm_s(with_s_imm(w, v)) == v,
{
    lemma2_to64();
    assert((if s_imm_bits(with_s_imm(w, v)) < 0x800 {
        s_imm_bits(with_s_imm(w, v)) as int
    } else {
        s_imm_bits(with_s_imm(w, v)) as int - 0x1000
    }) == v) by (bit_vector)
        requires
            -2048 <= v < 2048,
    ;
}

/// Any even value of the signed 13-bit range, written into a B-type word, decodes to itself.
pub proof fn lemma_b_imm_round_trip(w: u32, v: i32)
    requires
        -4096 <= v < 4096,
        v % 2 == 0,
    ensures
        imm_b(with_b_imm(w, v)) == v,
{
    lemma2_to64();
    assert((if b_imm_bits(with_b_imm(w, v)) < 0x1000 {
        b_imm_bits(with_b_imm(w, v)) as int
    } else {
        b_imm_bits(with_b_imm(w, v)) as int - 0x2000
    }) == v) by (bit_vector)
        requires
            -4096 <= v < 4096,
            v % 2 == 0,
    ;
}

/// Any even value of the signed 21-bit range, written into a J-type word, decodes to itself.
pub proof fn lemma_j_imm_round_trip(w: u32, v: i32)
    requires
        -0x10_0000 <= v < 0x10_0000,
        v % 2 == 0,
    ensures
        imm_j(with_j_imm(w, v)) == v,
{
    lemma2_to64();
    assert((if j_imm_bits(with_j_imm(w, v)) < 0x10_0000 {
        j_imm_bits(with_j_imm(w, v)) as int
    } else {
        j_imm_bits(with_j_imm(w, v)) as int - 0x20_0000
    }) == v) by (bit_vector)
        requires
            -0x10_0000 <= v < 0x10_0000,
            v % 2 == 0,
    ;
}

/// The lower-case hexadecimal digit for `n` (`n < 16`).
pub open spec fn hex_digit(n: u8) -> char {
    seq!['0', '1', '2', '3', '4', '5', '6', '7', '8', '9', 'a', 'b', 'c', 'd', 'e', 'f'][n as int]
}

/// Two lower-case hex digits per byte, high nibble first, bytes in order.
pub open spec fn hex_of(b: Seq<u8>) -> Seq<char> {
    Seq::new(
        2 * b.len(),
        |i: int|
            if i % 2 == 0 {
                hex_digit(b[i / 2] / 16)
            } else {
                hex_digit(b[i / 2] % 16)
            },
    )
}

const HEX_DIGITS: &'static str = "0123456789abcdef";

fn push_hex_digit(s: &mut String, n: u8)
    requires
        n < 16,
    ensures
        final(s)@ == old(s)@.push(hex_digit(n)),
{
    proof {
        reveal_strlit("0123456789abcdef");
    }
    let digit = HEX_DIGITS.substring_ascii(n as usize, n as usize + 1);
    s.append(digit);
    assert(digit@ =~= seq![hex_digit(n)]);
}

/// The bytes as lower-case hex, two digits each, in order.
pub fn encode_hex(bytes: &[u8]) -> (s: String)
    ensures
        s@ == hex_of(bytes@),
{
    let mut s = String::new();
    let mut i: usize = 0;
    while i < bytes.len()
        invariant
            i <= bytes@.len(),
            s@ =~= hex_of(bytes@.subrange(0, i as int)),
        decreases bytes@.len() - i,
    {
        let b = bytes[i];
        push_hex_digit(&mut s, b / 16);
        push_hex_digit(&mut s, b % 16);
        i = i + 1;
        assert(s@ =~= hex_of(bytes@.subrange(0, i as int)));
    }
    assert(bytes@.subrange(0, i as int) =~= bytes@);
    s
}

} // verus!
