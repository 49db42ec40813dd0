//! Little-endian loads and stores on the byte-addressed data memory.
use crate::alu::wrap;
use crate::decode::sign_extend;
use vstd::arithmetic::power2::lemma2_to64;
use vstd::prelude::*;

verus! {

/// Size of the data memory: 4 MiB.
pub const MEM_SIZE: usize = 0x40_0000;

/// Number of bytes that the load or store with this funct3 moves (`lb`/`sb` 1, `lh`/`sh` 2, `lw`/`sw` 4).
pub open spec fn access_size(f3: u32) -> int {
    if f3 % 4 == 0 {
        1
    } else if f3 % 4 == 1 {
        2
    } else {
        4
    }
}

/// The loads: `lb`, `lh`, `lw`, `lbu`, `lhu`.
pub open spec fn is_load_funct3(f3: u32) -> bool {
    f3 == 0 || f3 == 1 || f3 == 2 || f3 == 4 || f3 == 5
}

/// The stores: `sb`, `sh`, `sw`.
pub open spec fn is_store_funct3(f3: u32) -> bool {
    f3 == 0 || f3 == 1 || f3 == 2
}

/// The access of `size` bytes at `a` lies inside a memory of `len` bytes.
pub open spec fn in_bounds(a: u32, size: int, len: int) -> bool {
    a + size <= len
}

/// The halfword stored little-endian at `a`.
pub open spec fn half_at(m: Seq<u8>, a: int) -> int {
    m[a] + 0x100 * m[a + 1]
}

/// The word stored little-endian at `a`.
pub open spec fn word_at(m: Seq<u8>, a: int) -> int {
    half_at(m, a) + 0x1_0000 * half_at(m, a + 2)
}

/// The register value that the load with funct3 `f3` reads at `a`.
pub open spec fn load_value(f3: u32, m: Seq<u8>, a: int) -> u32 {
    if f3 == 0 {
        wrap(sign_extend(m[a] as int, 8))
    } else if f3 == 1 {
        wrap(sign_extend(half_at(m, a), 16))
    } else if f3 == 2 {
        word_at(m, a) as u32
    } else if f3 == 4 {
        m[a] as u32
    } else {
        half_at(m, a) as u32
    }
}

/// Byte `k` (0 lowest) of `v`.
pub open spec fn le_byte(v: u32, k: int) -> u8 {
    (if k == 0 {
        v % 0x100
    } else if k == 1 {
        (v / 0x100) % 0x100
    } else if k == 2 {
        (v / 0x1_0000) % 0x100
    } else {
        v / 0x100_0000
    }) as u8
}

/// `m` after the low `size` bytes of `v` are written little-endian at `a`.
pub open spec fn store_value(m: Seq<u8>, a: int, size: int, v: u32) -> Seq<u8> {
    Seq::new(m.len(), |i: int| if a <= i < a + size { le_byte(v, i - a) } else { m[i] })
}

/// Reads the value of the load with funct3 `f3` at `a`.
pub fn load(mem: &Vec<u8>, a: u32, f3: u8) -> (r: u32)
    requires
        is_load_funct3(f3 as u32),
        in_bounds(a, access_size(f3 as u32), mem@.len() as int),
    ensures
        r == load_value(f3 as u32, mem@, a as int),
{
    proof {
        lemma2_to64();
    }
    let i = a as usize;
    let _len = mem.len();  // bounds the length by usize::MAX for the index arithmetic below
    let b0 = mem[i] as u32;
    if f3 == 0 {
        if b0 >= 0x80 {
            b0 + 0xFFFF_FF00
        } else {
            b0
        }
    } else if f3 == 4 {
        b0
    } else {
        assert(access_size(f3 as u32) >= 2);
        let half = b0 + 0x100 * (mem[i + 1] as u32);
        if f3 == 1 {
            if half >= 0x8000 {
                half + 0xFFFF_0000
            } else {
                half
            }
        } else if f3 == 5 {
            half
        } else {
            assert(access_size(f3 as u32) == 4);
            half + 0x1_0000 * ((mem[i + 2] as u32) + 0x100 * (mem[i + 3] as u32))
        }
    }
}

/// Writes the low `access_size(f3)` bytes of `v` at `a`.
pub fn store(mem: &mut Vec<u8>, a: u32, f3: u8, v: u32)
    requires
        is_store_funct3(f3 as u32),
        in_bounds(a, access_size(f3 as u32), old(mem)@.len() as int),
    ensures
        final(mem)@ == store_value(old(mem)@, a as int, access_size(f3 as u32), v),
{
    let i = a as usize;
    let _len = mem.len();  // bounds the length by usize::MAX for the index arithmetic below
    mem.set(i, (v % 0x100) as u8);
    if f3 >= 1 {
        assert(access_size(f3 as u32) >= 2);
        mem.set(i + 1, ((v / 0x100) % 0x100) as u8);
    }
    if f3 == 2 {
        assert(access_size(f3 as u32) == 4);
        mem.set(i + 2, ((v / 0x1_0000) % 0x100) as u8);
        mem.set(i + 3, (v / 0x100_0000) as u8);
    }
    assert(mem@ =~= store_value(old(mem)@, a as int, access_size(f3 as u32), v));
}

proof fn lemma_bytes_of_word(v: u32)
    ensures
        v % 0x100 + 0x100 * ((v / 0x100) % 0x100) + 0x1_0000 * ((v / 0x1_0000) % 0x100 + 0x100 * (v
            / 0x100_0000)) == v,
        v % 0x100 + 0x100 * ((v / 0x100) % 0x100) == v % 0x1_0000,
        v / 0x100_0000 < 0x100,
{
    assert(v % 0x100 + 0x100 * ((v / 0x100) % 0x100) + 0x1_0000 * ((v / 0x1_0000) % 0x100 + 0x100 * (v
        / 0x100_0000)) == v && v % 0x100 + 0x100 * ((v / 0x100) % 0x100) == v % 0x1_0000) by (bit_vector);
}

/// A store followed by the unsigned load of the same width at the same address reads back the
/// stored value, cut to that width (`sw`/`lw`, `sh`/`lhu`, `sb`/`lbu`).
pub proof fn lemma_store_load_round_trip(m: Seq<u8>, a: u32, v: u32)
    requires
        in_bounds(a, 4, m.len() as int),
    ensures
        load_value(2, store_value(m, a as int, 4, v), a as int) == v,
        load_value(5, store_value(m, a as int, 2, v), a as int) == v % 0x1_0000,
        load_value(4, store_value(m, a as int, 1, v), a as int) == v % 0x100,
        v < 0x1_0000 ==> load_value(5, store_value(m, a as int, 2, v), a as int) == v,
        v < 0x100 ==> load_value(4, store_value(m, a as int, 1, v), a as int) == v,
{
    lemma_bytes_of_word(v);
}

/// `sb` of 0xFF followed by `lb` at the same address reads 0xFFFFFFFF.
pub proof fn lemma_signed_byte_load(m: Seq<u8>, a: u32)
    requires
        in_bounds(a, 1, m.len() as int),
    ensures
        load_value(0, store_value(m, a as int, 1, 0xFF), a as int) == 0xFFFF_FFFF,
{
    lemma2_to64();
    assert(store_value(m, a as int, 1, 0xFF)[a as int] == 0xFF);
}

} // verus!
