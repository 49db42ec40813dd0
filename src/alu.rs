//! The arithmetic of RV32I and of the M extension, on 32-bit register values.
use vstd::prelude::*;

verus! {

/// `x` reduced modulo 2^32: the register value that wrapping arithmetic leaves.
pub open spec fn wrap(x: int) -> u32 {
    (x % 0x1_0000_0000) as u32
}

/// The register value `a` read as a signed (two's-complement) 32-bit number.
pub open spec fn signed(a: u32) -> int {
    if a < 0x8000_0000 {
        a as int
    } else {
        a as int - 0x1_0000_0000
    }
}

/// |x|.
pub open spec fn abs(x: int) -> int {
    if x < 0 {
        -x
    } else {
        x
    }
}

/// Quotient rounded toward zero (`y != 0`).
pub open spec fn trunc_div(x: int, y: int) -> int {
    if (x < 0) == (y < 0) {
        abs(x) / abs(y)
    } else {
        -(abs(x) / abs(y))
    }
}

/// Remainder of `trunc_div`: it takes the sign of the dividend (`y != 0`).
pub open spec fn trunc_rem(x: int, y: int) -> int {
    if x < 0 {
        -(abs(x) % abs(y))
    } else {
        abs(x) % abs(y)
    }
}

/// Bits [63:32] of `p` written as a 64-bit two's-complement number.
pub open spec fn high_word(p: int) -> u32 {
    ((p as i64) >> 32u64) as u32
}

/// The shift amount that a register or immediate operand gives: its low 5 bits.
pub open spec fn shamt(b: u32) -> u32 {
    b & 0x1F
}

/// The (funct3, funct7) pairs that name an operation of the R-type table.
pub open spec fn r_type_valid(f3: u32, f7: u32) -> bool {
    f3 < 8 && (f7 == 0x00 || f7 == 0x01 || (f7 == 0x20 && (f3 == 0 || f3 == 5)))
}

/// The operations of the M extension: funct7 = 0x01.
pub open spec fn m_value(f3: u32, a: u32, b: u32) -> u32 {
    if f3 == 0 {
        wrap(a * b)
    } else if f3 == 1 {
        high_word(signed(a) * signed(b))
    } else if f3 == 2 {
        high_word(signed(a) * b)
    } else if f3 == 3 {
        high_word(a * b)
    } else if f3 == 4 {
        if b == 0 {
            0xFFFF_FFFF
        } else {
            wrap(trunc_div(signed(a), signed(b)))
        }
    } else if f3 == 5 {
        if b == 0 {
            0xFFFF_FFFF
        } else {
            (a / b) as u32
        }
    } else if f3 == 6 {
        if b == 0 {
            a
        } else {
            wrap(trunc_rem(signed(a), signed(b)))
        }
    } else {
        if b == 0 {
            a
        } else {
            (a % b) as u32
        }
    }
}

/// The value that the R-type operation (funct3, funct7) writes to `rd` for operands `a`, `b`.
pub open spec fn r_type_value(f3: u32, f7: u32, a: u32, b: u32) -> u32 {
    if f7 == 0x01 {
        m_value(f3, a, b)
    } else if f7 == 0x20 {
        if f3 == 0 {
            wrap(a - b)
        } else {
            ((a as i32) >> shamt(b)) as u32
        }
    } else if f3 == 0 {
        wrap(a + b)
    } else if f3 == 1 {
        a << shamt(b)
    } else if f3 == 2 {
        if signed(a) < signed(b) {
            1
        } else {
            0
        }
    } else if f3 == 3 {
        if a < b {
            1
        } else {
            0
        }
    } else if f3 == 4 {
        a ^ b
    } else if f3 == 5 {
        a >> shamt(b)
    } else if f3 == 6 {
        a | b
    } else {
        a & b
    }
}

/// The `i32` reading of a register value is `signed`; a shift amount is below 32.
pub proof fn lemma_signed(a: u32)
    ensures
        (a as i32) as int == signed(a),
        shamt(a) < 32,
{
    assert((a as i32) as int == if a < 0x8000_0000 {
        a as int
    } else {
        a as int - 0x1_0000_0000
    }) by (bit_vector);
    assert(a & 0x1F < 32) by (bit_vector);
}

/// |signed(a)| as a register value (2^31 included).
fn magnitude(a: u32) -> (r: u32)
    ensures
        r as int == abs(signed(a)),
{
    proof {
        lemma_signed(a);
    }
    if (a as i32) < 0 {
        0u32.wrapping_sub(a)
    } else {
        a
    }
}

/// `-x` modulo 2^32.
fn negate(x: u32) -> (r: u32)
    ensures
        r == wrap(-x),
{
    0u32.wrapping_sub(x)
}

/// Bits [63:32] of a product held in an `i64`.
fn mulh(product: i64) -> (r: u32)
    ensures
        r == high_word(product as int),
{
    (product >> 32u64) as u32
}

fn m_op(f3: u8, a: u32, b: u32) -> (r: u32)
    requires
        f3 < 8,
    ensures
        r == m_value(f3 as u32, a, b),
{
    proof {
        lemma_signed(a);
        lemma_signed(b);
    }
    if f3 == 0 {
        a.wrapping_mul(b)
    } else if f3 == 1 {
        let x = (a as i32) as i64;
        let y = (b as i32) as i64;
        assert(-0x4000_0000_0000_0000 <= x * y <= 0x4000_0000_0000_0000) by (nonlinear_arith)
            requires
                -0x8000_0000 <= x < 0x8000_0000,
                -0x8000_0000 <= y < 0x8000_0000,
        ;
        mulh(x * y)
    } else if f3 == 2 {
        let x = (a as i32) as i64;
        let y = b as i64;
        assert(-0x8000_0000_0000_0000 < x * y < 0x8000_0000_0000_0000) by (nonlinear_arith)
            requires
                -0x8000_0000 <= x < 0x8000_0000,
                0 <= y < 0x1_0000_0000,
        ;
        mulh(x * y)
    } else if f3 == 3 {
        let x = a as u64;
        let y = b as u64;
        assert(x * y < 0x1_0000_0000_0000_0000) by (nonlinear_arith)
            requires
                x < 0x1_0000_0000,
                y < 0x1_0000_0000,
        ;
        let p = x * y;
        assert(((p as i64) >> 32u64) as u32 == (p >> 32u64) as u32) by (bit_vector);
        (p >> 32u64) as u32
    } else if f3 == 4 {
        if b == 0 {
            0xFFFF_FFFF
        } else {
            let q = magnitude(a) / magnitude(b);
            if ((a as i32) < 0) != ((b as i32) < 0) {
                negate(q)
            } else {
                q
            }
        }
    } else if f3 == 5 {
        if b == 0 {
            0xFFFF_FFFF
        } else {
            a / b
        }
    } else if f3 == 6 {
        if b == 0 {
            a
        } else {
            let m = magnitude(a) % magnitude(b);
            if (a as i32) < 0 {
                negate(m)
            } else {
                m
            }
        }
    } else {
        if b == 0 {
            a
        } else {
            a % b
        }
    }
}

/// Performs the R-type operation (funct3, funct7) on `a` and `b`.
pub fn alu(f3: u8, f7: u8, a: u32, b: u32) -> (r: u32)
    requires
        r_type_valid(f3 as u32, f7 as u32),
    ensures
        r == r_type_value(f3 as u32, f7 as u32, a, b),
{
    proof {
        lemma_signed(a);
        lemma_signed(b);
    }
    if f7 == 0x01 {
        m_op(f3, a, b)
    } else if f7 == 0x20 {
        if f3 == 0 {
            a.wrapping_sub(b)
        } else {
            ((a as i32) >> (b & 0x1F)) as u32
        }
    } else if f3 == 0 {
        a.wrapping_add(b)
    } else if f3 == 1 {
        a << (b & 0x1F)
    } else if f3 == 2 {
        if (a as i32) < (b as i32) {
            1
        } else {
            0
        }
    } else if f3 == 3 {
        if a < b {
            1
        } else {
            0
        }
    } else if f3 == 4 {
        a ^ b
    } else if f3 == 5 {
        a >> (b & 0x1F)
    } else if f3 == 6 {
        a | b
    } else {
        a & b
    }
}

/// `x` as a register value: its two's-complement bits.
pub proof fn lemma_i32_bits(x: i32)
    ensures
        x as u32 == wrap(x as int),
{
    assert(x as u32 as int == if x < 0 {
        x as int + 0x1_0000_0000
    } else {
        x as int
    }) by (bit_vector);
}

/// `base + off` modulo 2^32: an address or PC moved by a signed offset.
pub fn add_offset(base: u32, off: i32) -> (r: u32)
    ensures
        r == wrap(base + off),
{
    proof {
        lemma_i32_bits(off);
    }
    base.wrapping_add(off as u32)
}

/// `pc + 4` modulo 2^32.
pub open spec fn next_pc(pc: u32) -> u32 {
    wrap(pc + 4)
}

/// Unsigned division by zero gives all ones; the unsigned remainder by zero is the dividend.
pub proof fn lemma_unsigned_division_by_zero(x: u32)
    ensures
        r_type_value(5, 0x01, x, 0) == 0xFFFF_FFFF,
        r_type_value(7, 0x01, x, 0) == x,
{
}

/// Signed division of -2^31 by -1 gives -2^31; the remainder is 0.
pub proof fn lemma_signed_division_overflow()
    ensures
        r_type_value(4, 0x01, 0x8000_0000, 0xFFFF_FFFF) == 0x8000_0000,
        r_type_value(6, 0x01, 0x8000_0000, 0xFFFF_FFFF) == 0,
{
    assert(trunc_div(signed(0x8000_0000), signed(0xFFFF_FFFF)) == 0x8000_0000);
    assert(trunc_rem(signed(0x8000_0000), signed(0xFFFF_FFFF)) == 0);
}

/// Signed division by zero gives -1; the signed remainder by zero is the dividend.
pub proof fn lemma_signed_division_by_zero(x: u32)
    ensures
        signed(r_type_value(4, 0x01, x, 0)) == -1,
        r_type_value(6, 0x01, x, 0) == x,
{
}

} // verus!
