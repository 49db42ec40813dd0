//! Reading a program written as hex literals into instruction memory.
//!
//! The text is split into literals at every byte that is neither a hex digit nor `x`. A literal may
//! start with `0x`; its digits must give exactly one 32-bit instruction, which is stored
//! little-endian: `0xAABBCCDD` becomes the bytes `DD CC BB AA`.
use crate::decode::{get_bits, instruction_length};
use vstd::prelude::*;

verus! {

/// Why a program text could not be loaded.
#[derive(Clone, Copy, Debug, PartialEq, Eq)]
pub enum LoadError {
    /// A literal is not an even, non-zero number of hex digits after an optional `0x`.
    MalformedLiteral,
    /// A literal holds a whole 16-, 48- or 64-bit instruction, which the engine does not run.
    UnsupportedWidth(i32),
    /// The literal's byte count does not match the length that its first instruction byte gives.
    WrongSize,
}

pub open spec fn is_hex_digit(c: u8) -> bool {
    (0x30 <= c <= 0x39) || (0x61 <= c <= 0x66) || (0x41 <= c <= 0x46)
}

/// The value of the hex digit `c`.
pub open spec fn digit_value(c: u8) -> int {
    if c <= 0x39 {
        c - 0x30
    } else if c >= 0x61 {
        c - 0x61 + 10
    } else {
        c - 0x41 + 10
    }
}

/// Bytes that belong to a literal: hex digits and `x`.
pub open spec fn is_literal_byte(c: u8) -> bool {
    is_hex_digit(c) || c == 0x78
}

pub open spec fn all_hex(h: Seq<u8>) -> bool {
    forall|i: int| 0 <= i < h.len() ==> #[trigger] is_hex_digit(h[i])
}

/// The bytes that the hex digits `h` spell, two digits per byte, high digit first.
pub open spec fn hex_decoded(h: Seq<u8>) -> Seq<u8> {
    Seq::new(h.len() / 2, |i: int| (16 * digit_value(h[2 * i]) + digit_value(h[2 * i + 1])) as u8)
}

/// The digits of a literal: `tok` without a leading `0x`.
pub open spec fn literal_digits(tok: Seq<u8>) -> Seq<u8> {
    if tok.len() >= 2 && tok[0] == 0x30 && tok[1] == 0x78 {
        tok.subrange(2, tok.len() as int)
    } else {
        tok
    }
}

/// The instruction-memory bytes of one literal, or why it is refused.
pub open spec fn literal_bytes(tok: Seq<u8>) -> Result<Seq<u8>, LoadError> {
    let d = literal_digits(tok);
    if d.len() == 0 || d.len() % 2 != 0 || !all_hex(d) {
        Err(LoadError::MalformedLiteral)
    } else {
        let b = hex_decoded(d);
        let n = b.len();
        let width = instruction_length(b[n - 1]);
        if width == 32 && n == 4 {
            Ok(seq![b[3], b[2], b[1], b[0]])
        } else if (width == 16 && n == 2) || (width == 48 && n == 6) || (width == 64 && n == 8) {
            Err(LoadError::UnsupportedWidth(width as i32))
        } else {
            Err(LoadError::WrongSize)
        }
    }
}

/// Ends the current literal `tok`: appends its bytes to `out`, unless an error came before.
pub open spec fn flush(out: Seq<u8>, tok: Seq<u8>, err: Option<LoadError>) -> (Seq<u8>, Option<LoadError>) {
    if err is Some || tok.len() == 0 {
        (out, err)
    } else {
        match literal_bytes(tok) {
            Ok(b) => (out + b, None),
            Err(e) => (out, Some(e)),
        }
    }
}

/// After reading the first `i` bytes of `text`: the bytes stored so far, the literal being read,
/// and the first error met.
pub open spec fn scan(text: Seq<u8>, i: int) -> (Seq<u8>, Seq<u8>, Option<LoadError>)
    decreases i,
{
    if i <= 0 {
        (Seq::empty(), Seq::empty(), None)
    } else {
        let (out, tok, err) = scan(text, i - 1);
        let c = text[i - 1];
        if err is Some {
            (out, tok, err)
        } else if is_literal_byte(c) {
            (out, tok.push(c), err)
        } else {
            let (out2, err2) = flush(out, tok, err);
            (out2, Seq::empty(), err2)
        }
    }
}

/// What loading `text` stores, and the first error met, if any.
pub open spec fn load_result(text: Seq<u8>) -> (Seq<u8>, Option<LoadError>) {
    let (out, tok, err) = scan(text, text.len() as int);
    flush(out, tok, err)
}

fn hex_digit_value(c: u8) -> (r: Option<u8>)
    ensures
        r is Some <==> is_hex_digit(c),
        r matches Some(v) ==> v == digit_value(c) && v < 16,
{
    if 0x30 <= c && c <= 0x39 {
        Some(c - 0x30)
    } else if 0x61 <= c && c <= 0x66 {
        Some(c - 0x61 + 10)
    } else if 0x41 <= c && c <= 0x46 {
        Some(c - 0x41 + 10)
    } else {
        None
    }
}

/// Decodes an even-length run of hex digits into its bytes; `None` if the length is odd or a byte
/// is not a hex digit.
pub fn decode_hex_to_bytes(hex: &[u8]) -> (r: Option<Vec<u8>>)
    ensures
        r is Some <==> hex@.len() % 2 == 0 && all_hex(hex@),
        r matches Some(v) ==> v@ == hex_decoded(hex@),
{
    if hex.len() % 2 != 0 {
        return None;
    }
    let mut out: Vec<u8> = Vec::new();
    let mut k: usize = 0;
    while k < hex.len()
        invariant
            hex@.len() % 2 == 0,
            k % 2 == 0,
            k <= hex@.len(),
            forall|i: int| 0 <= i < k ==> #[trigger] is_hex_digit(hex@[i]),
            out@ =~= hex_decoded(hex@.subrange(0, k as int)),
        decreases hex@.len() - k,
    {
        let hi = hex_digit_value(hex[k]);
        let lo = hex_digit_value(hex[k + 1]);
        match (hi, lo) {
            (Some(h), Some(l)) => {
                out.push(h * 16 + l);
            },
            _ => {
                return None;
            },
        }
        proof {
            let prev = hex@.subrange(0, k as int);
            let next = hex@.subrange(0, k + 2);
            assert forall|j: int| 0 <= j < (k + 2) / 2 implies #[trigger] out@[j] == hex_decoded(next)[j] by {
                if j < k / 2 {
                    assert(hex_decoded(prev)[j] == hex_decoded(next)[j]);
                }
            }
        }
        k = k + 2;
    }
    assert(hex@.subrange(0, k as int) =~= hex@);
    Some(out)
}

/// The instruction-memory bytes of the literal `tok`.
fn literal_to_bytes(tok: &Vec<u8>) -> (r: Result<Vec<u8>, LoadError>)
    requires
        tok@.len() > 0,
    ensures
        match literal_bytes(tok@) {
            Ok(b) => r matches Ok(v) && v@ == b,
            Err(e) => r == Err::<Vec<u8>, LoadError>(e),
        },
{
    let mut digits: Vec<u8> = Vec::new();
    let start: usize = if tok.len() >= 2 && tok[0] == 0x30 && tok[1] == 0x78 {
        2
    } else {
        0
    };
    let mut k: usize = start;
    while k < tok.len()
        invariant
            start <= k <= tok@.len(),
            digits@ =~= tok@.subrange(start as int, k as int),
        decreases tok@.len() - k,
    {
        digits.push(tok[k]);
        k = k + 1;
    }
    assert(digits@ =~= literal_digits(tok@));
    if digits.len() == 0 {
        return Err(LoadError::MalformedLiteral);
    }
    let bytes = match decode_hex_to_bytes(digits.as_slice()) {
        Some(b) => b,
        None => {
            return Err(LoadError::MalformedLiteral);
        },
    };
    let n = bytes.len();
    let width = get_bits(bytes[n - 1]);
    if width == 32 && n == 4 {
        let mut out: Vec<u8> = Vec::new();
        out.push(bytes[3]);
        out.push(bytes[2]);
        out.push(bytes[1]);
        out.push(bytes[0]);
        assert(out@ =~= seq![bytes@[3], bytes@[2], bytes@[1], bytes@[0]]);
        Ok(out)
    } else if (width == 16 && n == 2) || (width == 48 && n == 6) || (width == 64 && n == 8) {
        Err(LoadError::UnsupportedWidth(width))
    } else {
        Err(LoadError::WrongSize)
    }
}

/// Ends the literal in `tok` (if any), appending its bytes to `imem`.
fn flush_literal(imem: &mut Vec<u8>, tok: &mut Vec<u8>) -> (r: Option<LoadError>)
    ensures
        (final(imem)@.subrange(old(imem)@.len() as int, final(imem)@.len() as int), r)
            == flush(Seq::empty(), old(tok)@, None),
        final(imem)@.subrange(0, old(imem)@.len() as int) == old(imem)@,
        final(imem)@.len() >= old(imem)@.len(),
        final(tok)@.len() == 0,
{
    let ghost start = imem@;
    if tok.len() == 0 {
        assert(imem@.subrange(start.len() as int, imem@.len() as int) =~= Seq::<u8>::empty());
        assert(imem@.subrange(0, start.len() as int) =~= start);
        return None;
    }
    let r = match literal_to_bytes(tok) {
        Ok(bytes) => {
            let mut k: usize = 0;
            while k < bytes.len()
                invariant
                    k <= bytes@.len(),
                    imem@ =~= start + bytes@.subrange(0, k as int),
                decreases bytes@.len() - k,
            {
                imem.push(bytes[k]);
                k = k + 1;
            }
            assert(bytes@.subrange(0, k as int) =~= bytes@);
            None
        },
        Err(e) => Some(e),
    };
    assert(imem@.subrange(0, start.len() as int) =~= start);
    assert(imem@.subrange(start.len() as int, imem@.len() as int) =~= flush(Seq::empty(), tok@, None).0);
    *tok = Vec::new();
    r
}

/// Appends the instructions written as hex literals in `text` to `imem`. On a refused literal,
/// the instructions before it stay stored and the error is returned.
pub fn load_into_imem(text: &[u8], imem: &mut Vec<u8>) -> (r: Result<(), LoadError>)
    ensures
        final(imem)@ == old(imem)@ + load_result(text@).0,
        r == match load_result(text@).1 {
            Some(e) => Err(e),
            None => Ok(()),
        },
{
    let ghost start = imem@;
    let mut tok: Vec<u8> = Vec::new();
    let mut i: usize = 0;
    while i < text.len()
        invariant
            i <= text@.len(),
            start == old(imem)@,
            imem@ == start + scan(text@, i as int).0,
            tok@ == scan(text@, i as int).1,
            scan(text@, i as int).2 is None,
        decreases text@.len() - i,
    {
        let c = text[i];
        if 0x30 <= c && c <= 0x39 || 0x61 <= c && c <= 0x66 || 0x41 <= c && c <= 0x46 || c == 0x78 {
            tok.push(c);
        } else {
            let ghost before = imem@;
            let ghost old_tok = tok@;
            let flushed = flush_literal(imem, &mut tok);
            assert(imem@ =~= before + imem@.subrange(before.len() as int, imem@.len() as int));
            assert(scan(text@, i + 1) == (scan(text@, i as int).0 + flush(Seq::empty(), old_tok, None).0, Seq::<u8>::empty(), flush(Seq::empty(), old_tok, None).1));
            if let Some(e) = flushed {
                proof {
                    lemma_scan_error_stays(text@, i as int + 1);
                    assert(imem@ =~= start + scan(text@, i + 1).0);
                }
                return Err(e);
            }
        }
        i = i + 1;
    }
    let ghost before = imem@;
    let r = flush_literal(imem, &mut tok);
    assert(imem@ =~= before + imem@.subrange(before.len() as int, imem@.len() as int));
    match r {
        Some(e) => Err(e),
        None => Ok(()),
    }
}

/// Once an error is met, the rest of the text changes nothing.
proof fn lemma_scan_error_stays(text: Seq<u8>, i: int)
    requires
        0 <= i <= text.len(),
        scan(text, i).2 is Some,
    ensures
        scan(text, text.len() as int) == scan(text, i),
        load_result(text) == (scan(text, i).0, scan(text, i).2),
    decreases text.len() - i,
{
    if i < text.len() {
        lemma_scan_error_stays(text, i + 1);
    }
}

} // verus!
