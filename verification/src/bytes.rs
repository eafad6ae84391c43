//! Big-endian byte encodings of fixed-width integers.
//!
//! The codec writes 32-bit values as four big-endian bytes and signed 64-bit
//! values as eight big-endian bytes after a shift into the unsigned range
//! (offset binary). Each encoding comes as a spec function, an executable
//! writer proved to append exactly those bytes, a spec parser, and an
//! executable reader proved to match the parser.

use vstd::arithmetic::div_mod::{lemma_fundamental_div_mod, lemma_mod_bound, lemma_mod_mod};
use vstd::prelude::*;

verus! {

/// A value that fits a signed 64-bit integer.
pub open spec fn is_i64(v: int) -> bool {
    i64::MIN <= v <= i64::MAX
}

/// The shift that maps a signed 64-bit value into the unsigned range.
pub const I64_OFFSET: u64 = 0x8000_0000_0000_0000;

// ---------------------------------------------------------------------------
// Unsigned big-endian bytes.
// ---------------------------------------------------------------------------

/// The four big-endian bytes of a 32-bit value.
#[verifier::opaque]
pub open spec fn u32_bytes(v: int) -> Seq<u8> {
    seq![
        (v / 0x100_0000) as u8,
        ((v % 0x100_0000) / 0x1_0000) as u8,
        ((v % 0x1_0000) / 0x100) as u8,
        (v % 0x100) as u8,
    ]
}

/// The 32-bit value read back from four big-endian bytes at `i`.
pub open spec fn be32(s: Seq<u8>, i: int) -> int {
    s[i] * 0x100_0000 + s[i + 1] * 0x1_0000 + s[i + 2] * 0x100 + s[i + 3]
}

/// The eight big-endian bytes of a 64-bit value.
#[verifier::opaque]
pub open spec fn u64_bytes(v: int) -> Seq<u8> {
    seq![
        (v / 0x100_0000_0000_0000) as u8,
        ((v % 0x100_0000_0000_0000) / 0x1_0000_0000_0000) as u8,
        ((v % 0x1_0000_0000_0000) / 0x100_0000_0000) as u8,
        ((v % 0x100_0000_0000) / 0x1_0000_0000) as u8,
        ((v % 0x1_0000_0000) / 0x100_0000) as u8,
        ((v % 0x100_0000) / 0x1_0000) as u8,
        ((v % 0x1_0000) / 0x100) as u8,
        (v % 0x100) as u8,
    ]
}

/// The 64-bit value read back from eight big-endian bytes at `i`.
pub open spec fn be64(s: Seq<u8>, i: int) -> int {
    s[i] * 0x100_0000_0000_0000 + s[i + 1] * 0x1_0000_0000_0000 + s[i + 2] * 0x100_0000_0000 + s[i
        + 3] * 0x1_0000_0000 + s[i + 4] * 0x100_0000 + s[i + 5] * 0x1_0000 + s[i + 6] * 0x100 + s[i
        + 7]
}

/// The length of the four-byte encoding.
pub broadcast proof fn lemma_u32_bytes_len(v: int)
    ensures
        (#[trigger] u32_bytes(v)).len() == 4,
{
    reveal(u32_bytes);
}

/// The length of the eight-byte encoding.
pub broadcast proof fn lemma_u64_bytes_len(v: int)
    ensures
        (#[trigger] u64_bytes(v)).len() == 8,
{
    reveal(u64_bytes);
}

/// Reading back the four big-endian bytes of a 32-bit value yields it.
pub proof fn lemma_u32_bytes_roundtrip(v: int)
    requires
        0 <= v < 0x1_0000_0000,
    ensures
        u32_bytes(v).len() == 4,
        be32(u32_bytes(v), 0) == v,
{
    reveal(u32_bytes);
    let b = u32_bytes(v);
    lemma_fundamental_div_mod(v, 0x100_0000);
    lemma_mod_bound(v, 0x100_0000);
    lemma_fundamental_div_mod(v % 0x100_0000, 0x1_0000);
    lemma_mod_bound(v % 0x100_0000, 0x1_0000);
    lemma_mod_mod(v, 0x1_0000, 0x100);
    lemma_fundamental_div_mod(v % 0x1_0000, 0x100);
    lemma_mod_bound(v % 0x1_0000, 0x100);
    lemma_mod_bound(v, 0x100);
    assert((v % 0x100_0000) % 0x1_0000 == v % 0x1_0000) by {
        assert(0x100_0000 == 0x1_0000 * 0x100);
    }
    assert((v % 0x1_0000) % 0x100 == v % 0x100) by {
        lemma_mod_mod(v, 0x100, 0x100);
        assert(0x1_0000 == 0x100 * 0x100);
    }
    assert(b[0] == v / 0x100_0000 && b[1] == (v % 0x100_0000) / 0x1_0000 && b[2] == (v % 0x1_0000)
        / 0x100 && b[3] == v % 0x100);
}

/// Reading back the eight big-endian bytes of a 64-bit value yields it.
pub proof fn lemma_u64_bytes_roundtrip(v: int)
    requires
        0 <= v < 0x1_0000_0000_0000_0000,
    ensures
        u64_bytes(v).len() == 8,
        be64(u64_bytes(v), 0) == v,
{
    reveal(u64_bytes);
    let b = u64_bytes(v);
    lemma_fundamental_div_mod(v, 0x100_0000_0000_0000);
    lemma_mod_bound(v, 0x100_0000_0000_0000);
    lemma_fundamental_div_mod(v % 0x100_0000_0000_0000, 0x1_0000_0000_0000);
    lemma_mod_bound(v % 0x100_0000_0000_0000, 0x1_0000_0000_0000);
    assert((v % 0x100_0000_0000_0000) % 0x1_0000_0000_0000 == v % 0x1_0000_0000_0000) by {
        lemma_mod_mod(v, 0x1_0000_0000_0000, 0x100);
        assert(0x100_0000_0000_0000 == 0x1_0000_0000_0000 * 0x100);
    }
    lemma_fundamental_div_mod(v % 0x1_0000_0000_0000, 0x100_0000_0000);
    lemma_mod_bound(v % 0x1_0000_0000_0000, 0x100_0000_0000);
    assert((v % 0x1_0000_0000_0000) % 0x100_0000_0000 == v % 0x100_0000_0000) by {
        lemma_mod_mod(v, 0x100_0000_0000, 0x100);
        assert(0x1_0000_0000_0000 == 0x100_0000_0000 * 0x100);
    }
    lemma_fundamental_div_mod(v % 0x100_0000_0000, 0x1_0000_0000);
    lemma_mod_bound(v % 0x100_0000_0000, 0x1_0000_0000);
    assert((v % 0x100_0000_0000) % 0x1_0000_0000 == v % 0x1_0000_0000) by {
        lemma_mod_mod(v, 0x1_0000_0000, 0x100);
        assert(0x100_0000_0000 == 0x1_0000_0000 * 0x100);
    }
    lemma_fundamental_div_mod(v % 0x1_0000_0000, 0x100_0000);
    lemma_mod_bound(v % 0x1_0000_0000, 0x100_0000);
    assert((v % 0x1_0000_0000) % 0x100_0000 == v % 0x100_0000) by {
        lemma_mod_mod(v, 0x100_0000, 0x100);
        assert(0x1_0000_0000 == 0x100_0000 * 0x100);
    }
    lemma_fundamental_div_mod(v % 0x100_0000, 0x1_0000);
    lemma_mod_bound(v % 0x100_0000, 0x1_0000);
    assert((v % 0x100_0000) % 0x1_0000 == v % 0x1_0000) by {
        lemma_mod_mod(v, 0x1_0000, 0x100);
        assert(0x100_0000 == 0x1_0000 * 0x100);
    }
    lemma_fundamental_div_mod(v % 0x1_0000, 0x100);
    lemma_mod_bound(v % 0x1_0000, 0x100);
    assert((v % 0x1_0000) % 0x100 == v % 0x100) by {
        lemma_mod_mod(v, 0x100, 0x100);
        assert(0x1_0000 == 0x100 * 0x100);
    }
    lemma_mod_bound(v, 0x100);
}

/// A signed 64-bit value shifted into the unsigned 64-bit range.
pub open spec fn i64_shifted(v: int) -> int {
    v + I64_OFFSET
}

/// The eight big-endian bytes of a signed 64-bit value, offset binary.
pub open spec fn i64_bytes(v: int) -> Seq<u8> {
    u64_bytes(i64_shifted(v))
}

/// Append the four big-endian bytes of `v`.
pub fn push_u32(out: &mut Vec<u8>, v: u32)
    ensures
        final(out)@ == old(out)@ + u32_bytes(v as int),
{
    out.push((v / 0x100_0000) as u8);
    out.push(((v % 0x100_0000) / 0x1_0000) as u8);
    out.push(((v % 0x1_0000) / 0x100) as u8);
    out.push((v % 0x100) as u8);
    proof {
        reveal(u32_bytes);
        assert(out@ =~= old(out)@ + u32_bytes(v as int));
    }
}

/// Append the eight big-endian bytes of `v`.
pub fn push_u64(out: &mut Vec<u8>, v: u64)
    ensures
        final(out)@ == old(out)@ + u64_bytes(v as int),
{
    out.push((v / 0x100_0000_0000_0000) as u8);
    out.push(((v % 0x100_0000_0000_0000) / 0x1_0000_0000_0000) as u8);
    out.push(((v % 0x1_0000_0000_0000) / 0x100_0000_0000) as u8);
    out.push(((v % 0x100_0000_0000) / 0x1_0000_0000) as u8);
    out.push(((v % 0x1_0000_0000) / 0x100_0000) as u8);
    out.push(((v % 0x100_0000) / 0x1_0000) as u8);
    out.push(((v % 0x1_0000) / 0x100) as u8);
    out.push((v % 0x100) as u8);
    proof {
        reveal(u64_bytes);
        assert(out@ =~= old(out)@ + u64_bytes(v as int));
    }
}

/// Append the offset-binary bytes of a signed 64-bit value.
pub fn push_i64(out: &mut Vec<u8>, v: i64)
    ensures
        final(out)@ == old(out)@ + i64_bytes(v as int),
{
    let shifted: u64 = ((v as i128) + (I64_OFFSET as i128)) as u64;
    push_u64(out, shifted);
}

// ---------------------------------------------------------------------------
// Field parsers (spec) and their executable readers.
// ---------------------------------------------------------------------------

/// Parse four big-endian bytes at `i`: the value and the next position.
pub open spec fn parse_u32(s: Seq<u8>, i: int) -> Option<(int, int)> {
    if 0 <= i && i + 4 <= s.len() {
        Some((be32(s, i), i + 4))
    } else {
        None
    }
}

/// Parse eight big-endian bytes at `i`: the value and the next position.
pub open spec fn parse_u64(s: Seq<u8>, i: int) -> Option<(int, int)> {
    if 0 <= i && i + 8 <= s.len() {
        Some((be64(s, i), i + 8))
    } else {
        None
    }
}

/// Parse an offset-binary signed 64-bit value at `i`.
pub open spec fn parse_i64(s: Seq<u8>, i: int) -> Option<(int, int)> {
    match parse_u64(s, i) {
        Some((u, j)) => Some((u - I64_OFFSET, j)),
        None => None,
    }
}

/// Read four big-endian bytes at `i`.
pub fn take_u32(s: &[u8], i: usize) -> (r: Option<(u32, usize)>)
    ensures
        match r {
            Some((v, j)) => parse_u32(s@, i as int) == Some((v as int, j as int)),
            None => parse_u32(s@, i as int) is None,
        },
{
    if s.len() < 4 || i > s.len() - 4 {
        return None;
    }
    let v: u32 = (s[i] as u32) * 0x100_0000 + (s[i + 1] as u32) * 0x1_0000 + (s[i + 2] as u32)
        * 0x100 + (s[i + 3] as u32);
    Some((v, i + 4))
}

/// Read eight big-endian bytes at `i`.
pub fn take_u64(s: &[u8], i: usize) -> (r: Option<(u64, usize)>)
    ensures
        match r {
            Some((v, j)) => parse_u64(s@, i as int) == Some((v as int, j as int)),
            None => parse_u64(s@, i as int) is None,
        },
{
    if s.len() < 8 || i > s.len() - 8 {
        return None;
    }
    let v: u64 = (s[i] as u64) * 0x100_0000_0000_0000 + (s[i + 1] as u64) * 0x1_0000_0000_0000 + (
    s[i + 2] as u64) * 0x100_0000_0000 + (s[i + 3] as u64) * 0x1_0000_0000 + (s[i + 4] as u64)
        * 0x100_0000 + (s[i + 5] as u64) * 0x1_0000 + (s[i + 6] as u64) * 0x100 + (s[i + 7] as u64);
    Some((v, i + 8))
}

/// Read an offset-binary signed 64-bit value at `i`.
pub fn take_i64(s: &[u8], i: usize) -> (r: Option<(i64, usize)>)
    ensures
        match r {
            Some((v, j)) => parse_i64(s@, i as int) == Some((v as int, j as int)),
            None => parse_i64(s@, i as int) is None,
        },
{
    match take_u64(s, i) {
        Some((u, j)) => {
            let v: i64 = ((u as i128) - (I64_OFFSET as i128)) as i64;
            Some((v, j))
        },
        None => None,
    }
}


} // verus!
