//! Fixed-width big-endian encoding of 32-bit integers, the byte-level layer
//! under the matrix wire format.

use vstd::prelude::*;

verus! {

/// The four big-endian bytes of an unsigned 32-bit value.
pub open spec fn u32_bytes(v: u32) -> Seq<u8> {
    seq![
        ((v >> 24) & 0xff) as u8,
        ((v >> 16) & 0xff) as u8,
        ((v >> 8) & 0xff) as u8,
        (v & 0xff) as u8,
    ]
}

/// The unsigned 32-bit value read big-endian from four bytes.
pub open spec fn be_u32(b: Seq<u8>) -> u32
    recommends
        b.len() == 4,
{
    (((b[0] as u32) << 24) | ((b[1] as u32) << 16) | ((b[2] as u32) << 8) | (b[3] as u32)) as u32
}

/// The unsigned 32-bit value with the same bit pattern as `v`.
pub open spec fn i32_bits(v: i32) -> u32 {
    if v >= 0 {
        v as u32
    } else {
        (v + 0x1_0000_0000) as u32
    }
}

/// The signed 32-bit value with the same bit pattern as `u`.
pub open spec fn u32_as_i32(u: u32) -> i32 {
    if u < 0x8000_0000 {
        u as i32
    } else {
        (u - 0x1_0000_0000) as i32
    }
}

/// The four big-endian bytes of a signed 32-bit value (two's complement).
pub open spec fn i32_bytes(v: i32) -> Seq<u8> {
    u32_bytes(i32_bits(v))
}

/// Reading back the four bytes of `v` yields `v` again.
pub proof fn lemma_u32_round_trip(v: u32)
    ensures
        be_u32(u32_bytes(v)) == v,
{
    let b0 = ((v >> 24) & 0xff) as u8;
    let b1 = ((v >> 16) & 0xff) as u8;
    let b2 = ((v >> 8) & 0xff) as u8;
    let b3 = (v & 0xff) as u8;
    assert((((((v >> 24) & 0xff) as u8) as u32) << 24) | (((((v >> 16) & 0xff) as u8) as u32)
        << 16) | (((((v >> 8) & 0xff) as u8) as u32) << 8) | (((v & 0xff) as u8) as u32) == v)
        by (bit_vector);
    assert(u32_bytes(v) == seq![b0, b1, b2, b3]);
    assert(be_u32(seq![b0, b1, b2, b3]) == ((((b0 as u32) << 24) | ((b1 as u32) << 16) | ((
    b2 as u32) << 8) | (b3 as u32)) as u32));
}

/// Bit-pattern conversion to unsigned and back yields the same signed value.
pub proof fn lemma_i32_bits_round_trip(v: i32)
    ensures
        u32_as_i32(i32_bits(v)) == v,
{
}

/// Appends the four big-endian bytes of `v` to `out`.
pub fn push_be_u32(out: &mut Vec<u8>, v: u32)
    ensures
        final(out)@ == old(out)@ + u32_bytes(v),
{
    proof {
        assert((v >> 24) & 0xff <= 0xff && (v >> 16) & 0xff <= 0xff && (v >> 8) & 0xff <= 0xff && v
            & 0xff <= 0xff) by (bit_vector);
    }
    out.push(((v >> 24) & 0xff) as u8);
    out.push(((v >> 16) & 0xff) as u8);
    out.push(((v >> 8) & 0xff) as u8);
    out.push((v & 0xff) as u8);
    proof {
        assert(out@ =~= old(out)@ + u32_bytes(v));
    }
}

/// Appends the four big-endian bytes of `v` to `out`.
pub fn push_be_i32(out: &mut Vec<u8>, v: i32)
    ensures
        final(out)@ == old(out)@ + i32_bytes(v),
{
    let bits: u32 = if v >= 0 {
        v as u32
    } else {
        ((v as i64) + 0x1_0000_0000i64) as u32
    };
    assert(bits == i32_bits(v));
    push_be_u32(out, bits);
}

/// Reads a big-endian unsigned 32-bit value at `offset`.
pub fn read_be_u32(input: &[u8], offset: usize) -> (r: u32)
    requires
        offset + 4 <= input@.len(),
    ensures
        r == be_u32(input@.subrange(offset as int, offset as int + 4)),
{
    let ghost b = input@.subrange(offset as int, offset as int + 4);
    let r = ((input[offset] as u32) << 24) | ((input[offset + 1] as u32) << 16) | ((input[offset
        + 2] as u32) << 8) | (input[offset + 3] as u32);
    proof {
        assert(b[0] == input@[offset as int] && b[1] == input@[offset as int + 1] && b[2]
            == input@[offset as int + 2] && b[3] == input@[offset as int + 3]);
    }
    r
}

/// Reads a big-endian signed 32-bit value at `offset`.
pub fn read_be_i32(input: &[u8], offset: usize) -> (r: i32)
    requires
        offset + 4 <= input@.len(),
    ensures
        r == u32_as_i32(be_u32(input@.subrange(offset as int, offset as int + 4))),
{
    let u = read_be_u32(input, offset);
    if u < 0x8000_0000 {
        u as i32
    } else {
        ((u as i64) - 0x1_0000_0000i64) as i32
    }
}

} // verus!
