//! The canonical byte encoding that the engine hashes and signs over.
//!
//! Integers encode as fixed-width little-endian bytes; a byte string encodes
//! as a compact length prefix followed by its bytes.  The compact prefix uses
//! the standard four-mode scheme: values up to `0x3f` in one byte shifted
//! left twice, up to `0x3fff` in two little-endian bytes with mode bits
//! `0b01`, up to `0x3fffffff` in four bytes with mode bits `0b10`, and the
//! rest as a `0b11` marker byte followed by the four little-endian bytes.

use vstd::prelude::*;

verus! {

/// The eight little-endian bytes of a 64-bit integer.
pub open spec fn u64_le_bytes(x: u64) -> Seq<u8> {
    seq![
        (x & 0xff) as u8,
        ((x >> 8) & 0xff) as u8,
        ((x >> 16) & 0xff) as u8,
        ((x >> 24) & 0xff) as u8,
        ((x >> 32) & 0xff) as u8,
        ((x >> 40) & 0xff) as u8,
        ((x >> 48) & 0xff) as u8,
        ((x >> 56) & 0xff) as u8,
    ]
}

/// The four little-endian bytes of a 32-bit integer.
pub open spec fn u32_le_bytes(x: u32) -> Seq<u8> {
    seq![(x & 0xff) as u8, ((x >> 8) & 0xff) as u8, ((x >> 16) & 0xff) as u8, ((x >> 24)
        & 0xff) as u8]
}

/// The compact encoding of a 32-bit length.
pub open spec fn compact_u32(n: u32) -> Seq<u8> {
    if n <= 0x3f {
        seq![((n << 2) & 0xff) as u8]
    } else if n <= 0x3fff {
        let w = (n << 2) | 1;
        seq![(w & 0xff) as u8, ((w >> 8) & 0xff) as u8]
    } else if n <= 0x3fffffff {
        u32_le_bytes((n << 2) | 2)
    } else {
        seq![3u8] + u32_le_bytes(n)
    }
}

/// The encoding of a byte string: its compact length, then its bytes.
pub open spec fn scale_bytes(b: Seq<u8>) -> Seq<u8> {
    compact_u32(b.len() as u32) + b
}

/// Two 64-bit integers with the same little-endian bytes are the same.
pub proof fn lemma_u64_le_bytes_injective(a: u64, b: u64)
    requires
        u64_le_bytes(a) == u64_le_bytes(b),
    ensures
        a == b,
{
    assert(u64_le_bytes(a)[0] == u64_le_bytes(b)[0]);
    assert(u64_le_bytes(a)[1] == u64_le_bytes(b)[1]);
    assert(u64_le_bytes(a)[2] == u64_le_bytes(b)[2]);
    assert(u64_le_bytes(a)[3] == u64_le_bytes(b)[3]);
    assert(u64_le_bytes(a)[4] == u64_le_bytes(b)[4]);
    assert(u64_le_bytes(a)[5] == u64_le_bytes(b)[5]);
    assert(u64_le_bytes(a)[6] == u64_le_bytes(b)[6]);
    assert(u64_le_bytes(a)[7] == u64_le_bytes(b)[7]);
    assert((((a & 0xff) as u8 == (b & 0xff) as u8) && (((a >> 8) & 0xff) as u8 == ((b >> 8)
        & 0xff) as u8) && (((a >> 16) & 0xff) as u8 == ((b >> 16) & 0xff) as u8) && (((a >> 24)
        & 0xff) as u8 == ((b >> 24) & 0xff) as u8) && (((a >> 32) & 0xff) as u8 == ((b >> 32)
        & 0xff) as u8) && (((a >> 40) & 0xff) as u8 == ((b >> 40) & 0xff) as u8) && (((a >> 48)
        & 0xff) as u8 == ((b >> 48) & 0xff) as u8) && (((a >> 56) & 0xff) as u8 == ((b >> 56)
        & 0xff) as u8)) ==> a == b) by (bit_vector);
}

/// Appends the bytes of `b` to `out`.
pub fn append_to(out: &mut Vec<u8>, b: &Vec<u8>)
    ensures
        final(out)@ == old(out)@ + b@,
{
    let n = b.len();
    let mut i: usize = 0;
    while i < n
        invariant
            n == b@.len(),
            i <= n,
            out@ == old(out)@ + b@.take(i as int),
        decreases n - i,
    {
        out.push(b[i]);
        assert(out@ =~= old(out)@ + b@.take(i as int + 1));
        i = i + 1;
    }
    assert(old(out)@ + b@.take(n as int) =~= old(out)@ + b@);
}

/// Appends the eight little-endian bytes of `x` to `out`.
pub fn encode_u64_to(out: &mut Vec<u8>, x: u64)
    ensures
        final(out)@ == old(out)@ + u64_le_bytes(x),
{
    proof {
        assert(x & 0xff <= 0xff && (x >> 8) & 0xff <= 0xff && (x >> 16) & 0xff <= 0xff && (x >> 24)
            & 0xff <= 0xff && (x >> 32) & 0xff <= 0xff && (x >> 40) & 0xff <= 0xff && (x >> 48)
            & 0xff <= 0xff && (x >> 56) & 0xff <= 0xff) by (bit_vector);
    }
    out.push((x & 0xff) as u8);
    out.push(((x >> 8) & 0xff) as u8);
    out.push(((x >> 16) & 0xff) as u8);
    out.push(((x >> 24) & 0xff) as u8);
    out.push(((x >> 32) & 0xff) as u8);
    out.push(((x >> 40) & 0xff) as u8);
    out.push(((x >> 48) & 0xff) as u8);
    out.push(((x >> 56) & 0xff) as u8);
    assert(out@ =~= old(out)@ + u64_le_bytes(x));
}

/// Appends the four little-endian bytes of `x` to `out`.
pub fn encode_u32_to(out: &mut Vec<u8>, x: u32)
    ensures
        final(out)@ == old(out)@ + u32_le_bytes(x),
{
    proof {
        assert(x & 0xff <= 0xff && (x >> 8) & 0xff <= 0xff && (x >> 16) & 0xff <= 0xff && (x >> 24)
            & 0xff <= 0xff) by (bit_vector);
    }
    out.push((x & 0xff) as u8);
    out.push(((x >> 8) & 0xff) as u8);
    out.push(((x >> 16) & 0xff) as u8);
    out.push(((x >> 24) & 0xff) as u8);
    assert(out@ =~= old(out)@ + u32_le_bytes(x));
}

/// Appends the compact encoding of `n` to `out`.
pub fn encode_compact_u32_to(out: &mut Vec<u8>, n: u32)
    ensures
        final(out)@ == old(out)@ + compact_u32(n),
{
    if n <= 0x3f {
        proof {
            assert(n <= 0x3f ==> (n << 2) & 0xff <= 0xff) by (bit_vector);
        }
        out.push(((n << 2) & 0xff) as u8);
        assert(out@ =~= old(out)@ + compact_u32(n));
    } else if n <= 0x3fff {
        let w = (n << 2) | 1;
        proof {
            assert(w & 0xff <= 0xff && (w >> 8) & 0xff <= 0xff) by (bit_vector);
        }
        out.push((w & 0xff) as u8);
        out.push(((w >> 8) & 0xff) as u8);
        assert(out@ =~= old(out)@ + compact_u32(n));
    } else if n <= 0x3fffffff {
        encode_u32_to(out, (n << 2) | 2);
        assert(out@ =~= old(out)@ + compact_u32(n));
    } else {
        out.push(3u8);
        encode_u32_to(out, n);
        assert(out@ =~= old(out)@ + compact_u32(n));
    }
}

/// Appends the encoding of the byte string `b` to `out`.
pub fn encode_bytes_to(out: &mut Vec<u8>, b: &Vec<u8>)
    requires
        b@.len() <= 0xffffffff,
    ensures
        final(out)@ == old(out)@ + scale_bytes(b@),
{
    encode_compact_u32_to(out, b.len() as u32);
    append_to(out, b);
    assert(out@ =~= old(out)@ + scale_bytes(b@));
}

} // verus!
