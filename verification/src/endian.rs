//! Big-endian views of fixed-width integers.
//!
//! The wire format stores every multi-byte scalar most-significant byte
//! first, whatever the host byte order.  The spec functions here define
//! that layout; the exec functions read it out of a byte slice or append
//! it to a byte vector, and the lemmas show that decoding an encoding
//! gives the value back.

use vstd::prelude::*;

verus! {

/// The `u16` encoded by two big-endian bytes.
pub open spec fn u16_from_be_bytes(b: Seq<u8>) -> u16
    recommends
        b.len() == 2,
{
    (b[0] as u16) << 8 | (b[1] as u16)
}

/// The two big-endian bytes of a `u16`.
pub open spec fn u16_to_be_bytes(x: u16) -> Seq<u8> {
    seq![((x >> 8) & 0xff) as u8, (x & 0xff) as u8]
}

/// The `u32` encoded by four big-endian bytes.
pub open spec fn u32_from_be_bytes(b: Seq<u8>) -> u32
    recommends
        b.len() == 4,
{
    (b[0] as u32) << 24 | (b[1] as u32) << 16 | (b[2] as u32) << 8 | (b[3] as u32)
}

/// The four big-endian bytes of a `u32`.
pub open spec fn u32_to_be_bytes(x: u32) -> Seq<u8> {
    seq![
        ((x >> 24) & 0xff) as u8,
        ((x >> 16) & 0xff) as u8,
        ((x >> 8) & 0xff) as u8,
        (x & 0xff) as u8,
    ]
}

/// The `u64` encoded by eight big-endian bytes.
pub open spec fn u64_from_be_bytes(b: Seq<u8>) -> u64
    recommends
        b.len() == 8,
{
    (b[0] as u64) << 56 | (b[1] as u64) << 48 | (b[2] as u64) << 40 | (b[3] as u64) << 32 | (
    b[4] as u64) << 24 | (b[5] as u64) << 16 | (b[6] as u64) << 8 | (b[7] as u64)
}

/// The eight big-endian bytes of a `u64`.
pub open spec fn u64_to_be_bytes(x: u64) -> Seq<u8> {
    seq![
        ((x >> 56) & 0xff) as u8,
        ((x >> 48) & 0xff) as u8,
        ((x >> 40) & 0xff) as u8,
        ((x >> 32) & 0xff) as u8,
        ((x >> 24) & 0xff) as u8,
        ((x >> 16) & 0xff) as u8,
        ((x >> 8) & 0xff) as u8,
        (x & 0xff) as u8,
    ]
}

/// Decoding the big-endian bytes of a `u16` gives the value back.
pub broadcast proof fn lemma_u16_be_value_round_trip(x: u16)
    ensures
        #[trigger] u16_from_be_bytes(u16_to_be_bytes(x)) == x,
{
    assert(((x >> 8) & 0xff) < 256 && (x & 0xff) < 256) by (bit_vector);
    assert(((((x >> 8) & 0xff) as u8) as u16) << 8 | (((x & 0xff) as u8) as u16) == x)
        by (bit_vector);
}

/// Decoding the big-endian bytes of a `u32` gives the value back.
pub broadcast proof fn lemma_u32_be_value_round_trip(x: u32)
    ensures
        #[trigger] u32_from_be_bytes(u32_to_be_bytes(x)) == x,
{
    assert(((((x >> 24) & 0xff) as u8) as u32) << 24 | ((((x >> 16) & 0xff) as u8) as u32) << 16
        | ((((x >> 8) & 0xff) as u8) as u32) << 8 | (((x & 0xff) as u8) as u32) == x)
        by (bit_vector);
}

/// Decoding the big-endian bytes of a `u64` gives the value back.
pub broadcast proof fn lemma_u64_be_value_round_trip(x: u64)
    ensures
        #[trigger] u64_from_be_bytes(u64_to_be_bytes(x)) == x,
{
    assert(((((x >> 56) & 0xff) as u8) as u64) << 56 | ((((x >> 48) & 0xff) as u8) as u64) << 48
        | ((((x >> 40) & 0xff) as u8) as u64) << 40 | ((((x >> 32) & 0xff) as u8) as u64) << 32
        | ((((x >> 24) & 0xff) as u8) as u64) << 24 | ((((x >> 16) & 0xff) as u8) as u64) << 16
        | ((((x >> 8) & 0xff) as u8) as u64) << 8 | (((x & 0xff) as u8) as u64) == x)
        by (bit_vector);
}

/// The signed value carried by the bits of a `u16`, two's complement.
pub open spec fn i16_from_bits(u: u16) -> i16 {
    if u < 0x8000 {
        u as i16
    } else {
        (u as int - 0x10000) as i16
    }
}

/// The `u16` bit pattern of an `i16`, two's complement.
pub open spec fn i16_to_bits(x: i16) -> u16 {
    if x >= 0 {
        x as u16
    } else {
        (x as int + 0x10000) as u16
    }
}

/// The signed value carried by the bits of a `u32`, two's complement.
pub open spec fn i32_from_bits(u: u32) -> i32 {
    if u < 0x80000000 {
        u as i32
    } else {
        (u as int - 0x100000000) as i32
    }
}

/// The `u32` bit pattern of an `i32`, two's complement.
pub open spec fn i32_to_bits(x: i32) -> u32 {
    if x >= 0 {
        x as u32
    } else {
        (x as int + 0x100000000) as u32
    }
}

/// The signed value carried by the bits of a `u64`, two's complement.
pub open spec fn i64_from_bits(u: u64) -> i64 {
    if u < 0x8000000000000000 {
        u as i64
    } else {
        (u as int - 0x10000000000000000) as i64
    }
}

/// The `u64` bit pattern of an `i64`, two's complement.
pub open spec fn i64_to_bits(x: i64) -> u64 {
    if x >= 0 {
        x as u64
    } else {
        (x as int + 0x10000000000000000) as u64
    }
}

/// The signed value carried by the bits of a `u8`, two's complement.
pub open spec fn i8_from_bits(u: u8) -> i8 {
    if u < 0x80 {
        u as i8
    } else {
        (u as int - 0x100) as i8
    }
}

/// The `u8` bit pattern of an `i8`, two's complement.
pub open spec fn i8_to_bits(x: i8) -> u8 {
    if x >= 0 {
        x as u8
    } else {
        (x as int + 0x100) as u8
    }
}

/// Signed-to-bits and bits-to-signed invert each other, at every width.
pub broadcast proof fn lemma_bits_signed_round_trip(i8v: i8, i16v: i16, i32v: i32, i64v: i64)
    ensures
        #[trigger] i8_from_bits(i8_to_bits(i8v)) == i8v,
        #[trigger] i16_from_bits(i16_to_bits(i16v)) == i16v,
        #[trigger] i32_from_bits(i32_to_bits(i32v)) == i32v,
        #[trigger] i64_from_bits(i64_to_bits(i64v)) == i64v,
{
}

/// Reads the two big-endian bytes at `pos`.
pub fn u16_be_read(b: &[u8], pos: usize) -> (x: u16)
    requires
        pos + 2 <= b@.len(),
    ensures
        x == u16_from_be_bytes(b@.subrange(pos as int, pos as int + 2)),
{
    let b0 = b[pos];
    let b1 = b[pos + 1];
    let x = (b0 as u16) << 8 | (b1 as u16);
    proof {
        let s = b@.subrange(pos as int, pos as int + 2);
        assert(s[0] == b0 && s[1] == b1);
    }
    x
}

/// Reads the four big-endian bytes at `pos`.
pub fn u32_be_read(b: &[u8], pos: usize) -> (x: u32)
    requires
        pos + 4 <= b@.len(),
    ensures
        x == u32_from_be_bytes(b@.subrange(pos as int, pos as int + 4)),
{
    let b0 = b[pos];
    let b1 = b[pos + 1];
    let b2 = b[pos + 2];
    let b3 = b[pos + 3];
    let x = (b0 as u32) << 24 | (b1 as u32) << 16 | (b2 as u32) << 8 | (b3 as u32);
    proof {
        let s = b@.subrange(pos as int, pos as int + 4);
        assert(s[0] == b0 && s[1] == b1 && s[2] == b2 && s[3] == b3);
    }
    x
}

/// Reads the eight big-endian bytes at `pos`.
pub fn u64_be_read(b: &[u8], pos: usize) -> (x: u64)
    requires
        pos + 8 <= b@.len(),
    ensures
        x == u64_from_be_bytes(b@.subrange(pos as int, pos as int + 8)),
{
    let b0 = b[pos];
    let b1 = b[pos + 1];
    let b2 = b[pos + 2];
    let b3 = b[pos + 3];
    let b4 = b[pos + 4];
    let b5 = b[pos + 5];
    let b6 = b[pos + 6];
    let b7 = b[pos + 7];
    let x = (b0 as u64) << 56 | (b1 as u64) << 48 | (b2 as u64) << 40 | (b3 as u64) << 32 | (
    b4 as u64) << 24 | (b5 as u64) << 16 | (b6 as u64) << 8 | (b7 as u64);
    proof {
        let s = b@.subrange(pos as int, pos as int + 8);
        assert(s[0] == b0 && s[1] == b1 && s[2] == b2 && s[3] == b3 && s[4] == b4 && s[5] == b5
            && s[6] == b6 && s[7] == b7);
    }
    x
}

/// Appends the two big-endian bytes of `x`.
pub fn u16_be_write(out: &mut Vec<u8>, x: u16)
    ensures
        final(out)@ == old(out)@ + u16_to_be_bytes(x),
{
    proof {
        assert((x >> 8) & 0xff < 256 && x & 0xff < 256) by (bit_vector);
    }
    out.push(((x >> 8) & 0xff) as u8);
    out.push((x & 0xff) as u8);
    proof {
        assert(out@ =~= old(out)@ + u16_to_be_bytes(x));
    }
}

/// Appends the four big-endian bytes of `x`.
pub fn u32_be_write(out: &mut Vec<u8>, x: u32)
    ensures
        final(out)@ == old(out)@ + u32_to_be_bytes(x),
{
    proof {
        assert((x >> 24) & 0xff < 256 && (x >> 16) & 0xff < 256 && (x >> 8) & 0xff < 256 && x
            & 0xff < 256) by (bit_vector);
    }
    out.push(((x >> 24) & 0xff) as u8);
    out.push(((x >> 16) & 0xff) as u8);
    out.push(((x >> 8) & 0xff) as u8);
    out.push((x & 0xff) as u8);
    proof {
        assert(out@ =~= old(out)@ + u32_to_be_bytes(x));
    }
}

/// Appends the eight big-endian bytes of `x`.
pub fn u64_be_write(out: &mut Vec<u8>, x: u64)
    ensures
        final(out)@ == old(out)@ + u64_to_be_bytes(x),
{
    proof {
        assert((x >> 56) & 0xff < 256 && (x >> 48) & 0xff < 256 && (x >> 40) & 0xff < 256 && (x
            >> 32) & 0xff < 256 && (x >> 24) & 0xff < 256 && (x >> 16) & 0xff < 256 && (x >> 8)
            & 0xff < 256 && x & 0xff < 256) by (bit_vector);
    }
    out.push(((x >> 56) & 0xff) as u8);
    out.push(((x >> 48) & 0xff) as u8);
    out.push(((x >> 40) & 0xff) as u8);
    out.push(((x >> 32) & 0xff) as u8);
    out.push(((x >> 24) & 0xff) as u8);
    out.push(((x >> 16) & 0xff) as u8);
    out.push(((x >> 8) & 0xff) as u8);
    out.push((x & 0xff) as u8);
    proof {
        assert(out@ =~= old(out)@ + u64_to_be_bytes(x));
    }
}

/// Converts stored bits to the signed reading, by width.
pub fn i16_of_bits(u: u16) -> (x: i16)
    ensures
        x == i16_from_bits(u),
{
    proof {
        assert(u as i16 == (if u < 0x8000 {
            u as int
        } else {
            u as int - 0x10000
        })) by (bit_vector);
    }
    u as i16
}

/// Converts a signed value to its stored bits.
pub fn i16_bits_of(x: i16) -> (u: u16)
    ensures
        u == i16_to_bits(x),
{
    proof {
        assert(x as u16 == (if x >= 0 {
            x as int
        } else {
            x as int + 0x10000
        })) by (bit_vector);
    }
    x as u16
}

/// Converts stored bits to the signed reading, by width.
pub fn i32_of_bits(u: u32) -> (x: i32)
    ensures
        x == i32_from_bits(u),
{
    proof {
        assert(u as i32 == (if u < 0x80000000 {
            u as int
        } else {
            u as int - 0x100000000
        })) by (bit_vector);
    }
    u as i32
}

/// Converts a signed value to its stored bits.
pub fn i32_bits_of(x: i32) -> (u: u32)
    ensures
        u == i32_to_bits(x),
{
    proof {
        assert(x as u32 == (if x >= 0 {
            x as int
        } else {
            x as int + 0x100000000
        })) by (bit_vector);
    }
    x as u32
}

/// Converts stored bits to the signed reading, by width.
pub fn i64_of_bits(u: u64) -> (x: i64)
    ensures
        x == i64_from_bits(u),
{
    proof {
        assert(u as i64 == (if u < 0x8000000000000000 {
            u as int
        } else {
            u as int - 0x10000000000000000
        })) by (bit_vector);
    }
    u as i64
}

/// Converts a signed value to its stored bits.
pub fn i64_bits_of(x: i64) -> (u: u64)
    ensures
        u == i64_to_bits(x),
{
    proof {
        assert(x as u64 == (if x >= 0 {
            x as int
        } else {
            x as int + 0x10000000000000000
        })) by (bit_vector);
    }
    x as u64
}

/// Converts stored bits to the signed reading, by width.
pub fn i8_of_bits(u: u8) -> (x: i8)
    ensures
        x == i8_from_bits(u),
{
    proof {
        assert(u as i8 == (if u < 0x80 {
            u as int
        } else {
            u as int - 0x100
        })) by (bit_vector);
    }
    u as i8
}

/// Converts a signed value to its stored bits.
pub fn i8_bits_of(x: i8) -> (u: u8)
    ensures
        u == i8_to_bits(x),
{
    proof {
        assert(x as u8 == (if x >= 0 {
            x as int
        } else {
            x as int + 0x100
        })) by (bit_vector);
    }
    x as u8
}

} // verus!
