//! The decode pipeline: answers each shape request with a value pulled
//! from a byte cursor, applying the wire framing rules.
//!
//! The decoder is a strict single pass: it never looks ahead and never
//! backtracks.  All multi-byte reads are big-endian.  Strings carry a
//! 16-bit signed byte-length prefix and byte blobs and sequences a
//! 32-bit signed prefix, with `0` and `-1` both meaning "empty" for
//! strings and blobs and `-1` meaning a zero-element sequence.  Any
//! other negative prefix is treated as a length that no buffer can
//! satisfy and fails with `NotEnoughBytes`.

use crate::cursor::ByteCursor;
use crate::endian::{i16_from_bits, i32_from_bits, i8_from_bits, u16_from_be_bytes, u32_from_be_bytes, u64_from_be_bytes};
use crate::error::{error_matches, ErrorKind, SpecErr};
use crate::value::{spec_label, type_of, view_of, views_of, Shape, SpecValue, Value};
use vstd::prelude::*;
use vstd::slice::slice_to_vec;
use vstd::string::StringSliceAdditionalSpecFns;
use vstd::utf8::{decode_utf8, valid_utf8};

verus! {

broadcast use crate::value::lemma_views_of, crate::cursor::ByteCursor::lemma_wf_bounds;

/// Relies on `std::str::from_utf8`: it succeeds exactly on valid UTF-8,
/// and the returned string slice holds exactly the bytes it was given,
/// hence the characters they encode.
#[verifier::external_body]
fn parse_utf8<'a>(b: &'a [u8]) -> (r: Option<&'a str>)
    ensures
        r is Some <==> valid_utf8(b@),
        r matches Some(s) ==> s.spec_bytes() == b@ && s@ == decode_utf8(b@),
{
    std::str::from_utf8(b).ok()
}

/// What decoding a sequence-count prefix gives: four big-endian bytes
/// read as a signed count, with `-1` meaning zero elements and any
/// other negative count failing as a read past the end of the buffer.
/// An error carries the position the cursor is left at: unchanged when
/// the prefix itself is short, past the prefix otherwise.
pub open spec fn spec_decode_count(bytes: Seq<u8>, pos: int) -> Result<(nat, int), (SpecErr, int)> {
    if pos + 4 <= bytes.len() {
        let n = i32_from_bits(u32_from_be_bytes(bytes.subrange(pos, pos + 4)));
        if n == -1 {
            Ok((0, pos + 4))
        } else if n < 0 {
            Err((SpecErr::NotEnoughBytes, pos + 4))
        } else {
            Ok((n as nat, pos + 4))
        }
    } else {
        Err((SpecErr::NotEnoughBytes, pos))
    }
}

/// What decoding one value of the given shape at `pos` gives: the value
/// and the position just past its bytes, or the error the wire data
/// earns paired with the position the cursor is left at — the cursor
/// never rewinds, so a failure keeps whatever was already consumed.
/// Trailing bytes past the value are not looked at.
pub open spec fn spec_decode(shape: Shape, bytes: Seq<u8>, pos: int) -> Result<
    (SpecValue, int),
    (SpecErr, int),
>
    decreases shape, 0nat, 0nat,
{
    match shape {
        Shape::Bool => {
            if pos + 1 <= bytes.len() {
                let b = bytes[pos];
                if b == 0 {
                    Ok((SpecValue::Bool(false), pos + 1))
                } else if b == 1 {
                    Ok((SpecValue::Bool(true), pos + 1))
                } else {
                    Err((SpecErr::InvalidBool(b), pos + 1))
                }
            } else {
                Err((SpecErr::NotEnoughBytes, pos))
            }
        },
        Shape::U8 => {
            if pos + 1 <= bytes.len() {
                Ok((SpecValue::U8(bytes[pos]), pos + 1))
            } else {
                Err((SpecErr::NotEnoughBytes, pos))
            }
        },
        Shape::I8 => {
            if pos + 1 <= bytes.len() {
                Ok((SpecValue::I8(i8_from_bits(bytes[pos])), pos + 1))
            } else {
                Err((SpecErr::NotEnoughBytes, pos))
            }
        },
        Shape::U16 => {
            if pos + 2 <= bytes.len() {
                Ok((SpecValue::U16(u16_from_be_bytes(bytes.subrange(pos, pos + 2))), pos + 2))
            } else {
                Err((SpecErr::NotEnoughBytes, pos))
            }
        },
        Shape::I16 => {
            if pos + 2 <= bytes.len() {
                Ok(
                    (
                        SpecValue::I16(i16_from_bits(u16_from_be_bytes(bytes.subrange(pos, pos + 2)))),
                        pos + 2,
                    ),
                )
            } else {
                Err((SpecErr::NotEnoughBytes, pos))
            }
        },
        Shape::U32 => {
            if pos + 4 <= bytes.len() {
                Ok((SpecValue::U32(u32_from_be_bytes(bytes.subrange(pos, pos + 4))), pos + 4))
            } else {
                Err((SpecErr::NotEnoughBytes, pos))
            }
        },
        Shape::I32 => {
            if pos + 4 <= bytes.len() {
                Ok(
                    (
                        SpecValue::I32(i32_from_bits(u32_from_be_bytes(bytes.subrange(pos, pos + 4)))),
                        pos + 4,
                    ),
                )
            } else {
                Err((SpecErr::NotEnoughBytes, pos))
            }
        },
        Shape::U64 => {
            if pos + 8 <= bytes.len() {
                Ok((SpecValue::U64(u64_from_be_bytes(bytes.subrange(pos, pos + 8))), pos + 8))
            } else {
                Err((SpecErr::NotEnoughBytes, pos))
            }
        },
        Shape::I64 => {
            if pos + 8 <= bytes.len() {
                Ok(
                    (
                        SpecValue::I64(
                            crate::endian::i64_from_bits(
                                u64_from_be_bytes(bytes.subrange(pos, pos + 8)),
                            ),
                        ),
                        pos + 8,
                    ),
                )
            } else {
                Err((SpecErr::NotEnoughBytes, pos))
            }
        },
        Shape::F64 => {
            if pos + 8 <= bytes.len() {
                Ok((SpecValue::F64Bits(u64_from_be_bytes(bytes.subrange(pos, pos + 8))), pos + 8))
            } else {
                Err((SpecErr::NotEnoughBytes, pos))
            }
        },
        Shape::Str => {
            if pos + 2 <= bytes.len() {
                let n = i16_from_bits(u16_from_be_bytes(bytes.subrange(pos, pos + 2)));
                if n == 0 || n == -1 {
                    Ok((SpecValue::Str(Seq::empty()), pos + 2))
                } else if n < 0 {
                    Err((SpecErr::NotEnoughBytes, pos + 2))
                } else if pos + 2 + n <= bytes.len() {
                    let raw = bytes.subrange(pos + 2, pos + 2 + n);
                    if valid_utf8(raw) {
                        Ok((SpecValue::Str(decode_utf8(raw)), pos + 2 + n))
                    } else {
                        Err((SpecErr::InvalidString, pos + 2 + n))
                    }
                } else {
                    Err((SpecErr::NotEnoughBytes, pos + 2))
                }
            } else {
                Err((SpecErr::NotEnoughBytes, pos))
            }
        },
        Shape::Bytes => {
            if pos + 4 <= bytes.len() {
                let n = i32_from_bits(u32_from_be_bytes(bytes.subrange(pos, pos + 4)));
                if n == 0 || n == -1 {
                    Ok((SpecValue::Bytes(Seq::empty()), pos + 4))
                } else if n < 0 {
                    Err((SpecErr::NotEnoughBytes, pos + 4))
                } else if pos + 4 + n <= bytes.len() {
                    Ok((SpecValue::Bytes(bytes.subrange(pos + 4, pos + 4 + n)), pos + 4 + n))
                } else {
                    Err((SpecErr::NotEnoughBytes, pos + 4))
                }
            } else {
                Err((SpecErr::NotEnoughBytes, pos))
            }
        },
        Shape::List(elem) => {
            match spec_decode_count(bytes, pos) {
                Ok((n, p)) => match spec_decode_seq(*elem, n, bytes, p) {
                    Ok((vs, p2)) => Ok((SpecValue::List(vs), p2)),
                    Err(e) => Err(e),
                },
                Err(e) => Err(e),
            }
        },
        Shape::Record(fields) => {
            match spec_decode_fields(fields@, bytes, pos) {
                Ok((vs, p)) => Ok((SpecValue::Record(vs), p)),
                Err(e) => Err(e),
            }
        },
        _ => Err((SpecErr::Unsupported(spec_label(shape)), pos)),
    }
}

/// What decoding `n` values of one shape back to back gives.
pub open spec fn spec_decode_seq(elem: Shape, n: nat, bytes: Seq<u8>, pos: int) -> Result<
    (Seq<SpecValue>, int),
    (SpecErr, int),
>
    decreases elem, 1nat, n,
{
    if n == 0 {
        Ok((Seq::empty(), pos))
    } else {
        match spec_decode(elem, bytes, pos) {
            Ok((v, p)) => match spec_decode_seq(elem, (n - 1) as nat, bytes, p) {
                Ok((vs, p2)) => Ok((seq![v] + vs, p2)),
                Err(e) => Err(e),
            },
            Err(e) => Err(e),
        }
    }
}

/// What decoding a record's fields in declaration order, back to back
/// with no framing of their own, gives.
pub open spec fn spec_decode_fields(fields: Seq<Shape>, bytes: Seq<u8>, pos: int) -> Result<
    (Seq<SpecValue>, int),
    (SpecErr, int),
>
    decreases fields, 0nat, 0nat,
{
    if fields.len() == 0 {
        Ok((Seq::empty(), pos))
    } else {
        match spec_decode(fields[0], bytes, pos) {
            Ok((v, p)) => match spec_decode_fields(fields.drop_first(), bytes, p) {
                Ok((vs, p2)) => Ok((seq![v] + vs, p2)),
                Err(e) => Err(e),
            },
            Err(e) => Err(e),
        }
    }
}

/// Decoding `i + j` values is decoding `i`, then `j` more from where
/// the first batch stopped.
pub proof fn lemma_decode_seq_split(elem: Shape, i: nat, j: nat, bytes: Seq<u8>, pos: int)
    ensures
        spec_decode_seq(elem, i + j, bytes, pos) == (match spec_decode_seq(elem, i, bytes, pos) {
            Ok((vs, p)) => match spec_decode_seq(elem, j, bytes, p) {
                Ok((ws, q)) => Ok::<(Seq<SpecValue>, int), (SpecErr, int)>((vs + ws, q)),
                Err(e) => Err(e),
            },
            Err(e) => Err(e),
        }),
    decreases i,
{
    if i == 0 {
        match spec_decode_seq(elem, j, bytes, pos) {
            Ok((ws, q)) => {
                assert(Seq::<SpecValue>::empty() + ws =~= ws);
            },
            Err(e) => {},
        }
    } else {
        match spec_decode(elem, bytes, pos) {
            Ok((v, p)) => {
                lemma_decode_seq_split(elem, (i - 1) as nat, j, bytes, p);
                assert((i + j - 1) as nat == (i - 1) as nat + j);
                match spec_decode_seq(elem, (i - 1) as nat, bytes, p) {
                    Ok((vs, p2)) => {
                        match spec_decode_seq(elem, j, bytes, p2) {
                            Ok((ws, q)) => {
                                assert(seq![v] + (vs + ws) =~= (seq![v] + vs) + ws);
                            },
                            Err(e) => {},
                        }
                    },
                    Err(e) => {},
                }
            },
            Err(e) => {},
        }
    }
}

/// Decoding a field list is decoding its first `i` fields, then the
/// rest from where they stopped.
pub proof fn lemma_decode_fields_split(fields: Seq<Shape>, i: int, bytes: Seq<u8>, pos: int)
    requires
        0 <= i <= fields.len(),
    ensures
        spec_decode_fields(fields, bytes, pos) == (match spec_decode_fields(
            fields.take(i),
            bytes,
            pos,
        ) {
            Ok((vs, p)) => match spec_decode_fields(fields.skip(i), bytes, p) {
                Ok((ws, q)) => Ok::<(Seq<SpecValue>, int), (SpecErr, int)>((vs + ws, q)),
                Err(e) => Err(e),
            },
            Err(e) => Err(e),
        }),
    decreases i,
{
    if i == 0 {
        assert(fields.take(0) =~= Seq::<Shape>::empty());
        assert(fields.skip(0) =~= fields);
        match spec_decode_fields(fields, bytes, pos) {
            Ok((ws, q)) => {
                assert(Seq::<SpecValue>::empty() + ws =~= ws);
            },
            Err(e) => {},
        }
    } else {
        assert(fields.take(i)[0] == fields[0]);
        match spec_decode(fields[0], bytes, pos) {
            Ok((v, p)) => {
                let rest = fields.drop_first();
                lemma_decode_fields_split(rest, i - 1, bytes, p);
                assert(fields.take(i).drop_first() =~= rest.take(i - 1));
                assert(fields.skip(i) =~= rest.skip(i - 1));
                match spec_decode_fields(rest.take(i - 1), bytes, p) {
                    Ok((vs, p2)) => {
                        match spec_decode_fields(rest.skip(i - 1), bytes, p2) {
                            Ok((ws, q)) => {
                                assert(seq![v] + (vs + ws) =~= (seq![v] + vs) + ws);
                            },
                            Err(e) => {},
                        }
                    },
                    Err(e) => {},
                }
            },
            Err(e) => {},
        }
    }
}

/// The value-requester side of the traversal: pulls one concretely
/// shaped value after another out of a byte cursor.  A decoder owns no
/// state beyond its cursor and lives only for one decode call.
pub struct Decoder<'a> {
    cursor: ByteCursor<'a>,
}

impl<'a> Decoder<'a> {
    /// The whole buffer being decoded.
    pub closed spec fn data(&self) -> Seq<u8> {
        self.cursor.data()
    }

    /// The offset of the next unread byte.
    pub closed spec fn position(&self) -> int {
        self.cursor.position()
    }

    /// The cursor's well-formedness: the position stays in bounds.
    pub closed spec fn wf(&self) -> bool {
        self.cursor.wf()
    }

    /// What well-formedness gives a caller: the position sits between
    /// the start and the end of the buffer.
    pub broadcast proof fn lemma_wf_bounds(&self)
        requires
            self.wf(),
        ensures
            0 <= #[trigger] self.position() <= self.data().len(),
    {
        self.cursor.lemma_wf_bounds();
    }

    /// A decoder over the whole of `buf`.
    pub fn new(buf: &'a [u8]) -> (d: Self)
        ensures
            d.wf(),
            d.data() == buf@,
            d.position() == 0,
    {
        Decoder { cursor: ByteCursor::new(buf) }
    }

    /// Decodes one byte as a boolean: `0` is false, `1` is true, and
    /// any other byte fails with `InvalidBoolEncoding` carrying it.
    pub fn decode_bool(&mut self) -> (r: Result<bool, ErrorKind>)
        requires
            old(self).wf(),
        ensures
            final(self).wf(),
            final(self).data() == old(self).data(),
            match spec_decode(Shape::Bool, old(self).data(), old(self).position()) {
                Ok((v, p)) => r matches Ok(b) && v == SpecValue::Bool(b) && final(self).position()
                    == p,
                Err(e) => r matches Err(k) && error_matches(k, e.0) && final(self).position() == e.1,
            },
    {
        let b = self.cursor.read_u8()?;
        match b {
            0 => Ok(false),
            1 => Ok(true),
            _ => Err(ErrorKind::InvalidBoolEncoding(b)),
        }
    }

    /// Decodes one byte as an unsigned integer.
    pub fn decode_u8(&mut self) -> (r: Result<u8, ErrorKind>)
        requires
            old(self).wf(),
        ensures
            final(self).wf(),
            final(self).data() == old(self).data(),
            match spec_decode(Shape::U8, old(self).data(), old(self).position()) {
                Ok((v, p)) => r matches Ok(x) && v == SpecValue::U8(x) && final(self).position()
                    == p,
                Err(e) => r matches Err(k) && error_matches(k, e.0) && final(self).position() == e.1,
            },
    {
        self.cursor.read_u8()
    }

    /// Decodes one byte as a signed integer.
    pub fn decode_i8(&mut self) -> (r: Result<i8, ErrorKind>)
        requires
            old(self).wf(),
        ensures
            final(self).wf(),
            final(self).data() == old(self).data(),
            match spec_decode(Shape::I8, old(self).data(), old(self).position()) {
                Ok((v, p)) => r matches Ok(x) && v == SpecValue::I8(x) && final(self).position()
                    == p,
                Err(e) => r matches Err(k) && error_matches(k, e.0) && final(self).position() == e.1,
            },
    {
        self.cursor.read_i8()
    }

    /// Decodes a 16-bit unsigned integer, big-endian.
    pub fn decode_u16(&mut self) -> (r: Result<u16, ErrorKind>)
        requires
            old(self).wf(),
        ensures
            final(self).wf(),
            final(self).data() == old(self).data(),
            match spec_decode(Shape::U16, old(self).data(), old(self).position()) {
                Ok((v, p)) => r matches Ok(x) && v == SpecValue::U16(x) && final(self).position()
                    == p,
                Err(e) => r matches Err(k) && error_matches(k, e.0) && final(self).position() == e.1,
            },
    {
        self.cursor.read_u16()
    }

    /// Decodes a 16-bit signed integer, big-endian.
    pub fn decode_i16(&mut self) -> (r: Result<i16, ErrorKind>)
        requires
            old(self).wf(),
        ensures
            final(self).wf(),
            final(self).data() == old(self).data(),
            match spec_decode(Shape::I16, old(self).data(), old(self).position()) {
                Ok((v, p)) => r matches Ok(x) && v == SpecValue::I16(x) && final(self).position()
                    == p,
                Err(e) => r matches Err(k) && error_matches(k, e.0) && final(self).position() == e.1,
            },
    {
        self.cursor.read_i16()
    }

    /// Decodes a 32-bit unsigned integer, big-endian.
    pub fn decode_u32(&mut self) -> (r: Result<u32, ErrorKind>)
        requires
            old(self).wf(),
        ensures
            final(self).wf(),
            final(self).data() == old(self).data(),
            match spec_decode(Shape::U32, old(self).data(), old(self).position()) {
                Ok((v, p)) => r matches Ok(x) && v == SpecValue::U32(x) && final(self).position()
                    == p,
                Err(e) => r matches Err(k) && error_matches(k, e.0) && final(self).position() == e.1,
            },
    {
        self.cursor.read_u32()
    }

    /// Decodes a 32-bit signed integer, big-endian.
    pub fn decode_i32(&mut self) -> (r: Result<i32, ErrorKind>)
        requires
            old(self).wf(),
        ensures
            final(self).wf(),
            final(self).data() == old(self).data(),
            match spec_decode(Shape::I32, old(self).data(), old(self).position()) {
                Ok((v, p)) => r matches Ok(x) && v == SpecValue::I32(x) && final(self).position()
                    == p,
                Err(e) => r matches Err(k) && error_matches(k, e.0) && final(self).position() == e.1,
            },
    {
        self.cursor.read_i32()
    }

    /// Decodes a 64-bit unsigned integer, big-endian.
    pub fn decode_u64(&mut self) -> (r: Result<u64, ErrorKind>)
        requires
            old(self).wf(),
        ensures
            final(self).wf(),
            final(self).data() == old(self).data(),
            match spec_decode(Shape::U64, old(self).data(), old(self).position()) {
                Ok((v, p)) => r matches Ok(x) && v == SpecValue::U64(x) && final(self).position()
                    == p,
                Err(e) => r matches Err(k) && error_matches(k, e.0) && final(self).position() == e.1,
            },
    {
        self.cursor.read_u64()
    }

    /// Decodes a 64-bit signed integer, big-endian.
    pub fn decode_i64(&mut self) -> (r: Result<i64, ErrorKind>)
        requires
            old(self).wf(),
        ensures
            final(self).wf(),
            final(self).data() == old(self).data(),
            match spec_decode(Shape::I64, old(self).data(), old(self).position()) {
                Ok((v, p)) => r matches Ok(x) && v == SpecValue::I64(x) && final(self).position()
                    == p,
                Err(e) => r matches Err(k) && error_matches(k, e.0) && final(self).position() == e.1,
            },
    {
        self.cursor.read_i64()
    }

    /// Decodes a 64-bit float as its bits, big-endian; the caller turns
    /// them into a float with `f64::from_bits`, losing nothing.
    pub fn decode_f64_bits(&mut self) -> (r: Result<u64, ErrorKind>)
        requires
            old(self).wf(),
        ensures
            final(self).wf(),
            final(self).data() == old(self).data(),
            match spec_decode(Shape::F64, old(self).data(), old(self).position()) {
                Ok((v, p)) => r matches Ok(x) && v == SpecValue::F64Bits(x) && final(self).position() == p,
                Err(e) => r matches Err(k) && error_matches(k, e.0) && final(self).position() == e.1,
            },
    {
        self.cursor.read_u64()
    }

    /// Decodes a string as a zero-copy view into the buffer: a 16-bit
    /// signed byte-length prefix, then that many UTF-8 bytes.  Lengths
    /// `0` and `-1` both give the empty string, consuming nothing past
    /// the prefix.  Bytes that are not UTF-8 fail with
    /// `InvalidStringEncoding`.
    pub fn decode_str(&mut self) -> (r: Result<&'a str, ErrorKind>)
        requires
            old(self).wf(),
        ensures
            final(self).wf(),
            final(self).data() == old(self).data(),
            match spec_decode(Shape::Str, old(self).data(), old(self).position()) {
                Ok((v, p)) => r matches Ok(s) && v == SpecValue::Str(s@) && final(self).position()
                    == p,
                Err(e) => r matches Err(k) && error_matches(k, e.0) && final(self).position() == e.1,
            },
    {
        let n = self.cursor.read_i16()?;
        if n == 0 || n == -1 {
            proof {
                reveal_strlit("");
                assert(""@ =~= Seq::<char>::empty());
            }
            return Ok("");
        }
        if n < 0 {
            return Err(ErrorKind::NotEnoughBytes);
        }
        let raw = self.cursor.read_fixed(n as usize)?;
        match parse_utf8(raw) {
            Option::Some(s) => Ok(s),
            Option::None => Err(ErrorKind::InvalidStringEncoding),
        }
    }

    /// Decodes a string as an owned copy, with the same framing as
    /// [`Self::decode_str`]; the copy outlives the buffer.
    pub fn decode_string(&mut self) -> (r: Result<String, ErrorKind>)
        requires
            old(self).wf(),
        ensures
            final(self).wf(),
            final(self).data() == old(self).data(),
            match spec_decode(Shape::Str, old(self).data(), old(self).position()) {
                Ok((v, p)) => r matches Ok(s) && v == SpecValue::Str(s@) && final(self).position()
                    == p,
                Err(e) => r matches Err(k) && error_matches(k, e.0) && final(self).position() == e.1,
            },
    {
        let n = self.cursor.read_i16()?;
        if n == 0 || n == -1 {
            let out = String::new();
            proof {
                assert(out@ =~= Seq::<char>::empty());
            }
            return Ok(out);
        }
        if n < 0 {
            return Err(ErrorKind::NotEnoughBytes);
        }
        let bytes = self.cursor.copy_fixed(n as usize)?;
        match parse_utf8(bytes.as_slice()) {
            Option::Some(s) => Ok(s.to_owned()),
            Option::None => Err(ErrorKind::InvalidStringEncoding),
        }
    }

    /// Decodes a byte blob as a zero-copy view: a 32-bit signed length
    /// prefix, then that many raw bytes.  Lengths `0` and `-1` both
    /// give an empty view, consuming nothing past the prefix.
    pub fn decode_bytes(&mut self) -> (r: Result<&'a [u8], ErrorKind>)
        requires
            old(self).wf(),
        ensures
            final(self).wf(),
            final(self).data() == old(self).data(),
            match spec_decode(Shape::Bytes, old(self).data(), old(self).position()) {
                Ok((v, p)) => r matches Ok(b) && v == SpecValue::Bytes(b@) && final(self).position() == p,
                Err(e) => r matches Err(k) && error_matches(k, e.0) && final(self).position() == e.1,
            },
    {
        let n = self.cursor.read_i32()?;
        if n == 0 || n == -1 {
            return match self.cursor.read_fixed(0) {
                Ok(rest) => {
                    proof {
                        assert(rest@.len() == 0);
                        assert(rest@ =~= Seq::<u8>::empty());
                    }
                    Ok(rest)
                },
                Err(e) => Err(e),
            };
        }
        if n < 0 {
            return Err(ErrorKind::NotEnoughBytes);
        }
        self.cursor.read_fixed(n as usize)
    }

    /// Decodes a sequence-count prefix: a 32-bit signed count, with
    /// `-1` meaning zero elements.
    pub fn decode_count(&mut self) -> (r: Result<usize, ErrorKind>)
        requires
            old(self).wf(),
        ensures
            final(self).wf(),
            final(self).data() == old(self).data(),
            match spec_decode_count(old(self).data(), old(self).position()) {
                Ok((n, p)) => r matches Ok(c) && c as nat == n && final(self).position() == p,
                Err(e) => r matches Err(k) && error_matches(k, e.0) && final(self).position() == e.1,
            },
    {
        let n = self.cursor.read_i32()?;
        if n == -1 {
            return Ok(0);
        }
        if n < 0 {
            return Err(ErrorKind::NotEnoughBytes);
        }
        Ok(n as usize)
    }

    /// Decodes one value of the given shape: the traversal's main
    /// entry.  Scalars are fixed-width big-endian; strings and byte
    /// blobs are length-prefixed with the `0` / `-1` empty sentinels;
    /// a sequence is a 32-bit count then that many elements; a record
    /// is its fields in declaration order, back to back.  A shape the
    /// wire format does not carry fails with `TypeNotSupported` naming
    /// it.
    pub fn decode_value(&mut self, shape: &Shape) -> (r: Result<Value, ErrorKind>)
        requires
            old(self).wf(),
        ensures
            final(self).wf(),
            final(self).data() == old(self).data(),
            match spec_decode(*shape, old(self).data(), old(self).position()) {
                Ok((v, p)) => r matches Ok(val) && view_of(val) == v && final(self).position()
                    == p,
                Err(e) => r matches Err(k) && error_matches(k, e.0) && final(self).position() == e.1,
            },
        decreases *shape, 0nat, 0nat,
    {
        match shape {
            Shape::Bool => {
                let b = self.decode_bool()?;
                Ok(Value::Bool(b))
            },
            Shape::U8 => {
                let x = self.decode_u8()?;
                Ok(Value::U8(x))
            },
            Shape::I8 => {
                let x = self.decode_i8()?;
                Ok(Value::I8(x))
            },
            Shape::U16 => {
                let x = self.decode_u16()?;
                Ok(Value::U16(x))
            },
            Shape::I16 => {
                let x = self.decode_i16()?;
                Ok(Value::I16(x))
            },
            Shape::U32 => {
                let x = self.decode_u32()?;
                Ok(Value::U32(x))
            },
            Shape::I32 => {
                let x = self.decode_i32()?;
                Ok(Value::I32(x))
            },
            Shape::U64 => {
                let x = self.decode_u64()?;
                Ok(Value::U64(x))
            },
            Shape::I64 => {
                let x = self.decode_i64()?;
                Ok(Value::I64(x))
            },
            Shape::F64 => {
                let x = self.decode_f64_bits()?;
                Ok(Value::F64Bits(x))
            },
            Shape::Str => {
                let s = self.decode_string()?;
                Ok(Value::Str(s))
            },
            Shape::Bytes => {
                let b = self.decode_bytes()?;
                Ok(Value::Bytes(slice_to_vec(b)))
            },
            Shape::List(elem) => {
                proof {
                    assert(decreases_to!(*shape => shape->List_0));
                }
                let n = self.decode_count()?;
                let items = self.decode_list_elems(elem, n)?;
                Ok(Value::List(items))
            },
            Shape::Record(fields) => {
                proof {
                    assert(decreases_to!(*shape => shape->Record_0));
                    assert(decreases_to!(shape->Record_0 => fields@));
                }
                let items = self.decode_field_list(fields)?;
                Ok(Value::Record(items))
            },
            _ => Err(ErrorKind::TypeNotSupported(type_of(shape))),
        }
    }

    /// Decodes `n` values of one shape back to back.
    #[verifier::loop_isolation(false)]
    fn decode_list_elems(&mut self, elem: &Shape, n: usize) -> (r: Result<Vec<Value>, ErrorKind>)
        requires
            old(self).wf(),
        ensures
            final(self).wf(),
            final(self).data() == old(self).data(),
            match spec_decode_seq(*elem, n as nat, old(self).data(), old(self).position()) {
                Ok((vs, p)) => r matches Ok(out) && views_of(out@) == vs && final(self).position()
                    == p,
                Err(e) => r matches Err(k) && error_matches(k, e.0) && final(self).position() == e.1,
            },
        decreases *elem, 1nat, 0nat,
    {
        let mut acc: Vec<Value> = Vec::new();
        proof {
            assert(views_of(acc@) =~= Seq::<SpecValue>::empty());
        }
        let mut j: usize = 0;
        while j < n
            invariant
                j <= n,
                acc@.len() == j,
                self.wf(),
                self.data() == old(self).data(),
                spec_decode_seq(*elem, j as nat, old(self).data(), old(self).position())
                    == Ok::<(Seq<SpecValue>, int), (SpecErr, int)>((views_of(acc@), self.position())),
            decreases n - j,
        {
            let ghost pre_views = views_of(acc@);
            let ghost pre_pos = self.position();
            let item = match self.decode_value(elem) {
                Ok(item) => item,
                Err(e) => {
                    proof {
                        lemma_decode_seq_split(*elem, j as nat, (n - j) as nat, old(self).data(),
                            old(self).position());
                        assert(spec_decode_seq(*elem, (n - j) as nat, old(self).data(), pre_pos)
                            is Err);
                    }
                    return Err(e);
                },
            };
            let ghost pre_acc = acc@;
            let ghost p2 = self.position();
            acc.push(item);
            proof {
                lemma_decode_seq_split(*elem, j as nat, 1nat, old(self).data(),
                    old(self).position());
                assert(spec_decode_seq(*elem, 0nat, old(self).data(), p2)
                    == Ok::<(Seq<SpecValue>, int), (SpecErr, int)>((Seq::empty(), p2)));
                assert(seq![view_of(item)] + Seq::<SpecValue>::empty() =~= seq![view_of(item)]);
                assert(spec_decode_seq(*elem, 1nat, old(self).data(), pre_pos)
                    == Ok::<(Seq<SpecValue>, int), (SpecErr, int)>((seq![view_of(item)], p2)));
                crate::value::lemma_views_of(pre_acc);
                crate::value::lemma_views_of(acc@);
                assert(views_of(acc@) =~= pre_views + seq![view_of(item)]);
                assert((j + 1) as nat == j as nat + 1nat);
            }
            j = j + 1;
        }
        Ok(acc)
    }

    /// Decodes a record's fields in declaration order, back to back.
    #[verifier::loop_isolation(false)]
    fn decode_field_list(&mut self, fields: &Vec<Shape>) -> (r: Result<Vec<Value>, ErrorKind>)
        requires
            old(self).wf(),
        ensures
            final(self).wf(),
            final(self).data() == old(self).data(),
            match spec_decode_fields(fields@, old(self).data(), old(self).position()) {
                Ok((vs, p)) => r matches Ok(out) && views_of(out@) == vs && final(self).position()
                    == p,
                Err(e) => r matches Err(k) && error_matches(k, e.0) && final(self).position() == e.1,
            },
        decreases fields@, 0nat, 0nat,
    {
        let mut acc: Vec<Value> = Vec::new();
        proof {
            assert(views_of(acc@) =~= Seq::<SpecValue>::empty());
        }
        let mut j: usize = 0;
        while j < fields.len()
            invariant
                j <= fields@.len(),
                acc@.len() == j,
                self.wf(),
                self.data() == old(self).data(),
                spec_decode_fields(fields@.take(j as int), old(self).data(),
                    old(self).position()) == Ok::<(Seq<SpecValue>, int), (SpecErr, int)>((views_of(acc@),
                    self.position())),
            decreases fields@.len() - j,
        {
            proof {
                assert(decreases_to!(fields@ => fields@[j as int]));
            }
            let ghost pre_views = views_of(acc@);
            let ghost pre_pos = self.position();
            let item = match self.decode_value(&fields[j]) {
                Ok(item) => item,
                Err(e) => {
                    proof {
                        lemma_decode_fields_split(fields@, j as int, old(self).data(),
                            old(self).position());
                        assert(fields@.skip(j as int)[0] == fields@[j as int]);
                        assert(spec_decode_fields(fields@.skip(j as int), old(self).data(),
                            pre_pos) is Err);
                    }
                    return Err(e);
                },
            };
            let ghost pre_acc = acc@;
            let ghost p2 = self.position();
            acc.push(item);
            proof {
                lemma_decode_fields_split(fields@.take(j as int + 1), j as int, old(self).data(),
                    old(self).position());
                assert(fields@.take(j as int + 1).take(j as int) =~= fields@.take(j as int));
                let single = fields@.take(j as int + 1).skip(j as int);
                assert(single.len() == 1 && single[0] == fields@[j as int]);
                assert(single.drop_first() =~= Seq::<Shape>::empty());
                assert(spec_decode_fields(Seq::<Shape>::empty(), old(self).data(), p2)
                    == Ok::<(Seq<SpecValue>, int), (SpecErr, int)>((Seq::empty(), p2)));
                assert(seq![view_of(item)] + Seq::<SpecValue>::empty() =~= seq![view_of(item)]);
                assert(spec_decode_fields(single, old(self).data(), pre_pos)
                    == Ok::<(Seq<SpecValue>, int), (SpecErr, int)>((seq![view_of(item)], p2)));
                crate::value::lemma_views_of(pre_acc);
                crate::value::lemma_views_of(acc@);
                assert(views_of(acc@) =~= pre_views + seq![view_of(item)]);
            }
            j = j + 1;
        }
        proof {
            assert(fields@.take(fields@.len() as int) =~= fields@);
        }
        Ok(acc)
    }
}

/// Decodes one value of the given shape from the front of `buf`: the
/// library's decode entry point.  Unread bytes after a successful
/// decode are not an error; running out of bytes mid-value is.
pub fn from_bytes<'a>(shape: &Shape, buf: &'a [u8]) -> (r: Result<Value, ErrorKind>)
    ensures
        match spec_decode(*shape, buf@, 0) {
            Ok((v, p)) => r matches Ok(val) && view_of(val) == v,
            Err(e) => r matches Err(k) && error_matches(k, e.0),
        },
{
    let mut decoder = Decoder::new(buf);
    decoder.decode_value(shape)
}

} // verus!
