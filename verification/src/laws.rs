//! The format's laws: what encode and decode guarantee of each other.
//!
//! The central theorem is the round trip: every value the write path
//! fully supports, of a size its length prefixes can carry, decodes
//! back to itself from its own encoding, with trailing bytes ignored.
//! Alongside it stand the failure law for truncated buffers and the
//! record framing laws.

use crate::de::{spec_decode, spec_decode_count, spec_decode_fields, spec_decode_seq};
use crate::endian::{
    i16_from_bits, i32_from_bits, lemma_bits_signed_round_trip, lemma_u16_be_value_round_trip,
    lemma_u32_be_value_round_trip, lemma_u64_be_value_round_trip,
};
use crate::error::SpecErr;
use crate::ser::{spec_encode, spec_encode_count, spec_encode_list};
use crate::value::{Shape, SpecValue};
use vstd::prelude::*;
use vstd::utf8::{encode_utf8, encode_utf8_decode_utf8, encode_utf8_valid_utf8};

verus! {

broadcast use
    lemma_u16_be_value_round_trip,
    lemma_u32_be_value_round_trip,
    lemma_u64_be_value_round_trip,
    lemma_bits_signed_round_trip,
    encode_utf8_valid_utf8,
    encode_utf8_decode_utf8,
;

/// The values whose encoding is guaranteed to decode back to them under
/// the given shape: every scalar of the matching kind, every string
/// whose UTF-8 byte length fits the 16-bit signed prefix, and sequences
/// and records of such values, with sequence counts within the 32-bit
/// signed prefix.  Byte blobs and optional values are left out: blobs
/// are readable but not writable, and an optional writes no presence
/// marker, so its encoding cannot be told apart from the bare value's.
pub open spec fn fits(v: SpecValue, s: Shape) -> bool
    decreases v, 0nat,
{
    match (v, s) {
        (SpecValue::Bool(_), Shape::Bool) => true,
        (SpecValue::I8(_), Shape::I8) => true,
        (SpecValue::U8(_), Shape::U8) => true,
        (SpecValue::I16(_), Shape::I16) => true,
        (SpecValue::U16(_), Shape::U16) => true,
        (SpecValue::I32(_), Shape::I32) => true,
        (SpecValue::U32(_), Shape::U32) => true,
        (SpecValue::I64(_), Shape::I64) => true,
        (SpecValue::U64(_), Shape::U64) => true,
        (SpecValue::F64Bits(_), Shape::F64) => true,
        (SpecValue::Str(cs), Shape::Str) => encode_utf8(cs).len() <= 0x7fff,
        (SpecValue::List(vs), Shape::List(e)) => vs.len() <= 0x7fffffff && fits_all(vs, *e),
        (SpecValue::Record(fs), Shape::Record(ss)) => fs.len() == ss@.len() && fits_fields(
            fs,
            ss@,
        ),
        _ => false,
    }
}

/// Every value of the sequence fits the element shape.
pub open spec fn fits_all(vs: Seq<SpecValue>, e: Shape) -> bool
    decreases vs, 1nat,
{
    vs.len() == 0 || (fits(vs[0], e) && fits_all(vs.drop_first(), e))
}

/// Each field value fits the field shape at its position.
pub open spec fn fits_fields(fs: Seq<SpecValue>, ss: Seq<Shape>) -> bool
    decreases fs, 1nat,
{
    fs.len() == 0 || (ss.len() > 0 && fits(fs[0], ss[0]) && fits_fields(
        fs.drop_first(),
        ss.drop_first(),
    ))
}

/// A chunk of an embedded encoding: if `enc` sits at `pos` in `bytes`,
/// any slice of `enc` sits at the corresponding offset.
proof fn lemma_subrange_chunk(bytes: Seq<u8>, pos: int, enc: Seq<u8>, a: int, b: int)
    requires
        0 <= pos,
        pos + enc.len() <= bytes.len(),
        bytes.subrange(pos, pos + enc.len()) == enc,
        0 <= a <= b <= enc.len(),
    ensures
        bytes.subrange(pos + a, pos + b) == enc.subrange(a, b),
{
    assert forall|k: int| 0 <= k < b - a implies bytes.subrange(pos + a, pos + b)[k]
        == enc.subrange(a, b)[k] by {
        assert(enc[a + k] == bytes.subrange(pos, pos + enc.len() as int)[a + k]);
    }
    assert(bytes.subrange(pos + a, pos + b) =~= enc.subrange(a, b));
}

/// A nonempty character sequence encodes to at least one byte, so only
/// the empty string encodes to zero bytes.
proof fn lemma_encode_utf8_len_zero(cs: Seq<char>)
    requires
        encode_utf8(cs).len() == 0,
    ensures
        cs == Seq::<char>::empty(),
{
    if cs.len() > 0 {
        vstd::utf8::char_is_scalar(cs[0]);
    } else {
        assert(cs =~= Seq::<char>::empty());
    }
}

/// Round trip, at any position in a larger buffer: if the bytes at
/// `pos` are a fitting value's encoding, decoding there yields that
/// value and stops exactly past it.
pub proof fn lemma_round_trip_at(v: SpecValue, s: Shape, bytes: Seq<u8>, pos: int)
    requires
        fits(v, s),
        0 <= pos,
        pos + spec_encode(v).0.len() <= bytes.len(),
        bytes.subrange(pos, pos + spec_encode(v).0.len()) == spec_encode(v).0,
    ensures
        spec_encode(v).1,
        spec_decode(s, bytes, pos) == Ok::<(SpecValue, int), (SpecErr, int)>(
            (v, pos + spec_encode(v).0.len()),
        ),
    decreases v, 0nat,
{
    let enc = spec_encode(v).0;
    match v {
        SpecValue::Bool(b) => {
            assert(bytes[pos] == enc[0]);
        },
        SpecValue::U8(x) => {
            assert(bytes[pos] == enc[0]);
        },
        SpecValue::I8(x) => {
            assert(bytes[pos] == enc[0]);
        },
        SpecValue::U16(x) => {
            assert(bytes.subrange(pos, pos + 2) == enc);
        },
        SpecValue::I16(x) => {
            assert(bytes.subrange(pos, pos + 2) == enc);
        },
        SpecValue::U32(x) => {
            assert(bytes.subrange(pos, pos + 4) == enc);
        },
        SpecValue::I32(x) => {
            assert(bytes.subrange(pos, pos + 4) == enc);
        },
        SpecValue::U64(x) => {
            assert(bytes.subrange(pos, pos + 8) == enc);
        },
        SpecValue::I64(x) => {
            assert(bytes.subrange(pos, pos + 8) == enc);
        },
        SpecValue::F64Bits(x) => {
            assert(bytes.subrange(pos, pos + 8) == enc);
        },
        SpecValue::Str(cs) => {
            let raw = encode_utf8(cs);
            let blen = raw.len() as int;
            assert(blen % 0x10000 == blen);
            assert(bytes.subrange(pos, pos + 2) =~= crate::endian::u16_to_be_bytes(
                (blen % 0x10000) as u16,
            ));
            assert(i16_from_bits((blen % 0x10000) as u16) == blen);
            if blen == 0 {
                lemma_encode_utf8_len_zero(cs);
            } else {
                lemma_subrange_chunk(bytes, pos, enc, 2, 2 + blen);
                assert(enc.subrange(2, 2 + blen) =~= raw);
            }
        },
        SpecValue::List(vs) => {
            let s_elem = s->List_0;
            let rest = spec_encode_list(vs);
            lemma_subrange_chunk(bytes, pos, enc, 0, 4);
            assert(enc.subrange(0, 4) =~= spec_encode_count(vs.len()));
            assert(vs.len() as int % 0x100000000 == vs.len() as int);
            assert(i32_from_bits((vs.len() as int % 0x100000000) as u32) == vs.len() as int);
            assert(spec_decode_count(bytes, pos) == Ok::<(nat, int), (SpecErr, int)>(
                (vs.len(), pos + 4),
            ));
            lemma_subrange_chunk(bytes, pos, enc, 4, 4 + rest.0.len() as int);
            assert(enc.subrange(4, 4 + rest.0.len() as int) =~= rest.0);
            lemma_round_trip_list(vs, *s_elem, bytes, pos + 4);
        },
        SpecValue::Record(fs) => {
            let ss = s->Record_0;
            lemma_round_trip_fields(fs, ss@, bytes, pos);
        },
        _ => {},
    }
}

/// Round trip for a run of values of one element shape, back to back.
proof fn lemma_round_trip_list(vs: Seq<SpecValue>, e: Shape, bytes: Seq<u8>, pos: int)
    requires
        fits_all(vs, e),
        0 <= pos,
        pos + spec_encode_list(vs).0.len() <= bytes.len(),
        bytes.subrange(pos, pos + spec_encode_list(vs).0.len()) == spec_encode_list(vs).0,
    ensures
        spec_encode_list(vs).1,
        spec_decode_seq(e, vs.len(), bytes, pos) == Ok::<(Seq<SpecValue>, int), (SpecErr, int)>(
            (vs, pos + spec_encode_list(vs).0.len()),
        ),
    decreases vs, 1nat,
{
    if vs.len() == 0 {
        assert(vs =~= Seq::<SpecValue>::empty());
    } else {
        let first = spec_encode(vs[0]);
        let enc = spec_encode_list(vs).0;
        assert(enc.subrange(0, first.0.len() as int) =~= first.0);
        lemma_subrange_chunk(bytes, pos, enc, 0, first.0.len() as int);
        lemma_round_trip_at(vs[0], e, bytes, pos);
        let p2 = pos + first.0.len();
        let rest = spec_encode_list(vs.drop_first());
        lemma_subrange_chunk(bytes, pos, enc, first.0.len() as int, enc.len() as int);
        assert(enc.subrange(first.0.len() as int, enc.len() as int) =~= rest.0);
        lemma_round_trip_list(vs.drop_first(), e, bytes, p2);
        assert((vs.len() - 1) as nat == vs.drop_first().len());
        assert(seq![vs[0]] + vs.drop_first() =~= vs);
    }
}

/// Round trip for a record's fields in declaration order.
proof fn lemma_round_trip_fields(fs: Seq<SpecValue>, ss: Seq<Shape>, bytes: Seq<u8>, pos: int)
    requires
        fs.len() == ss.len(),
        fits_fields(fs, ss),
        0 <= pos,
        pos + spec_encode_list(fs).0.len() <= bytes.len(),
        bytes.subrange(pos, pos + spec_encode_list(fs).0.len()) == spec_encode_list(fs).0,
    ensures
        spec_encode_list(fs).1,
        spec_decode_fields(ss, bytes, pos) == Ok::<(Seq<SpecValue>, int), (SpecErr, int)>(
            (fs, pos + spec_encode_list(fs).0.len()),
        ),
    decreases fs, 1nat,
{
    if fs.len() == 0 {
        assert(fs =~= Seq::<SpecValue>::empty());
        assert(ss =~= Seq::<Shape>::empty());
    } else {
        let first = spec_encode(fs[0]);
        let enc = spec_encode_list(fs).0;
        assert(enc.subrange(0, first.0.len() as int) =~= first.0);
        lemma_subrange_chunk(bytes, pos, enc, 0, first.0.len() as int);
        lemma_round_trip_at(fs[0], ss[0], bytes, pos);
        let p2 = pos + first.0.len();
        let rest = spec_encode_list(fs.drop_first());
        lemma_subrange_chunk(bytes, pos, enc, first.0.len() as int, enc.len() as int);
        assert(enc.subrange(first.0.len() as int, enc.len() as int) =~= rest.0);
        lemma_round_trip_fields(fs.drop_first(), ss.drop_first(), bytes, p2);
        assert(seq![fs[0]] + fs.drop_first() =~= fs);
    }
}

/// Round trip: a fitting value's encoding always succeeds, and decoding
/// it back — with any trailing bytes after it — returns the value and
/// consumes exactly the encoding, leaving the trailing bytes unread.
pub proof fn lemma_round_trip(v: SpecValue, s: Shape, rest: Seq<u8>)
    requires
        fits(v, s),
    ensures
        spec_encode(v).1,
        spec_decode(s, spec_encode(v).0 + rest, 0) == Ok::<(SpecValue, int), (SpecErr, int)>(
            (v, spec_encode(v).0.len() as int),
        ),
{
    let bytes = spec_encode(v).0 + rest;
    assert(bytes.subrange(0, spec_encode(v).0.len() as int) =~= spec_encode(v).0);
    lemma_round_trip_at(v, s, bytes, 0);
}

/// The byte width of a fixed-width scalar shape, where one exists.
pub open spec fn fixed_width(s: Shape) -> Option<int> {
    match s {
        Shape::Bool => Some(1),
        Shape::I8 => Some(1),
        Shape::U8 => Some(1),
        Shape::I16 => Some(2),
        Shape::U16 => Some(2),
        Shape::I32 => Some(4),
        Shape::U32 => Some(4),
        Shape::I64 => Some(8),
        Shape::U64 => Some(8),
        Shape::F64 => Some(8),
        _ => None,
    }
}

/// Truncation law: any fixed-width read with fewer bytes left than its
/// width fails with `NotEnoughBytes`, leaving the position unchanged —
/// never a wrong value, never a read out of bounds.
pub proof fn lemma_truncated_read_fails(s: Shape, bytes: Seq<u8>, pos: int)
    requires
        fixed_width(s) is Some,
        0 <= pos,
        bytes.len() < pos + fixed_width(s)->0,
    ensures
        spec_decode(s, bytes, pos) == Err::<(SpecValue, int), (SpecErr, int)>(
            (SpecErr::NotEnoughBytes, pos),
        ),
{
}

/// Record framing law: a record writes its fields' encodings in
/// declaration order, back to back, with no prefix and no separators —
/// splitting the field list anywhere splits the bytes accordingly.
pub proof fn lemma_record_fields_in_order(fields: Seq<SpecValue>, i: int)
    requires
        0 <= i <= fields.len(),
        spec_encode(SpecValue::Record(fields)).1,
    ensures
        spec_encode(SpecValue::Record(fields)).0 == spec_encode(
            SpecValue::Record(fields.take(i)),
        ).0 + spec_encode(SpecValue::Record(fields.skip(i))).0,
{
    crate::ser::lemma_encode_list_split(fields, i);
}

/// A record of one field writes exactly that field's encoding.
pub proof fn lemma_record_of_one(v: SpecValue)
    ensures
        spec_encode(SpecValue::Record(seq![v])).0 == spec_encode(v).0,
        spec_encode(SpecValue::Record(seq![v])).1 == spec_encode(v).1,
{
    crate::ser::lemma_encode_list_snoc(Seq::<SpecValue>::empty(), v);
    assert(Seq::<SpecValue>::empty().push(v) =~= seq![v]);
    assert(spec_encode_list(Seq::<SpecValue>::empty()) == (Seq::<u8>::empty(), true));
    assert(Seq::<u8>::empty() + spec_encode(v).0 =~= spec_encode(v).0);
}

/// Boolean decode law: the byte `0` decodes to false and `1` to true,
/// and any other byte fails with `InvalidBoolEncoding` carrying that
/// byte; one byte is consumed in every case.
pub proof fn lemma_bool_decode(bytes: Seq<u8>, pos: int)
    requires
        0 <= pos < bytes.len(),
    ensures
        bytes[pos] == 0 ==> spec_decode(Shape::Bool, bytes, pos) == Ok::<
            (SpecValue, int),
            (SpecErr, int),
        >((SpecValue::Bool(false), pos + 1)),
        bytes[pos] == 1 ==> spec_decode(Shape::Bool, bytes, pos) == Ok::<
            (SpecValue, int),
            (SpecErr, int),
        >((SpecValue::Bool(true), pos + 1)),
        bytes[pos] != 0 && bytes[pos] != 1 ==> spec_decode(Shape::Bool, bytes, pos) == Err::<
            (SpecValue, int),
            (SpecErr, int),
        >((SpecErr::InvalidBool(bytes[pos]), pos + 1)),
{
}

/// Nullable sentinel law: a string or byte-blob length prefix of `0` or
/// `-1` decodes to the empty value, and a sequence count of `-1` to the
/// empty sequence, consuming nothing past the prefix in every case.
pub proof fn lemma_nullable_sentinels(elem: Shape, bytes: Seq<u8>, pos: int)
    requires
        0 <= pos,
    ensures
        pos + 2 <= bytes.len() && {
            let n = i16_from_bits(crate::endian::u16_from_be_bytes(bytes.subrange(pos, pos + 2)));
            n == 0 || n == -1
        } ==> spec_decode(Shape::Str, bytes, pos) == Ok::<(SpecValue, int), (SpecErr, int)>(
            (SpecValue::Str(Seq::empty()), pos + 2),
        ),
        pos + 4 <= bytes.len() && {
            let n = i32_from_bits(crate::endian::u32_from_be_bytes(bytes.subrange(pos, pos + 4)));
            n == 0 || n == -1
        } ==> spec_decode(Shape::Bytes, bytes, pos) == Ok::<(SpecValue, int), (SpecErr, int)>(
            (SpecValue::Bytes(Seq::empty()), pos + 4),
        ),
        pos + 4 <= bytes.len() && i32_from_bits(
            crate::endian::u32_from_be_bytes(bytes.subrange(pos, pos + 4)),
        ) == -1 ==> spec_decode(Shape::List(Box::new(elem)), bytes, pos) == Ok::<
            (SpecValue, int),
            (SpecErr, int),
        >((SpecValue::List(Seq::empty()), pos + 4)),
{
}

/// The write path's optional asymmetry: an absent value writes nothing
/// at all, and a present value writes the bare inner encoding with no
/// presence marker.  A decoded stream therefore cannot distinguish
/// "absent" from "present and empty" structurally; the schema must
/// disambiguate presence itself.
pub proof fn lemma_optional_writes_no_marker(v: SpecValue)
    ensures
        spec_encode(SpecValue::Opt(Option::None)) == (Seq::<u8>::empty(), true),
        spec_encode(SpecValue::Opt(Option::Some(Box::new(v)))) == spec_encode(v),
{
}

} // verus!
