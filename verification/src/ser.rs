//! The encode pipeline: walks a value and writes its wire representation.
//!
//! Mirrors the decode pipeline's framing rules with the protocol's
//! asymmetries: byte blobs are not writable, strings always write a real
//! length (never the null sentinel), and optional values write either
//! nothing or the bare inner encoding with no presence marker.

use crate::endian::{
    i16_bits_of, i16_to_bits, i32_bits_of, i32_to_bits, i64_bits_of, i64_to_bits, i8_bits_of,
    i8_to_bits, u16_be_write, u16_to_be_bytes, u32_be_write, u32_to_be_bytes, u64_be_write,
    u64_to_be_bytes,
};
use crate::error::ErrorKind;
use crate::value::{view_of, views_of, SpecValue, Value};
use vstd::prelude::*;
use vstd::utf8::encode_utf8;

verus! {

broadcast use crate::value::lemma_views_of;

/// The bytes a string writes: two big-endian bytes holding the UTF-8
/// byte length truncated to 16 bits (the length is not validated
/// against the `i16` range), then the UTF-8 bytes themselves.  An empty
/// string writes length `0` and nothing more; there is no separate
/// null-string form on the write path.
pub open spec fn spec_encode_str(chars: Seq<char>) -> Seq<u8> {
    u16_to_be_bytes((encode_utf8(chars).len() % 0x10000) as u16) + encode_utf8(chars)
}

/// The bytes a sequence count writes: the count truncated to 32 bits,
/// big-endian.
pub open spec fn spec_encode_count(n: nat) -> Seq<u8> {
    u32_to_be_bytes((n % 0x100000000) as u32)
}

/// What encoding a value writes, and whether the encode succeeds.
/// A failure keeps everything written before the failing element — there
/// is no rollback — so the byte component is the exact residue either way.
pub open spec fn spec_encode(v: SpecValue) -> (Seq<u8>, bool)
    decreases v, 0nat,
{
    match v {
        SpecValue::Bool(b) => (
            seq![
                if b {
                    1u8
                } else {
                    0u8
                },
            ],
            true,
        ),
        SpecValue::I8(x) => (seq![i8_to_bits(x)], true),
        SpecValue::U8(x) => (seq![x], true),
        SpecValue::I16(x) => (u16_to_be_bytes(i16_to_bits(x)), true),
        SpecValue::U16(x) => (u16_to_be_bytes(x), true),
        SpecValue::I32(x) => (u32_to_be_bytes(i32_to_bits(x)), true),
        SpecValue::U32(x) => (u32_to_be_bytes(x), true),
        SpecValue::I64(x) => (u64_to_be_bytes(i64_to_bits(x)), true),
        SpecValue::U64(x) => (u64_to_be_bytes(x), true),
        SpecValue::F64Bits(x) => (u64_to_be_bytes(x), true),
        SpecValue::Str(cs) => (spec_encode_str(cs), true),
        SpecValue::Bytes(_) => (Seq::empty(), false),
        SpecValue::List(vs) => {
            let rest = spec_encode_list(vs);
            (spec_encode_count(vs.len()) + rest.0, rest.1)
        },
        SpecValue::Record(vs) => spec_encode_list(vs),
        SpecValue::Opt(o) => match o {
            Option::None => (Seq::empty(), true),
            Option::Some(bx) => spec_encode(*bx),
        },
    }
}

/// What encoding each value of a sequence in turn writes, stopping at
/// the first failure.
pub open spec fn spec_encode_list(vs: Seq<SpecValue>) -> (Seq<u8>, bool)
    decreases vs, 1nat,
{
    if vs.len() == 0 {
        (Seq::empty(), true)
    } else {
        let first = spec_encode(vs[0]);
        if first.1 {
            let rest = spec_encode_list(vs.drop_first());
            (first.0 + rest.0, rest.1)
        } else {
            (first.0, false)
        }
    }
}

/// Splitting a sequence splits its encoding: the whole writes the first
/// part's bytes, then — if the first part succeeded — the second part's.
pub proof fn lemma_encode_list_split(vs: Seq<SpecValue>, i: int)
    requires
        0 <= i <= vs.len(),
    ensures
        spec_encode_list(vs).1 == (spec_encode_list(vs.take(i)).1 && spec_encode_list(
            vs.skip(i),
        ).1),
        spec_encode_list(vs).0 == if spec_encode_list(vs.take(i)).1 {
            spec_encode_list(vs.take(i)).0 + spec_encode_list(vs.skip(i)).0
        } else {
            spec_encode_list(vs.take(i)).0
        },
    decreases i,
{
    if i == 0 {
        assert(vs.take(0) =~= Seq::<SpecValue>::empty());
        assert(vs.skip(0) =~= vs);
        assert(Seq::<u8>::empty() + spec_encode_list(vs).0 =~= spec_encode_list(vs).0);
    } else {
        let rest = vs.drop_first();
        lemma_encode_list_split(rest, i - 1);
        assert(vs.take(i).drop_first() =~= rest.take(i - 1));
        assert(vs.skip(i) =~= rest.skip(i - 1));
        assert(vs.take(i)[0] == vs[0]);
        let first = spec_encode(vs[0]);
        if first.1 {
            if spec_encode_list(rest.take(i - 1)).1 {
                assert(first.0 + (spec_encode_list(rest.take(i - 1)).0 + spec_encode_list(
                    rest.skip(i - 1),
                ).0) =~= (first.0 + spec_encode_list(rest.take(i - 1)).0) + spec_encode_list(
                    rest.skip(i - 1),
                ).0);
            }
        }
    }
}

/// Appending one value appends its encoding, if everything before it
/// succeeded; after a failure nothing more is written.
pub proof fn lemma_encode_list_snoc(vs: Seq<SpecValue>, v: SpecValue)
    ensures
        spec_encode_list(vs.push(v)).1 == (spec_encode_list(vs).1 && spec_encode(v).1),
        spec_encode_list(vs.push(v)).0 == if spec_encode_list(vs).1 {
            spec_encode_list(vs).0 + spec_encode(v).0
        } else {
            spec_encode_list(vs).0
        },
    decreases vs.len(),
{
    if vs.len() == 0 {
        let single = vs.push(v);
        assert(single.len() == 1 && single[0] == v);
        assert(single.drop_first() =~= Seq::<SpecValue>::empty());
        assert(spec_encode_list(Seq::<SpecValue>::empty()) == (Seq::<u8>::empty(), true));
        if spec_encode(v).1 {
            assert(spec_encode_list(single).0 == spec_encode(v).0 + Seq::<u8>::empty());
            assert(spec_encode(v).0 + Seq::<u8>::empty() =~= spec_encode(v).0);
        }
        assert(Seq::<u8>::empty() + spec_encode(v).0 =~= spec_encode(v).0);
    } else {
        lemma_encode_list_snoc(vs.drop_first(), v);
        assert(vs.push(v).drop_first() =~= vs.drop_first().push(v));
        assert(vs.push(v)[0] == vs[0]);
        let first = spec_encode(vs[0]);
        if first.1 {
            if spec_encode_list(vs.drop_first()).1 {
                assert(first.0 + (spec_encode_list(vs.drop_first()).0 + spec_encode(v).0) =~= (
                first.0 + spec_encode_list(vs.drop_first()).0) + spec_encode(v).0);
            }
        }
    }
}

/// Appends every byte of `b`, in order.
fn push_bytes(out: &mut Vec<u8>, b: &[u8])
    ensures
        final(out)@ == old(out)@ + b@,
{
    let mut i: usize = 0;
    while i < b.len()
        invariant
            i <= b@.len(),
            out@ == old(out)@ + b@.take(i as int),
        decreases b@.len() - i,
    {
        let x = b[i];
        out.push(x);
        proof {
            assert(old(out)@ + b@.take(i as int) + seq![b@[i as int]] =~= old(out)@ + b@.take(
                i as int + 1,
            ));
        }
        i = i + 1;
    }
    proof {
        assert(b@.take(b@.len() as int) =~= b@);
    }
}

/// An append-only byte sink: the value-receiver side of the traversal.
/// Each push writes the wire representation of one value; nothing ever
/// rewinds, and a failed encode keeps what was already written.
pub struct Encoder {
    out: Vec<u8>,
}

impl Encoder {
    /// Everything written so far.
    pub closed spec fn bytes(&self) -> Seq<u8> {
        self.out@
    }

    /// An empty sink.
    pub fn new() -> (e: Self)
        ensures
            e.bytes() == Seq::<u8>::empty(),
    {
        Encoder { out: Vec::new() }
    }

    /// The written bytes, handed back to the caller (who typically
    /// patches a message-size prefix in afterwards).
    pub fn into_bytes(self) -> (out: Vec<u8>)
        ensures
            out@ == self.bytes(),
    {
        self.out
    }

    /// A borrowed view of the written bytes.
    pub fn as_bytes(&self) -> (out: &[u8])
        ensures
            out@ == self.bytes(),
    {
        self.out.as_slice()
    }

    /// Writes a boolean as one byte, `1` for true and `0` for false.
    pub fn push_bool(&mut self, v: bool)
        ensures
            final(self).bytes() == old(self).bytes() + spec_encode(SpecValue::Bool(v)).0,
    {
        if v {
            self.out.push(1);
        } else {
            self.out.push(0);
        }
        proof {
            assert(self.out@ =~= old(self).out@ + spec_encode(SpecValue::Bool(v)).0);
        }
    }

    /// Writes one unsigned byte.
    pub fn push_u8(&mut self, v: u8)
        ensures
            final(self).bytes() == old(self).bytes() + spec_encode(SpecValue::U8(v)).0,
    {
        self.out.push(v);
        proof {
            assert(self.out@ =~= old(self).out@ + spec_encode(SpecValue::U8(v)).0);
        }
    }

    /// Writes one signed byte.
    pub fn push_i8(&mut self, v: i8)
        ensures
            final(self).bytes() == old(self).bytes() + spec_encode(SpecValue::I8(v)).0,
    {
        let b = i8_bits_of(v);
        self.out.push(b);
        proof {
            assert(self.out@ =~= old(self).out@ + spec_encode(SpecValue::I8(v)).0);
        }
    }

    /// Writes a 16-bit unsigned integer, big-endian.
    pub fn push_u16(&mut self, v: u16)
        ensures
            final(self).bytes() == old(self).bytes() + spec_encode(SpecValue::U16(v)).0,
    {
        u16_be_write(&mut self.out, v);
    }

    /// Writes a 16-bit signed integer, big-endian.
    pub fn push_i16(&mut self, v: i16)
        ensures
            final(self).bytes() == old(self).bytes() + spec_encode(SpecValue::I16(v)).0,
    {
        u16_be_write(&mut self.out, i16_bits_of(v));
    }

    /// Writes a 32-bit unsigned integer, big-endian.
    pub fn push_u32(&mut self, v: u32)
        ensures
            final(self).bytes() == old(self).bytes() + spec_encode(SpecValue::U32(v)).0,
    {
        u32_be_write(&mut self.out, v);
    }

    /// Writes a 32-bit signed integer, big-endian.
    pub fn push_i32(&mut self, v: i32)
        ensures
            final(self).bytes() == old(self).bytes() + spec_encode(SpecValue::I32(v)).0,
    {
        u32_be_write(&mut self.out, i32_bits_of(v));
    }

    /// Writes a 64-bit unsigned integer, big-endian.
    pub fn push_u64(&mut self, v: u64)
        ensures
            final(self).bytes() == old(self).bytes() + spec_encode(SpecValue::U64(v)).0,
    {
        u64_be_write(&mut self.out, v);
    }

    /// Writes a 64-bit signed integer, big-endian.
    pub fn push_i64(&mut self, v: i64)
        ensures
            final(self).bytes() == old(self).bytes() + spec_encode(SpecValue::I64(v)).0,
    {
        u64_be_write(&mut self.out, i64_bits_of(v));
    }

    /// Writes a 64-bit float, given as its bits, big-endian.
    pub fn push_f64_bits(&mut self, bits: u64)
        ensures
            final(self).bytes() == old(self).bytes() + spec_encode(SpecValue::F64Bits(bits)).0,
    {
        u64_be_write(&mut self.out, bits);
    }

    /// Writes a string: its UTF-8 byte length as a 16-bit big-endian
    /// prefix (truncated, not validated against the `i16` range), then
    /// its UTF-8 bytes.
    pub fn push_str(&mut self, s: &str)
        ensures
            final(self).bytes() == old(self).bytes() + spec_encode_str(s@),
    {
        let b = s.as_bytes();
        let len16 = (b.len() % 0x10000) as u16;
        u16_be_write(&mut self.out, len16);
        push_bytes(&mut self.out, b);
        proof {
            assert(self.out@ =~= old(self).out@ + spec_encode_str(s@));
        }
    }

    /// Writes a sequence count as a 32-bit big-endian prefix, truncated.
    pub fn push_count(&mut self, n: usize)
        ensures
            final(self).bytes() == old(self).bytes() + spec_encode_count(n as nat),
    {
        let bits = ((n as u64) % 0x100000000) as u32;
        u32_be_write(&mut self.out, bits);
    }

    /// Writes the wire representation of a whole value: scalars as
    /// fixed-width big-endian, strings length-prefixed, sequences as a
    /// 32-bit count then each element, records as their fields back to
    /// back, optional values with no presence marker.  Byte blobs are
    /// not writable and fail with `TypeNotSupported`; the failure keeps
    /// everything already written.
    #[verifier::loop_isolation(false)]
    #[verifier::rlimit(60)]
    pub fn encode_value(&mut self, v: &Value) -> (r: Result<(), ErrorKind>)
        ensures
            final(self).bytes() == old(self).bytes() + spec_encode(view_of(*v)).0,
            r is Ok <==> spec_encode(view_of(*v)).1,
            r is Err ==> (r->Err_0 matches ErrorKind::TypeNotSupported(l) && l@ == "bytes"@),
        decreases *v, 1nat,
    {
        match v {
            Value::Bool(b) => {
                self.push_bool(*b);
                Ok(())
            },
            Value::I8(x) => {
                self.push_i8(*x);
                Ok(())
            },
            Value::U8(x) => {
                self.push_u8(*x);
                Ok(())
            },
            Value::I16(x) => {
                self.push_i16(*x);
                Ok(())
            },
            Value::U16(x) => {
                self.push_u16(*x);
                Ok(())
            },
            Value::I32(x) => {
                self.push_i32(*x);
                Ok(())
            },
            Value::U32(x) => {
                self.push_u32(*x);
                Ok(())
            },
            Value::I64(x) => {
                self.push_i64(*x);
                Ok(())
            },
            Value::U64(x) => {
                self.push_u64(*x);
                Ok(())
            },
            Value::F64Bits(x) => {
                self.push_f64_bits(*x);
                Ok(())
            },
            Value::Str(s) => {
                self.push_str(s.as_str());
                Ok(())
            },
            Value::Bytes(_) => Err(ErrorKind::TypeNotSupported("bytes")),
            Value::List(vs) => {
                self.push_count(vs.len());
                proof {
                    assert(decreases_to!(*v => v->List_0));
                    assert(decreases_to!(v->List_0 => vs@));
                    crate::value::lemma_views_of(vs@);
                    assert(old(self).bytes() + (spec_encode_count(vs@.len()) + spec_encode_list(
                        views_of(vs@),
                    ).0) =~= old(self).bytes() + spec_encode_count(vs@.len()) + spec_encode_list(
                        views_of(vs@),
                    ).0);
                }
                self.encode_slice(vs)
            },
            Value::Record(vs) => {
                proof {
                    assert(decreases_to!(*v => v->Record_0));
                    assert(decreases_to!(v->Record_0 => vs@));
                }
                self.encode_slice(vs)
            },
            Value::Opt(o) => match o {
                Option::None => Ok(()),
                Option::Some(bx) => self.encode_value(&**bx),
            },
        }
    }

    /// Writes each value of a slice in turn, with no framing of its own;
    /// stops at the first failure, keeping what was already written.
    #[verifier::loop_isolation(false)]
    fn encode_slice(&mut self, vs: &Vec<Value>) -> (r: Result<(), ErrorKind>)
        ensures
            final(self).bytes() == old(self).bytes() + spec_encode_list(views_of(vs@)).0,
            r is Ok <==> spec_encode_list(views_of(vs@)).1,
            r is Err ==> (r->Err_0 matches ErrorKind::TypeNotSupported(l) && l@ == "bytes"@),
        decreases vs@, 0nat,
    {
        let ghost views = views_of(vs@);
        proof {
            crate::value::lemma_views_of(vs@);
        }
        let mut i: usize = 0;
        while i < vs.len()
            invariant
                i <= vs@.len(),
                spec_encode_list(views.take(i as int)).1,
                self.bytes() == old(self).bytes() + spec_encode_list(views.take(i as int)).0,
            decreases vs@.len() - i,
        {
            proof {
                assert(decreases_to!(vs@ => vs@[i as int]));
            }
            let ghost pre = self.bytes();
            let r = self.encode_value(&vs[i]);
            proof {
                assert(views[i as int] == view_of(vs@[i as int]));
                assert(self.bytes() == pre + spec_encode(views[i as int]).0);
                lemma_encode_list_snoc(views.take(i as int), views[i as int]);
                assert(views.take(i as int).push(views[i as int]) =~= views.take(i as int + 1));
                assert(old(self).bytes() + spec_encode_list(views.take(i as int)).0 + spec_encode(
                    views[i as int],
                ).0 =~= old(self).bytes() + (spec_encode_list(views.take(i as int)).0
                    + spec_encode(views[i as int]).0));
            }
            match r {
                Ok(()) => {
                    i = i + 1;
                },
                Err(e) => {
                    proof {
                        lemma_encode_list_split(views, i as int);
                        assert(views.skip(i as int)[0] == views[i as int]);
                        assert(spec_encode_list(views.skip(i as int)).0 == spec_encode(
                            views[i as int],
                        ).0);
                        assert(spec_encode_list(views).0 == spec_encode_list(views.take(i as int)).0
                            + spec_encode(views[i as int]).0);
                        assert(old(self).bytes() + (spec_encode_list(views.take(i as int)).0
                            + spec_encode(views[i as int]).0) =~= old(self).bytes()
                            + spec_encode_list(views.take(i as int)).0 + spec_encode(
                            views[i as int],
                        ).0);
                    }
                    return Err(e);
                },
            }
        }
        proof {
            assert(views.take(views.len() as int) =~= views);
        }
        Ok(())
    }
}

/// Encodes a whole value into a fresh byte vector: the library's encode
/// entry point.  Succeeds for every value that holds no byte blob;
/// a value with a byte blob anywhere inside fails with
/// `TypeNotSupported`, byte blobs being readable but not writable.
pub fn to_bytes(value: &Value) -> (r: Result<Vec<u8>, ErrorKind>)
    ensures
        r is Ok <==> spec_encode(view_of(*value)).1,
        r matches Ok(out) ==> out@ == spec_encode(view_of(*value)).0,
        r is Err ==> (r->Err_0 matches ErrorKind::TypeNotSupported(l) && l@ == "bytes"@),
{
    let mut enc = Encoder::new();
    match enc.encode_value(value) {
        Ok(()) => Ok(enc.into_bytes()),
        Err(e) => Err(e),
    }
}

} // verus!
