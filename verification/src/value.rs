//! The data model the codec walks: runtime shape descriptors, materialized
//! values, and their spec-level counterparts.
//!
//! The codec is traversal-driven: it does not know concrete record layouts
//! ahead of time.  A [`Shape`] describes what value is wanted next on the
//! read path; a [`Value`] is what a decode materializes and what an encode
//! walks.  [`SpecValue`] is the mathematical reading of a [`Value`], with
//! strings as character sequences and buffers as byte sequences.

use vstd::prelude::*;

verus! {

/// A runtime descriptor of the value wanted at one point of a decode:
/// a scalar kind, a string, a byte blob, a counted sequence of one
/// element shape, or a record of field shapes decoded in declaration
/// order.  The shapes past `Record` name forms the wire format does not
/// carry; asking for one fails with `TypeNotSupported`.
#[derive(Debug, PartialEq)]
pub enum Shape {
    Bool,
    I8,
    U8,
    I16,
    U16,
    I32,
    U32,
    I64,
    U64,
    /// A 64-bit IEEE-754 float, carried through the codec as its bits.
    F64,
    Str,
    Bytes,
    List(Box<Shape>),
    Record(Vec<Shape>),
    F32,
    Char,
    Unit,
    Dict,
    Opt(Box<Shape>),
    Enum,
}

/// A materialized structured value.
///
/// A 64-bit float travels as its bit pattern (`F64Bits`), so the codec's
/// integer-only core stays exact; callers convert with `f64::to_bits` and
/// `f64::from_bits`, which lose nothing.  `Opt` exists for the write path
/// only: `None` writes no bytes and `Some` writes the bare inner value,
/// with no presence marker.  `Bytes` exists for the read path only.
#[derive(Debug, PartialEq)]
pub enum Value {
    Bool(bool),
    I8(i8),
    U8(u8),
    I16(i16),
    U16(u16),
    I32(i32),
    U32(u32),
    I64(i64),
    U64(u64),
    F64Bits(u64),
    Str(String),
    Bytes(Vec<u8>),
    List(Vec<Value>),
    Record(Vec<Value>),
    Opt(Option<Box<Value>>),
}

/// The mathematical reading of a [`Value`].
pub enum SpecValue {
    Bool(bool),
    I8(i8),
    U8(u8),
    I16(i16),
    U16(u16),
    I32(i32),
    U32(u32),
    I64(i64),
    U64(u64),
    F64Bits(u64),
    Str(Seq<char>),
    Bytes(Seq<u8>),
    List(Seq<SpecValue>),
    Record(Seq<SpecValue>),
    Opt(Option<Box<SpecValue>>),
}

/// The spec-level reading of a value: scalars unchanged, strings as
/// their character sequences, buffers as byte sequences, aggregates
/// element by element.
pub open spec fn view_of(v: Value) -> SpecValue
    decreases v, 0nat,
{
    match v {
        Value::Bool(b) => SpecValue::Bool(b),
        Value::I8(x) => SpecValue::I8(x),
        Value::U8(x) => SpecValue::U8(x),
        Value::I16(x) => SpecValue::I16(x),
        Value::U16(x) => SpecValue::U16(x),
        Value::I32(x) => SpecValue::I32(x),
        Value::U32(x) => SpecValue::U32(x),
        Value::I64(x) => SpecValue::I64(x),
        Value::U64(x) => SpecValue::U64(x),
        Value::F64Bits(x) => SpecValue::F64Bits(x),
        Value::Str(s) => SpecValue::Str(s@),
        Value::Bytes(b) => SpecValue::Bytes(b@),
        Value::List(vs) => SpecValue::List(views_of(vs@)),
        Value::Record(vs) => SpecValue::Record(views_of(vs@)),
        Value::Opt(o) => match o {
            Option::None => SpecValue::Opt(Option::None),
            Option::Some(bx) => SpecValue::Opt(Option::Some(Box::new(view_of(*bx)))),
        },
    }
}

/// The spec-level reading of each value in a sequence, in order.
pub open spec fn views_of(vs: Seq<Value>) -> Seq<SpecValue>
    decreases vs, 1nat,
{
    if vs.len() == 0 {
        Seq::empty()
    } else {
        seq![view_of(vs[0])] + views_of(vs.drop_first())
    }
}

/// `views_of` reads a sequence element by element.
pub broadcast proof fn lemma_views_of(vs: Seq<Value>)
    ensures
        #[trigger] views_of(vs).len() == vs.len(),
        forall|i: int| 0 <= i < vs.len() ==> views_of(vs)[i] == view_of(vs[i]),
    decreases vs.len(),
{
    if vs.len() > 0 {
        lemma_views_of(vs.drop_first());
    }
}

impl View for Value {
    type V = SpecValue;

    open spec fn view(&self) -> SpecValue {
        view_of(*self)
    }
}

impl DeepView for Value {
    type V = SpecValue;

    open spec fn deep_view(&self) -> SpecValue {
        view_of(*self)
    }
}

/// The diagnostic label of a shape, as a character sequence.
pub open spec fn spec_label(s: Shape) -> Seq<char>
{
    match s {
        Shape::Bool => "bool"@,
        Shape::I8 => "i8"@,
        Shape::U8 => "u8"@,
        Shape::I16 => "i16"@,
        Shape::U16 => "u16"@,
        Shape::I32 => "i32"@,
        Shape::U32 => "u32"@,
        Shape::I64 => "i64"@,
        Shape::U64 => "u64"@,
        Shape::F64 => "f64"@,
        Shape::Str => "str"@,
        Shape::Bytes => "bytes"@,
        Shape::List(_) => "seq"@,
        Shape::Record(_) => "record"@,
        Shape::F32 => "de-f32"@,
        Shape::Char => "de-char"@,
        Shape::Unit => "de-unit"@,
        Shape::Dict => "de-map"@,
        Shape::Opt(_) => "de-option"@,
        Shape::Enum => "de-enum"@,
    }
}

/// The diagnostic label of a shape: what a `TypeNotSupported` error
/// names when decoding is asked for a shape the format does not carry.
pub fn type_of(shape: &Shape) -> (r: &'static str)
    ensures
        r@ == spec_label(*shape),
{
    match shape {
        Shape::Bool => "bool",
        Shape::I8 => "i8",
        Shape::U8 => "u8",
        Shape::I16 => "i16",
        Shape::U16 => "u16",
        Shape::I32 => "i32",
        Shape::U32 => "u32",
        Shape::I64 => "i64",
        Shape::U64 => "u64",
        Shape::F64 => "f64",
        Shape::Str => "str",
        Shape::Bytes => "bytes",
        Shape::List(_) => "seq",
        Shape::Record(_) => "record",
        Shape::F32 => "de-f32",
        Shape::Char => "de-char",
        Shape::Unit => "de-unit",
        Shape::Dict => "de-map",
        Shape::Opt(_) => "de-option",
        Shape::Enum => "de-enum",
    }
}

} // verus!
