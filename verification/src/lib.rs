//! Encoders and decoders for the Kafka wire format.
//!
//! The wire format is big-endian and length-prefixed: fixed-width scalars
//! are written most-significant byte first, strings carry a 16-bit signed
//! byte-length prefix, byte blobs and sequences a 32-bit signed count
//! prefix, and records are their fields back to back with no framing of
//! their own.  Nullable strings, byte blobs and sequences use the length
//! sentinels `0` and `-1` to mean "empty / absent" on the read path.
//!
//! Optional values write no presence marker: an absent value writes zero
//! bytes and a present value writes the bare inner encoding, so a decoded
//! stream cannot distinguish "absent" from "empty" structurally.  Schemas
//! must disambiguate presence themselves; the asymmetry is part of the
//! protocol family and is preserved here.
//!
//! Variable-length (varint) and "compact" forms are not supported.

pub mod cursor;
pub mod de;
pub mod endian;
pub mod error;
pub mod laws;
pub mod ser;
pub mod value;

pub use cursor::ByteCursor;
pub use de::{from_bytes, Decoder};
pub use error::ErrorKind;
pub use ser::{to_bytes, Encoder};
pub use value::{type_of, Shape, SpecValue, Value};
