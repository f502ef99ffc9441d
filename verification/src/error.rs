//! The error taxonomy shared by the encode and decode pipelines.

use vstd::prelude::*;

verus! {

/// Declares the standard I/O error type, so the error of a failed write
/// can carry what the underlying stream reported.  The library itself
/// never constructs this variant: its own sink is an in-memory vector.
#[verifier::external_type_specification]
#[verifier::external_body]
pub struct ExIoError(std::io::Error);

/// Errors that may happen when encoding or decoding a payload.
///
/// Every error is terminal for the call that raised it: there is no
/// retry and no partial result, and the cursor or sink is left in
/// whatever state it had reached.
#[derive(Debug)]
pub enum ErrorKind {
    /// Wraps an I/O error of the underlying output stream (write path only).
    Io(std::io::Error),
    /// Encoding or decoding was asked for a shape that the wire format
    /// does not carry; the label names the shape.
    TypeNotSupported(&'static str),
    /// A boolean was expected, but the byte read was neither 0 nor 1.
    InvalidBoolEncoding(u8),
    /// A string's bytes are not valid UTF-8.
    InvalidStringEncoding,
    /// The buffer ran out of bytes before a read was satisfied.
    NotEnoughBytes,
    /// An error of the layer driving the traversal, kept as a message.
    Custom(String),
}

/// The spec-level reading of a codec failure: the same taxonomy as
/// [`ErrorKind`], with the unsupported-shape label as a character
/// sequence and without the I/O and custom escape hatches, which no
/// in-memory encode or decode can raise.
pub enum SpecErr {
    NotEnoughBytes,
    InvalidBool(u8),
    InvalidString,
    Unsupported(Seq<char>),
}

/// How an executable error corresponds to its spec-level reading.
pub open spec fn error_matches(k: ErrorKind, e: SpecErr) -> bool {
    match (k, e) {
        (ErrorKind::NotEnoughBytes, SpecErr::NotEnoughBytes) => true,
        (ErrorKind::InvalidBoolEncoding(b), SpecErr::InvalidBool(c)) => b == c,
        (ErrorKind::InvalidStringEncoding, SpecErr::InvalidString) => true,
        (ErrorKind::TypeNotSupported(s), SpecErr::Unsupported(l)) => s@ == l,
        _ => false,
    }
}

} // verus!
