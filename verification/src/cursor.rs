//! A bounds-checked, forward-only reader over a borrowed byte buffer.

use crate::endian::{
    i16_from_bits, i16_of_bits, i32_from_bits, i32_of_bits, i64_from_bits, i64_of_bits,
    i8_from_bits, i8_of_bits, u16_be_read, u16_from_be_bytes, u32_be_read, u32_from_be_bytes,
    u64_be_read, u64_from_be_bytes,
};
use crate::error::ErrorKind;
use vstd::prelude::*;
use vstd::slice::{slice_subrange, slice_to_vec};

verus! {

/// Sequential zero-copy reads over a borrowed buffer.  The cursor only
/// ever advances; a failed read reports `NotEnoughBytes` and leaves the
/// position where it was.  The cursor lives only as long as one decode
/// call and never outlives the buffer it borrows.
pub struct ByteCursor<'a> {
    buf: &'a [u8],
    pos: usize,
}

impl<'a> ByteCursor<'a> {
    /// The whole underlying buffer.
    pub closed spec fn data(&self) -> Seq<u8> {
        self.buf@
    }

    /// The offset of the next unread byte.
    pub closed spec fn position(&self) -> int {
        self.pos as int
    }

    /// The position never passes the end of the buffer.
    pub closed spec fn wf(&self) -> bool {
        self.pos <= self.buf@.len()
    }

    /// What well-formedness gives a caller: the position sits between
    /// the start and the end of the buffer.
    pub broadcast proof fn lemma_wf_bounds(&self)
        requires
            self.wf(),
        ensures
            0 <= #[trigger] self.position() <= self.data().len(),
    {
    }

    /// A cursor at the start of `buf`.
    pub fn new(buf: &'a [u8]) -> (c: Self)
        ensures
            c.wf(),
            c.data() == buf@,
            c.position() == 0,
    {
        ByteCursor { buf, pos: 0 }
    }

    /// Succeeds exactly when `room` more bytes are available; no side effect.
    pub fn check_room(&self, room: usize) -> (r: Result<(), ErrorKind>)
        requires
            self.wf(),
        ensures
            r is Ok <==> self.position() + room <= self.data().len(),
            r is Err ==> r->Err_0 is NotEnoughBytes,
            self.data().len() <= usize::MAX,
    {
        if room > self.buf.len() - self.pos {
            Err(ErrorKind::NotEnoughBytes)
        } else {
            Ok(())
        }
    }

    /// Reads the next `len` bytes as a borrowed view and advances past
    /// them; the view aliases the underlying buffer and stays valid
    /// after the cursor is gone.
    pub fn read_fixed(&mut self, len: usize) -> (r: Result<&'a [u8], ErrorKind>)
        requires
            old(self).wf(),
        ensures
            final(self).wf(),
            final(self).data() == old(self).data(),
            r is Ok <==> old(self).position() + len <= old(self).data().len(),
            r matches Ok(s) ==> s@ == old(self).data().subrange(
                old(self).position(),
                old(self).position() + len,
            ) && final(self).position() == old(self).position() + len,
            r is Err ==> r->Err_0 is NotEnoughBytes && final(self).position() == old(self).position(),
    {
        self.check_room(len)?;
        let begin = self.pos;
        self.pos = self.pos + len;
        Ok(slice_subrange(self.buf, begin, self.pos))
    }

    /// Reads the next `len` bytes as an owned copy and advances past
    /// them; the copy outlives the buffer.
    pub fn copy_fixed(&mut self, len: usize) -> (r: Result<Vec<u8>, ErrorKind>)
        requires
            old(self).wf(),
        ensures
            final(self).wf(),
            final(self).data() == old(self).data(),
            r is Ok <==> old(self).position() + len <= old(self).data().len(),
            r matches Ok(v) ==> v@ == old(self).data().subrange(
                old(self).position(),
                old(self).position() + len,
            ) && final(self).position() == old(self).position() + len,
            r is Err ==> r->Err_0 is NotEnoughBytes && final(self).position() == old(self).position(),
    {
        let s = self.read_fixed(len)?;
        Ok(slice_to_vec(s))
    }

    /// Reads one byte as an unsigned integer.
    pub fn read_u8(&mut self) -> (r: Result<u8, ErrorKind>)
        requires
            old(self).wf(),
        ensures
            final(self).wf(),
            final(self).data() == old(self).data(),
            r is Ok <==> old(self).position() + 1 <= old(self).data().len(),
            r matches Ok(x) ==> x == old(self).data()[old(self).position()] && final(self).position() == old(self).position() + 1,
            r is Err ==> r->Err_0 is NotEnoughBytes && final(self).position() == old(self).position(),
    {
        self.check_room(1)?;
        let x = self.buf[self.pos];
        self.pos = self.pos + 1;
        Ok(x)
    }

    /// Reads one byte as a signed integer.
    pub fn read_i8(&mut self) -> (r: Result<i8, ErrorKind>)
        requires
            old(self).wf(),
        ensures
            final(self).wf(),
            final(self).data() == old(self).data(),
            r is Ok <==> old(self).position() + 1 <= old(self).data().len(),
            r matches Ok(x) ==> x == i8_from_bits(old(self).data()[old(self).position()]) && final(self).position() == old(self).position() + 1,
            r is Err ==> r->Err_0 is NotEnoughBytes && final(self).position() == old(self).position(),
    {
        let x = self.read_u8()?;
        Ok(i8_of_bits(x))
    }

    /// Reads a 16-bit unsigned integer, big-endian.
    pub fn read_u16(&mut self) -> (r: Result<u16, ErrorKind>)
        requires
            old(self).wf(),
        ensures
            final(self).wf(),
            final(self).data() == old(self).data(),
            r is Ok <==> old(self).position() + 2 <= old(self).data().len(),
            r matches Ok(x) ==> x == u16_from_be_bytes(
                old(self).data().subrange(old(self).position(), old(self).position() + 2),
            ) && final(self).position() == old(self).position() + 2,
            r is Err ==> r->Err_0 is NotEnoughBytes && final(self).position() == old(self).position(),
    {
        self.check_room(2)?;
        let x = u16_be_read(self.buf, self.pos);
        self.pos = self.pos + 2;
        Ok(x)
    }

    /// Reads a 16-bit signed integer, big-endian.
    pub fn read_i16(&mut self) -> (r: Result<i16, ErrorKind>)
        requires
            old(self).wf(),
        ensures
            final(self).wf(),
            final(self).data() == old(self).data(),
            r is Ok <==> old(self).position() + 2 <= old(self).data().len(),
            r matches Ok(x) ==> x == i16_from_bits(
                u16_from_be_bytes(
                    old(self).data().subrange(old(self).position(), old(self).position() + 2),
                ),
            ) && final(self).position() == old(self).position() + 2,
            r is Err ==> r->Err_0 is NotEnoughBytes && final(self).position() == old(self).position(),
    {
        let x = self.read_u16()?;
        Ok(i16_of_bits(x))
    }

    /// Reads a 32-bit unsigned integer, big-endian.
    pub fn read_u32(&mut self) -> (r: Result<u32, ErrorKind>)
        requires
            old(self).wf(),
        ensures
            final(self).wf(),
            final(self).data() == old(self).data(),
            r is Ok <==> old(self).position() + 4 <= old(self).data().len(),
            r matches Ok(x) ==> x == u32_from_be_bytes(
                old(self).data().subrange(old(self).position(), old(self).position() + 4),
            ) && final(self).position() == old(self).position() + 4,
            r is Err ==> r->Err_0 is NotEnoughBytes && final(self).position() == old(self).position(),
    {
        self.check_room(4)?;
        let x = u32_be_read(self.buf, self.pos);
        self.pos = self.pos + 4;
        Ok(x)
    }

    /// Reads a 32-bit signed integer, big-endian.
    pub fn read_i32(&mut self) -> (r: Result<i32, ErrorKind>)
        requires
            old(self).wf(),
        ensures
            final(self).wf(),
            final(self).data() == old(self).data(),
            r is Ok <==> old(self).position() + 4 <= old(self).data().len(),
            r matches Ok(x) ==> x == i32_from_bits(
                u32_from_be_bytes(
                    old(self).data().subrange(old(self).position(), old(self).position() + 4),
                ),
            ) && final(self).position() == old(self).position() + 4,
            r is Err ==> r->Err_0 is NotEnoughBytes && final(self).position() == old(self).position(),
    {
        let x = self.read_u32()?;
        Ok(i32_of_bits(x))
    }

    /// Reads a 64-bit unsigned integer, big-endian.
    pub fn read_u64(&mut self) -> (r: Result<u64, ErrorKind>)
        requires
            old(self).wf(),
        ensures
            final(self).wf(),
            final(self).data() == old(self).data(),
            r is Ok <==> old(self).position() + 8 <= old(self).data().len(),
            r matches Ok(x) ==> x == u64_from_be_bytes(
                old(self).data().subrange(old(self).position(), old(self).position() + 8),
            ) && final(self).position() == old(self).position() + 8,
            r is Err ==> r->Err_0 is NotEnoughBytes && final(self).position() == old(self).position(),
    {
        self.check_room(8)?;
        let x = u64_be_read(self.buf, self.pos);
        self.pos = self.pos + 8;
        Ok(x)
    }

    /// Reads a 64-bit signed integer, big-endian.
    pub fn read_i64(&mut self) -> (r: Result<i64, ErrorKind>)
        requires
            old(self).wf(),
        ensures
            final(self).wf(),
            final(self).data() == old(self).data(),
            r is Ok <==> old(self).position() + 8 <= old(self).data().len(),
            r matches Ok(x) ==> x == i64_from_bits(
                u64_from_be_bytes(
                    old(self).data().subrange(old(self).position(), old(self).position() + 8),
                ),
            ) && final(self).position() == old(self).position() + 8,
            r is Err ==> r->Err_0 is NotEnoughBytes && final(self).position() == old(self).position(),
    {
        let x = self.read_u64()?;
        Ok(i64_of_bits(x))
    }
}

} // verus!
