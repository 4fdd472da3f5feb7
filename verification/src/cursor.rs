//! A forward-only reader over an immutable byte buffer.

use crate::buf::{
    bytes_advance, bytes_clone, bytes_from_vec, bytes_get_u16_le, bytes_get_u32_le, bytes_get_u8,
    bytes_prefix, bytes_remaining, bytes_truncate, bytes_view, le_u16, le_u32,
};
use crate::error::Malformed;
use vstd::prelude::*;

verus! {

/// What a cursor is, mathematically: how many bytes of the file lie behind
/// it, and the bytes that it can still hand out.
pub struct CursorView {
    pub consumed: nat,
    pub rest: Seq<u8>,
}

impl CursorView {
    /// The cursor `n` bytes further on.
    pub open spec fn skip(self, n: nat) -> Result<CursorView, Malformed> {
        if n <= self.rest.len() {
            Ok(CursorView { consumed: self.consumed + n, rest: self.rest.skip(n as int) })
        } else {
            Err(Malformed::Truncated)
        }
    }

    /// The cursor at `offset` bytes from the start of the file.
    pub open spec fn seek_absolute(self, offset: nat) -> Result<CursorView, Malformed> {
        if offset < self.consumed {
            Err(Malformed::InvalidOffset)
        } else {
            self.skip((offset - self.consumed) as nat)
        }
    }

    /// The cursor with its readable window cut down to `n` bytes. A window
    /// that is already shorter stays as it is.
    pub open spec fn truncate_to(self, n: nat) -> CursorView {
        if n <= self.rest.len() {
            CursorView { consumed: self.consumed, rest: self.rest.take(n as int) }
        } else {
            self
        }
    }

    /// The next byte, and the cursor behind it.
    pub open spec fn read_u8(self) -> Result<(u8, CursorView), Malformed> {
        match self.skip(1) {
            Ok(next) => Ok((self.rest[0], next)),
            Err(e) => Err(e),
        }
    }

    /// The next two bytes as a little-endian number, and the cursor
    /// behind them.
    pub open spec fn read_u16(self) -> Result<(u16, CursorView), Malformed> {
        match self.skip(2) {
            Ok(next) => Ok((le_u16(self.rest), next)),
            Err(e) => Err(e),
        }
    }

    /// The next four bytes as a little-endian number, and the cursor
    /// behind them.
    pub open spec fn read_u32(self) -> Result<(u32, CursorView), Malformed> {
        match self.skip(4) {
            Ok(next) => Ok((le_u32(self.rest), next)),
            Err(e) => Err(e),
        }
    }

    /// The next `n` bytes as they stand.
    pub open spec fn read_bytes(self, n: nat) -> Result<(Seq<u8>, CursorView), Malformed> {
        match self.skip(n) {
            Ok(next) => Ok((self.rest.take(n as int), next)),
            Err(e) => Err(e),
        }
    }
}

/// The cursor reads the file `data`: its window is a part of `data` and
/// starts as many bytes into it as lie behind the cursor.
pub open spec fn reads_from(c: CursorView, data: Seq<u8>) -> bool {
    &&& c.consumed + c.rest.len() <= data.len()
    &&& c.rest == data.subrange(c.consumed as int, c.consumed as int + c.rest.len() as int)
}

/// A cursor that reads a file still reads it after a skip, a seek or a
/// cut of its window, and stands where it was sent.
pub proof fn lemma_moves_read_from(c: CursorView, data: Seq<u8>, n: nat)
    requires
        reads_from(c, data),
    ensures
        c.skip(n) is Ok ==> reads_from(c.skip(n)->Ok_0, data) && c.skip(n)->Ok_0.consumed
            == c.consumed + n,
        c.seek_absolute(n) is Ok ==> reads_from(c.seek_absolute(n)->Ok_0, data)
            && c.seek_absolute(n)->Ok_0.consumed == n,
        reads_from(c.truncate_to(n), data) && c.truncate_to(n).consumed == c.consumed,
        c.read_bytes(n) is Ok ==> c.read_bytes(n)->Ok_0.0 == data.subrange(
            c.consumed as int,
            c.consumed as int + n as int,
        ),
{
    if c.skip(n) is Ok {
        assert(c.skip(n)->Ok_0.rest =~= data.subrange(
            c.consumed as int + n as int,
            c.consumed as int + c.rest.len() as int,
        ));
        assert(c.rest.take(n as int) =~= data.subrange(
            c.consumed as int,
            c.consumed as int + n as int,
        ));
    }
    if c.seek_absolute(n) is Ok {
        let m = (n - c.consumed) as nat;
        assert(c.skip(m)->Ok_0.rest =~= data.subrange(
            n as int,
            c.consumed as int + c.rest.len() as int,
        ));
    }
    if n <= c.rest.len() {
        assert(c.rest.take(n as int) =~= data.subrange(
            c.consumed as int,
            c.consumed as int + n as int,
        ));
    }
}

/// What a cursor that reads a file reads is what the file has at the
/// place of the cursor.
pub proof fn lemma_reads_read_from(c: CursorView, data: Seq<u8>)
    requires
        reads_from(c, data),
    ensures
        c.read_u8() is Ok ==> c.read_u8()->Ok_0.0 == data[c.consumed as int] && reads_from(
            c.read_u8()->Ok_0.1,
            data,
        ) && c.read_u8()->Ok_0.1.consumed == c.consumed + 1,
        c.read_u16() is Ok ==> c.read_u16()->Ok_0.0 == le_u16(data.skip(c.consumed as int))
            && reads_from(c.read_u16()->Ok_0.1, data) && c.read_u16()->Ok_0.1.consumed
            == c.consumed + 2,
        c.read_u32() is Ok ==> c.read_u32()->Ok_0.0 == le_u32(data.skip(c.consumed as int))
            && reads_from(c.read_u32()->Ok_0.1, data) && c.read_u32()->Ok_0.1.consumed
            == c.consumed + 4,
{
    lemma_moves_read_from(c, data, 1);
    lemma_moves_read_from(c, data, 2);
    lemma_moves_read_from(c, data, 4);
}

/// A position-tracking reader. Clones share the underlying bytes and move
/// independently.
#[derive(Debug)]
pub struct ByteCursor {
    buf: bytes::Bytes,
    consumed: usize,
}

impl View for ByteCursor {
    type V = CursorView;

    closed spec fn view(&self) -> CursorView {
        CursorView { consumed: self.consumed as nat, rest: bytes_view(self.buf) }
    }
}

impl Clone for ByteCursor {
    fn clone(&self) -> (c: Self)
        ensures
            c@ == self@,
            self.wf() ==> c.wf(),
    {
        ByteCursor { buf: bytes_clone(&self.buf), consumed: self.consumed }
    }
}

impl ByteCursor {
    /// The position counter can follow the cursor to the end of its window.
    pub closed spec fn wf(&self) -> bool {
        self.consumed + bytes_view(self.buf).len() <= usize::MAX
    }

    /// A cursor at the start of `data`.
    pub fn new(data: Vec<u8>) -> (c: ByteCursor)
        ensures
            c.wf(),
            c@ == (CursorView { consumed: 0, rest: data@ }),
    {
        assert(data@.len() == data.len());
        ByteCursor { buf: bytes_from_vec(data), consumed: 0 }
    }

    /// How many bytes lie behind the cursor.
    pub fn position(&self) -> (n: usize)
        ensures
            n == self@.consumed,
    {
        self.consumed
    }

    /// How many bytes can still be read.
    pub fn remaining(&self) -> (n: usize)
        ensures
            n == self@.rest.len(),
    {
        bytes_remaining(&self.buf)
    }

    /// Moves `n` bytes forward, or fails with `Truncated` and stays.
    pub fn skip(&mut self, n: usize) -> (r: Result<(), Malformed>)
        requires
            old(self).wf(),
        ensures
            final(self).wf(),
            match old(self)@.skip(n as nat) {
                Ok(next) => r == Ok::<(), Malformed>(()) && final(self)@ == next,
                Err(e) => r == Err::<(), Malformed>(e) && final(self)@ == old(self)@,
            },
    {
        if n <= bytes_remaining(&self.buf) {
            bytes_advance(&mut self.buf, n);
            self.consumed = self.consumed + n;
            Ok(())
        } else {
            Err(Malformed::Truncated)
        }
    }

    /// Moves to `offset` bytes from the start of the file. A target behind
    /// the cursor is an `InvalidOffset`, one past the end is `Truncated`;
    /// either way the cursor stays.
    pub fn seek_absolute(&mut self, offset: u32) -> (r: Result<(), Malformed>)
        requires
            old(self).wf(),
        ensures
            final(self).wf(),
            match old(self)@.seek_absolute(offset as nat) {
                Ok(next) => r == Ok::<(), Malformed>(()) && final(self)@ == next,
                Err(e) => r == Err::<(), Malformed>(e) && final(self)@ == old(self)@,
            },
    {
        let offset = offset as usize;
        if offset < self.consumed {
            Err(Malformed::InvalidOffset)
        } else {
            self.skip(offset - self.consumed)
        }
    }

    /// Cuts the readable window down to `n` bytes; a shorter window stays.
    pub fn truncate_to(&mut self, n: usize)
        requires
            old(self).wf(),
        ensures
            final(self).wf(),
            final(self)@ == old(self)@.truncate_to(n as nat),
    {
        bytes_truncate(&mut self.buf, n);
    }

    /// Reads one byte, or fails with `Truncated` and stays.
    pub fn read_u8(&mut self) -> (r: Result<u8, Malformed>)
        requires
            old(self).wf(),
        ensures
            final(self).wf(),
            match old(self)@.read_u8() {
                Ok((v, next)) => r == Ok::<u8, Malformed>(v) && final(self)@ == next,
                Err(e) => r == Err::<u8, Malformed>(e) && final(self)@ == old(self)@,
            },
    {
        if bytes_remaining(&self.buf) >= 1 {
            let v = bytes_get_u8(&mut self.buf);
            self.consumed = self.consumed + 1;
            Ok(v)
        } else {
            Err(Malformed::Truncated)
        }
    }

    /// Reads two bytes as a little-endian number, or fails with
    /// `Truncated` and stays.
    pub fn read_u16(&mut self) -> (r: Result<u16, Malformed>)
        requires
            old(self).wf(),
        ensures
            final(self).wf(),
            match old(self)@.read_u16() {
                Ok((v, next)) => r == Ok::<u16, Malformed>(v) && final(self)@ == next,
                Err(e) => r == Err::<u16, Malformed>(e) && final(self)@ == old(self)@,
            },
    {
        if bytes_remaining(&self.buf) >= 2 {
            let v = bytes_get_u16_le(&mut self.buf);
            self.consumed = self.consumed + 2;
            Ok(v)
        } else {
            Err(Malformed::Truncated)
        }
    }

    /// Reads four bytes as a little-endian number, or fails with
    /// `Truncated` and stays.
    pub fn read_u32(&mut self) -> (r: Result<u32, Malformed>)
        requires
            old(self).wf(),
        ensures
            final(self).wf(),
            match old(self)@.read_u32() {
                Ok((v, next)) => r == Ok::<u32, Malformed>(v) && final(self)@ == next,
                Err(e) => r == Err::<u32, Malformed>(e) && final(self)@ == old(self)@,
            },
    {
        if bytes_remaining(&self.buf) >= 4 {
            let v = bytes_get_u32_le(&mut self.buf);
            self.consumed = self.consumed + 4;
            Ok(v)
        } else {
            Err(Malformed::Truncated)
        }
    }

    /// The bit pattern of the next single-precision number.
    pub fn read_f32(&mut self) -> (r: Result<u32, Malformed>)
        requires
            old(self).wf(),
        ensures
            final(self).wf(),
            match old(self)@.read_u32() {
                Ok((v, next)) => r == Ok::<u32, Malformed>(v) && final(self)@ == next,
                Err(e) => r == Err::<u32, Malformed>(e) && final(self)@ == old(self)@,
            },
    {
        self.read_u32()
    }

    /// Copies the next `n` bytes out and moves past them.
    pub fn read_bytes(&mut self, n: usize) -> (r: Result<Vec<u8>, Malformed>)
        requires
            old(self).wf(),
        ensures
            final(self).wf(),
            match old(self)@.read_bytes(n as nat) {
                Ok((bytes, next)) => r is Ok && r->Ok_0@ == bytes && final(self)@ == next,
                Err(e) => r is Err && r->Err_0 == e && final(self)@ == old(self)@,
            },
    {
        if n <= bytes_remaining(&self.buf) {
            let v = bytes_prefix(&self.buf, n);
            bytes_advance(&mut self.buf, n);
            self.consumed = self.consumed + n;
            Ok(v)
        } else {
            Err(Malformed::Truncated)
        }
    }
}

} // verus!
