use vstd::prelude::*;

use crate::error::DecodeError;

verus! {

/// The big-endian 16-bit integer stored at `s[i]`, `s[i + 1]`.
pub open spec fn be_u16(s: Seq<u8>, i: int) -> int {
    s[i] as int * 256 + s[i + 1] as int
}

/// The big-endian 32-bit integer stored at `s[i..i + 4]`.
pub open spec fn be_u32(s: Seq<u8>, i: int) -> int {
    s[i] as int * 16777216 + s[i + 1] as int * 65536 + s[i + 2] as int * 256 + s[i + 3] as int
}

/// Reads a big-endian `u32` at `i`.
pub fn read_be_u32_at(s: &[u8], i: usize) -> (r: u32)
    requires
        i + 4 <= s@.len(),
    ensures
        r as int == be_u32(s@, i as int),
{
    (s[i] as u32) * 16777216 + (s[i + 1] as u32) * 65536 + (s[i + 2] as u32) * 256 + (s[i + 3] as u32)
}

/// A read position over an immutable byte buffer.
pub struct ByteCursor<'a> {
    data: &'a [u8],
    pos: usize,
}

impl<'a> ByteCursor<'a> {
    /// The bytes the cursor reads.
    pub closed spec fn data(&self) -> Seq<u8> {
        self.data@
    }

    /// The offset of the next byte to read.
    pub closed spec fn pos(&self) -> int {
        self.pos as int
    }

    /// The offset never runs past the end of the buffer.
    pub closed spec fn wf(&self) -> bool {
        self.pos <= self.data@.len()
    }

    /// A cursor at the start of `data`.
    pub fn new(data: &'a [u8]) -> (r: Self)
        ensures
            r.wf(),
            r.data() == data@,
            r.pos() == 0,
    {
        ByteCursor { data, pos: 0 }
    }

    /// The offset of the next byte to read.
    pub fn position(&self) -> (r: usize)
        ensures
            r as int == self.pos(),
    {
        self.pos
    }

    /// Moves the cursor back to the start of its buffer.
    pub fn reset(&mut self)
        ensures
            final(self).wf(),
            final(self).data() == old(self).data(),
            final(self).pos() == 0,
    {
        self.pos = 0;
    }

    /// How many bytes are left to read.
    pub fn remaining(&self) -> (r: usize)
        requires
            self.wf(),
        ensures
            r as int == self.data().len() - self.pos(),
    {
        self.data.len() - self.pos
    }

    /// Reads one byte.
    pub fn read_u8(&mut self) -> (r: Result<u8, DecodeError>)
        requires
            old(self).wf(),
        ensures
            final(self).wf(),
            final(self).data() == old(self).data(),
            old(self).pos() + 1 <= old(self).data().len() ==> r == Ok::<u8, DecodeError>(
                old(self).data()[old(self).pos()],
            ) && final(self).pos() == old(self).pos() + 1,
            old(self).pos() + 1 > old(self).data().len() ==> r == Err::<u8, DecodeError>(
                DecodeError::UnexpectedEof,
            ) && final(self).pos() == old(self).pos(),
    {
        if self.pos < self.data.len() {
            let b = self.data[self.pos];
            self.pos = self.pos + 1;
            Ok(b)
        } else {
            Err(DecodeError::UnexpectedEof)
        }
    }

    /// Reads a big-endian 16-bit integer.
    pub fn read_u16(&mut self) -> (r: Result<u16, DecodeError>)
        requires
            old(self).wf(),
        ensures
            final(self).wf(),
            final(self).data() == old(self).data(),
            old(self).pos() + 2 <= old(self).data().len() ==> r is Ok && r->Ok_0 as int == be_u16(
                old(self).data(),
                old(self).pos(),
            ) && final(self).pos() == old(self).pos() + 2,
            old(self).pos() + 2 > old(self).data().len() ==> r == Err::<u16, DecodeError>(
                DecodeError::UnexpectedEof,
            ) && final(self).pos() == old(self).pos(),
    {
        if self.data.len() - self.pos >= 2 {
            let v = (self.data[self.pos] as u16) * 256 + (self.data[self.pos + 1] as u16);
            self.pos = self.pos + 2;
            Ok(v)
        } else {
            Err(DecodeError::UnexpectedEof)
        }
    }

    /// Reads a big-endian 32-bit integer.
    pub fn read_u32(&mut self) -> (r: Result<u32, DecodeError>)
        requires
            old(self).wf(),
        ensures
            final(self).wf(),
            final(self).data() == old(self).data(),
            old(self).pos() + 4 <= old(self).data().len() ==> r is Ok && r->Ok_0 as int == be_u32(
                old(self).data(),
                old(self).pos(),
            ) && final(self).pos() == old(self).pos() + 4,
            old(self).pos() + 4 > old(self).data().len() ==> r == Err::<u32, DecodeError>(
                DecodeError::UnexpectedEof,
            ) && final(self).pos() == old(self).pos(),
    {
        if self.data.len() - self.pos >= 4 {
            let v = read_be_u32_at(self.data, self.pos);
            self.pos = self.pos + 4;
            Ok(v)
        } else {
            Err(DecodeError::UnexpectedEof)
        }
    }

    /// Reads the next `n` bytes as a slice of the buffer.
    pub fn read_bytes(&mut self, n: usize) -> (r: Result<&'a [u8], DecodeError>)
        requires
            old(self).wf(),
        ensures
            final(self).wf(),
            final(self).data() == old(self).data(),
            old(self).pos() + n <= old(self).data().len() ==> r is Ok && r->Ok_0@ == old(
                self,
            ).data().subrange(old(self).pos(), old(self).pos() + n) && final(self).pos() == old(
                self,
            ).pos() + n,
            old(self).pos() + n > old(self).data().len() ==> r is Err && r->Err_0
                == DecodeError::UnexpectedEof && final(self).pos() == old(self).pos(),
    {
        if self.data.len() - self.pos >= n {
            let s = slice_range(self.data, self.pos, self.pos + n);
            self.pos = self.pos + n;
            Ok(s)
        } else {
            Err(DecodeError::UnexpectedEof)
        }
    }

    /// The bytes at offsets `lo..hi` of the buffer, wherever the cursor stands.
    pub fn window(&self, lo: usize, hi: usize) -> (r: &'a [u8])
        requires
            lo <= hi <= self.data().len(),
        ensures
            r@ == self.data().subrange(lo as int, hi as int),
    {
        slice_range(self.data, lo, hi)
    }

    /// Moves past the next `n` bytes.
    pub fn skip(&mut self, n: usize) -> (r: Result<(), DecodeError>)
        requires
            old(self).wf(),
        ensures
            final(self).wf(),
            final(self).data() == old(self).data(),
            old(self).pos() + n <= old(self).data().len() ==> r is Ok && final(self).pos() == old(
                self,
            ).pos() + n,
            old(self).pos() + n > old(self).data().len() ==> r == Err::<(), DecodeError>(
                DecodeError::UnexpectedEof,
            ) && final(self).pos() == old(self).pos(),
    {
        if self.data.len() - self.pos >= n {
            self.pos = self.pos + n;
            Ok(())
        } else {
            Err(DecodeError::UnexpectedEof)
        }
    }
}

/// The sub-slice `s[lo..hi]`.
pub fn slice_range<'b>(s: &'b [u8], lo: usize, hi: usize) -> (r: &'b [u8])
    requires
        lo <= hi <= s@.len(),
    ensures
        r@ == s@.subrange(lo as int, hi as int),
{
    &s[lo..hi]
}

} // verus!
