//! A bounds-checked read position over an immutable byte buffer.
//!
//! Every read checks the remaining length and fails with
//! `DecodeError::UnexpectedEof` rather than reading past the end; a seek to
//! an offset outside the buffer fails with `DecodeError::OutOfBounds`.
//! These are the only two failures raised here, and the chunk codecs
//! propagate them unchanged.

use vstd::prelude::*;

use crate::bytes::{le_u16, le_u32_at};
use crate::DecodeError;

verus! {

/// Scan a zero-terminated run of bytes at `pos`: the bytes before the
/// first zero, or an end-of-buffer failure when no zero follows.
pub open spec fn scan_name(b: Seq<u8>, pos: int) -> Result<Seq<u8>, DecodeError>
    decreases b.len() - pos,
{
    if !(0 <= pos < b.len()) {
        Err(DecodeError::UnexpectedEof)
    } else if b[pos] == 0 {
        Ok(Seq::empty())
    } else {
        match scan_name(b, pos + 1) {
            Ok(rest) => Ok(seq![b[pos]] + rest),
            Err(e) => Err(e),
        }
    }
}

/// A read position over a borrowed byte buffer.
pub struct Cursor<'a> {
    pub data: &'a Vec<u8>,
    pub pos: usize,
}

impl<'a> Cursor<'a> {
    /// A cursor at the start of `data`.
    pub fn new(data: &'a Vec<u8>) -> (r: Cursor<'a>)
        ensures
            r.data == data,
            r.pos == 0,
    {
        Cursor { data: data, pos: 0 }
    }

    /// The current absolute offset.
    pub fn position(&self) -> (r: usize)
        ensures
            r == self.pos,
    {
        self.pos
    }

    /// Read one byte and advance.
    pub fn read_u8(&mut self) -> (r: Result<u8, DecodeError>)
        ensures
            final(self).data == old(self).data,
            match r {
                Ok(v) => old(self).pos < old(self).data@.len() && v == old(self).data@[old(
                    self,
                ).pos as int] && final(self).pos == old(self).pos + 1,
                Err(e) => e == DecodeError::UnexpectedEof && old(self).pos >= old(
                    self,
                ).data@.len() && final(self).pos == old(self).pos,
            },
    {
        if self.pos < self.data.len() {
            let v = self.data[self.pos];
            self.pos = self.pos + 1;
            Ok(v)
        } else {
            Err(DecodeError::UnexpectedEof)
        }
    }

    /// Read a 16-bit little-endian value and advance.
    pub fn read_u16(&mut self) -> (r: Result<u16, DecodeError>)
        ensures
            final(self).data == old(self).data,
            match r {
                Ok(v) => old(self).pos + 2 <= old(self).data@.len() && v == le_u16(
                    old(self).data@[old(self).pos as int],
                    old(self).data@[old(self).pos + 1],
                ) && final(self).pos == old(self).pos + 2,
                Err(e) => e == DecodeError::UnexpectedEof && old(self).pos + 2 > old(
                    self,
                ).data@.len() && final(self).pos == old(self).pos,
            },
    {
        let n: usize = self.data.len();
        if self.pos < n && n - self.pos >= 2 {
            let b0 = self.data[self.pos];
            let b1 = self.data[self.pos + 1];
            self.pos = self.pos + 2;
            Ok((b0 as u16) | ((b1 as u16) << 8))
        } else {
            Err(DecodeError::UnexpectedEof)
        }
    }

    /// Read a 32-bit little-endian word and advance.
    pub fn read_u32(&mut self) -> (r: Result<u32, DecodeError>)
        ensures
            final(self).data == old(self).data,
            match r {
                Ok(v) => old(self).pos + 4 <= old(self).data@.len() && v == le_u32_at(
                    old(self).data@,
                    old(self).pos as int,
                ) && final(self).pos == old(self).pos + 4,
                Err(e) => e == DecodeError::UnexpectedEof && old(self).pos + 4 > old(
                    self,
                ).data@.len() && final(self).pos == old(self).pos,
            },
    {
        let n: usize = self.data.len();
        if self.pos < n && n - self.pos >= 4 {
            let b0 = self.data[self.pos];
            let b1 = self.data[self.pos + 1];
            let b2 = self.data[self.pos + 2];
            let b3 = self.data[self.pos + 3];
            self.pos = self.pos + 4;
            Ok((b0 as u32) | ((b1 as u32) << 8) | ((b2 as u32) << 16) | ((b3 as u32) << 24))
        } else {
            Err(DecodeError::UnexpectedEof)
        }
    }

    /// Read a 64-bit little-endian value and advance.
    pub fn read_u64(&mut self) -> (r: Result<u64, DecodeError>)
        ensures
            final(self).data == old(self).data,
            match r {
                Ok(v) => old(self).pos + 8 <= old(self).data@.len() && v
                    == crate::bytes::u64_from_words(
                    le_u32_at(old(self).data@, old(self).pos as int),
                    le_u32_at(old(self).data@, old(self).pos + 4),
                ) && final(self).pos == old(self).pos + 8,
                Err(e) => e == DecodeError::UnexpectedEof && old(self).pos + 8 > old(
                    self,
                ).data@.len() && final(self).pos == old(self).pos,
            },
    {
        let n: usize = self.data.len();
        if self.pos < n && n - self.pos >= 8 {
            let lo = match self.read_u32() {
                Ok(v) => v,
                Err(e) => {
                    return Err(e);
                },
            };
            let hi = match self.read_u32() {
                Ok(v) => v,
                Err(e) => {
                    return Err(e);
                },
            };
            Ok((lo as u64) | ((hi as u64) << 32))
        } else {
            Err(DecodeError::UnexpectedEof)
        }
    }

    /// Advance by `n` bytes without reading.
    pub fn skip(&mut self, n: usize) -> (r: Result<(), DecodeError>)
        ensures
            final(self).data == old(self).data,
            match r {
                Ok(()) => old(self).pos + n <= old(self).data@.len() && final(self).pos == old(
                    self,
                ).pos + n,
                Err(e) => e == DecodeError::UnexpectedEof && old(self).pos + n > old(
                    self,
                ).data@.len() && final(self).pos == old(self).pos,
            },
    {
        let len: usize = self.data.len();
        if self.pos <= len && len - self.pos >= n {
            self.pos = self.pos + n;
            Ok(())
        } else {
            Err(DecodeError::UnexpectedEof)
        }
    }

    /// A new cursor over the same buffer, rooted at absolute offset
    /// `offset`.
    pub fn seek(&self, offset: usize) -> (r: Result<Cursor<'a>, DecodeError>)
        ensures
            match r {
                Ok(c) => offset <= self.data@.len() && c.data == self.data && c.pos == offset,
                Err(e) => e == DecodeError::OutOfBounds && offset > self.data@.len(),
            },
    {
        if offset <= self.data.len() {
            Ok(Cursor { data: self.data, pos: offset })
        } else {
            Err(DecodeError::OutOfBounds)
        }
    }

    /// Read a zero-terminated run of bytes and advance past its
    /// terminator.
    pub fn str(&mut self) -> (r: Result<Vec<u8>, DecodeError>)
        ensures
            final(self).data == old(self).data,
            match r {
                Ok(v) => scan_name(old(self).data@, old(self).pos as int) == Ok::<
                    Seq<u8>,
                    DecodeError,
                >(v@) && final(self).pos == old(self).pos + v@.len() + 1,
                Err(e) => scan_name(old(self).data@, old(self).pos as int) == Err::<
                    Seq<u8>,
                    DecodeError,
                >(e) && final(self).pos == old(self).pos,
            },
    {
        if self.pos > self.data.len() {
            return Err(DecodeError::UnexpectedEof);
        }
        let mut out: Vec<u8> = Vec::new();
        let mut p: usize = self.pos;
        loop
            invariant
                old(self).pos <= p <= self.data@.len(),
                self.data == old(self).data,
                self.pos == old(self).pos,
                out@.len() == p - old(self).pos,
                forall|rest: Seq<u8>|
                    (scan_name(self.data@, p as int) == Ok::<Seq<u8>, DecodeError>(rest)
                        ==> scan_name(self.data@, old(self).pos as int) == Ok::<
                        Seq<u8>,
                        DecodeError,
                    >(out@ + rest)),
                forall|e: DecodeError|
                    (scan_name(self.data@, p as int) == Err::<Seq<u8>, DecodeError>(e)
                        ==> scan_name(self.data@, old(self).pos as int) == Err::<
                        Seq<u8>,
                        DecodeError,
                    >(e)),
            decreases self.data@.len() - p,
        {
            if p >= self.data.len() {
                return Err(DecodeError::UnexpectedEof);
            }
            let byte = self.data[p];
            if byte == 0 {
                proof {
                    assert(scan_name(self.data@, p as int) == Ok::<Seq<u8>, DecodeError>(
                        Seq::empty(),
                    ));
                    assert(out@ + Seq::<u8>::empty() =~= out@);
                }
                self.pos = p + 1;
                return Ok(out);
            }
            proof {
                assert forall|rest: Seq<u8>|
                    scan_name(self.data@, p + 1 as int) == Ok::<Seq<u8>, DecodeError>(
                        rest,
                    ) implies scan_name(self.data@, old(self).pos as int) == Ok::<
                    Seq<u8>,
                    DecodeError,
                >(out@.push(self.data@[p as int]) + rest) by {
                    assert(scan_name(self.data@, p as int) == Ok::<Seq<u8>, DecodeError>(seq![
                        self.data@[p as int],
                    ] + rest));
                    assert(out@ + (seq![self.data@[p as int]] + rest) =~= out@.push(
                        self.data@[p as int],
                    ) + rest);
                }
            }
            out.push(byte);
            p = p + 1;
        }
    }
}

} // verus!
