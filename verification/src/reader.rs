//! A cursor over the bytes of an archive, with the primitive values of the
//! format: little-endian integers, strict booleans, length-prefixed strings.
//!
//! Each primitive has a model: a function from the bytes and a position to
//! the value and the position behind it, or to the error.

use vstd::prelude::*;
use vstd::slice::{slice_subrange, slice_to_vec};
use vstd::utf8::{decode_utf8, valid_utf8};
use crate::bytes::{
    decode_i32,
    decode_u128,
    decode_u16,
    decode_u32,
    decode_u64,
    le_i32,
    le_u128,
    le_u16,
    le_u32,
    le_u64,
};
use crate::error::{Error, IoKind};
use crate::text::{strip_terminator, utf16_text, without_terminator};

verus! {

/// The error of a read that runs past the end of the bytes.
pub open spec fn eof() -> Error {
    Error::Io(IoKind::UnexpectedEof)
}

/// `n` bytes lie in `s` from `pos` on.
pub open spec fn fits(s: Seq<u8>, pos: int, n: int) -> bool {
    0 <= pos && 0 <= n && pos + n <= s.len()
}

/// A read returned what its model says, and left the cursor where the model
/// says.
pub open spec fn yields<T: View>(
    r: Result<T, Error>,
    after: int,
    model: Result<(T::V, int), Error>,
) -> bool {
    match model {
        Ok((v, p)) => r matches Ok(x) && x@ == v && after == p,
        Err(e) => r == Err::<T, Error>(e),
    }
}

/// The `n` bytes from `pos` on.
pub open spec fn parse_bytes(s: Seq<u8>, pos: int, n: int) -> Result<(Seq<u8>, int), Error> {
    if fits(s, pos, n) {
        Ok((s.subrange(pos, pos + n), pos + n))
    } else {
        Err(eof())
    }
}

/// Passing over `n` bytes.
pub open spec fn parse_skip(s: Seq<u8>, pos: int, n: int) -> Result<((), int), Error> {
    if fits(s, pos, n) {
        Ok(((), pos + n))
    } else {
        Err(eof())
    }
}

/// One byte.
pub open spec fn parse_u8(s: Seq<u8>, pos: int) -> Result<(u8, int), Error> {
    if fits(s, pos, 1) {
        Ok((s[pos], pos + 1))
    } else {
        Err(eof())
    }
}

/// A little-endian 16-bit integer.
pub open spec fn parse_u16(s: Seq<u8>, pos: int) -> Result<(u16, int), Error> {
    if fits(s, pos, 2) {
        Ok((le_u16(s, pos), pos + 2))
    } else {
        Err(eof())
    }
}

/// A little-endian 32-bit integer.
pub open spec fn parse_u32(s: Seq<u8>, pos: int) -> Result<(u32, int), Error> {
    if fits(s, pos, 4) {
        Ok((le_u32(s, pos), pos + 4))
    } else {
        Err(eof())
    }
}

/// A little-endian signed 32-bit integer.
pub open spec fn parse_i32(s: Seq<u8>, pos: int) -> Result<(i32, int), Error> {
    if fits(s, pos, 4) {
        Ok((le_i32(s, pos), pos + 4))
    } else {
        Err(eof())
    }
}

/// A little-endian 64-bit integer.
pub open spec fn parse_u64(s: Seq<u8>, pos: int) -> Result<(u64, int), Error> {
    if fits(s, pos, 8) {
        Ok((le_u64(s, pos), pos + 8))
    } else {
        Err(eof())
    }
}

/// A little-endian 128-bit integer.
pub open spec fn parse_u128(s: Seq<u8>, pos: int) -> Result<(u128, int), Error> {
    if fits(s, pos, 16) {
        Ok((le_u128(s, pos), pos + 16))
    } else {
        Err(eof())
    }
}

/// A flag: one byte, which is 0 or 1.
pub open spec fn parse_bool(s: Seq<u8>, pos: int) -> Result<(bool, int), Error> {
    if !fits(s, pos, 1) {
        Err(eof())
    } else if s[pos] == 0 {
        Ok((false, pos + 1))
    } else if s[pos] == 1 {
        Ok((true, pos + 1))
    } else {
        Err(Error::Bool(s[pos]))
    }
}

/// The `n` little-endian code units from `pos` on.
pub open spec fn le_units(s: Seq<u8>, pos: int, n: int) -> Seq<u16> {
    Seq::new(n as nat, |i: int| le_u16(s, pos + 2 * i))
}

/// A string: a signed 32-bit length, then that many bytes of UTF-8 or, where
/// the length is negative, as many code units of UTF-16 as it says without
/// its sign. The last character is the terminator and is not part of the
/// text.
pub open spec fn parse_string(s: Seq<u8>, pos: int) -> Result<(Seq<char>, int), Error> {
    if !fits(s, pos, 4) {
        Err(eof())
    } else {
        let len = le_i32(s, pos) as int;
        let p = pos + 4;
        if len < 0 {
            if !fits(s, p, 2 * (-len)) {
                Err(eof())
            } else {
                match utf16_text(le_units(s, p, -len)) {
                    Some(text) => Ok((without_terminator(text), p + 2 * (-len))),
                    None => Err(Error::Utf16),
                }
            }
        } else {
            if !fits(s, p, len) {
                Err(eof())
            } else if valid_utf8(s.subrange(p, p + len)) {
                Ok((without_terminator(decode_utf8(s.subrange(p, p + len))), p + len))
            } else {
                Err(Error::Utf8)
            }
        }
    }
}

/// A cursor over a byte slice. Its position may lie behind the end, as after
/// a seek; a read there fails.
pub struct Reader<'a> {
    data: &'a [u8],
    pos: u64,
}

impl<'a> Reader<'a> {
    /// The bytes that the cursor reads.
    pub closed spec fn source(&self) -> Seq<u8> {
        self.data@
    }

    /// The position of the cursor.
    pub closed spec fn offset(&self) -> int {
        self.pos as int
    }

    /// A cursor at the start of `data`.
    pub fn new(data: &'a [u8]) -> (r: Self)
        ensures
            r.source() == data@,
            r.offset() == 0,
    {
        Reader { data, pos: 0 }
    }

    /// Moves the cursor to `pos`, counted from the start.
    pub fn seek(&mut self, pos: u64)
        ensures
            final(self).source() == old(self).source(),
            final(self).offset() == pos,
    {
        self.pos = pos;
    }

    /// The position of the cursor.
    pub fn stream_position(&self) -> (r: u64)
        ensures
            r == self.offset(),
    {
        self.pos
    }

    /// The number of bytes that the cursor reads.
    pub fn len(&self) -> (r: usize)
        ensures
            r == self.source().len(),
    {
        self.data.len()
    }

    /// The next `n` bytes, borrowed.
    pub fn take(&mut self, n: u64) -> (r: Result<&'a [u8], Error>)
        ensures
            final(self).source() == old(self).source(),
            yields(r, final(self).offset(), parse_bytes(old(self).source(), old(self).offset(), n as int)),
    {
        let len = self.data.len() as u64;
        if n > len || self.pos > len - n {
            return Err(Error::Io(IoKind::UnexpectedEof));
        }
        let from = self.pos as usize;
        let to = (self.pos + n) as usize;
        let out = slice_subrange(self.data, from, to);
        self.pos = self.pos + n;
        Ok(out)
    }

    /// Passes over the next `n` bytes.
    pub fn skip(&mut self, n: u64) -> (r: Result<(), Error>)
        ensures
            final(self).source() == old(self).source(),
            yields(r, final(self).offset(), parse_skip(old(self).source(), old(self).offset(), n as int)),
    {
        match self.take(n) {
            Ok(_) => Ok(()),
            Err(e) => Err(e),
        }
    }

    /// The next `len` bytes, copied.
    pub fn read_len(&mut self, len: u64) -> (r: Result<Vec<u8>, Error>)
        ensures
            final(self).source() == old(self).source(),
            yields(r, final(self).offset(), parse_bytes(old(self).source(), old(self).offset(), len as int)),
    {
        match self.take(len) {
            Ok(bytes) => Ok(slice_to_vec(bytes)),
            Err(e) => Err(e),
        }
    }

    /// Reads one byte.
    pub fn read_u8(&mut self) -> (r: Result<u8, Error>)
        ensures
            final(self).source() == old(self).source(),
            yields(r, final(self).offset(), parse_u8(old(self).source(), old(self).offset())),
    {
        match self.take(1) {
            Ok(bytes) => Ok(bytes[0]),
            Err(e) => Err(e),
        }
    }

    /// Reads a little-endian 16-bit integer.
    pub fn read_u16(&mut self) -> (r: Result<u16, Error>)
        ensures
            final(self).source() == old(self).source(),
            yields(r, final(self).offset(), parse_u16(old(self).source(), old(self).offset())),
    {
        match self.take(2) {
            Ok(bytes) => Ok(decode_u16(bytes)),
            Err(e) => Err(e),
        }
    }

    /// Reads a little-endian 32-bit integer.
    pub fn read_u32(&mut self) -> (r: Result<u32, Error>)
        ensures
            final(self).source() == old(self).source(),
            yields(r, final(self).offset(), parse_u32(old(self).source(), old(self).offset())),
    {
        match self.take(4) {
            Ok(bytes) => Ok(decode_u32(bytes)),
            Err(e) => Err(e),
        }
    }

    /// Reads a little-endian signed 32-bit integer.
    pub fn read_i32(&mut self) -> (r: Result<i32, Error>)
        ensures
            final(self).source() == old(self).source(),
            yields(r, final(self).offset(), parse_i32(old(self).source(), old(self).offset())),
    {
        match self.take(4) {
            Ok(bytes) => Ok(decode_i32(bytes)),
            Err(e) => Err(e),
        }
    }

    /// Reads a little-endian 64-bit integer.
    pub fn read_u64(&mut self) -> (r: Result<u64, Error>)
        ensures
            final(self).source() == old(self).source(),
            yields(r, final(self).offset(), parse_u64(old(self).source(), old(self).offset())),
    {
        match self.take(8) {
            Ok(bytes) => Ok(decode_u64(bytes)),
            Err(e) => Err(e),
        }
    }

    /// Reads a little-endian 128-bit integer.
    pub fn read_u128(&mut self) -> (r: Result<u128, Error>)
        ensures
            final(self).source() == old(self).source(),
            yields(r, final(self).offset(), parse_u128(old(self).source(), old(self).offset())),
    {
        match self.take(16) {
            Ok(bytes) => Ok(decode_u128(bytes)),
            Err(e) => Err(e),
        }
    }

    /// Reads a flag, and fails with `Bool` on a byte that is neither 0 nor 1.
    pub fn read_bool(&mut self) -> (r: Result<bool, Error>)
        ensures
            final(self).source() == old(self).source(),
            yields(r, final(self).offset(), parse_bool(old(self).source(), old(self).offset())),
    {
        match self.read_u8() {
            Ok(1) => Ok(true),
            Ok(0) => Ok(false),
            Ok(err) => Err(Error::Bool(err)),
            Err(e) => Err(e),
        }
    }

    /// Passes over a GUID of 16 bytes.
    pub fn read_guid(&mut self) -> (r: Result<(), Error>)
        ensures
            final(self).source() == old(self).source(),
            yields(r, final(self).offset(), parse_skip(old(self).source(), old(self).offset(), 16)),
    {
        self.skip(16)
    }

    /// Passes over a hash of 20 bytes.
    pub fn read_hash(&mut self) -> (r: Result<(), Error>)
        ensures
            final(self).source() == old(self).source(),
            yields(r, final(self).offset(), parse_skip(old(self).source(), old(self).offset(), 20)),
    {
        self.skip(20)
    }

    /// Reads a length-prefixed string, without its terminator.
    pub fn read_string(&mut self) -> (r: Result<String, Error>)
        ensures
            final(self).source() == old(self).source(),
            yields(r, final(self).offset(), parse_string(old(self).source(), old(self).offset())),
    {
        let ghost s = self.source();
        let ghost pos = self.offset();
        let size = self.read_i32()?;
        if size < 0 {
            let count: u64 = (-(size as i64)) as u64;
            let bytes = self.take(2 * count)?;
            let mut units: Vec<u16> = Vec::new();
            let mut at: usize = 0;
            while at < bytes.len()
                invariant
                    at <= bytes@.len() == 2 * count,
                    at % 2 == 0,
                    fits(s, pos + 4, 2 * count),
                    bytes@ == s.subrange(pos + 4, pos + 4 + 2 * count),
                    units@ == le_units(s, pos + 4, at as int / 2),
                decreases bytes@.len() - at,
            {
                units.push(decode_u16(slice_subrange(bytes, at, at + 2)));
                at = at + 2;
                assert(units@ =~= le_units(s, pos + 4, at as int / 2));
            }
            match String::from_utf16(units.as_slice()) {
                Ok(text) => Ok(strip_terminator(text)),
                Err(_) => Err(Error::Utf16),
            }
        } else {
            let bytes = self.read_len(size as u64)?;
            match String::from_utf8(bytes) {
                Ok(text) => Ok(strip_terminator(text)),
                Err(_) => Err(Error::Utf8),
            }
        }
    }

    /// Reads a name: a string that stands for a part of a path.
    pub fn read_name(&mut self) -> (r: Result<String, Error>)
        ensures
            final(self).source() == old(self).source(),
            yields(r, final(self).offset(), parse_string(old(self).source(), old(self).offset())),
    {
        self.read_string()
    }
}

} // verus!
