//! A byte buffer with a read position, and the big-endian integers that are
//! read from it.

use byteorder::{BigEndian, ByteOrder};
use vstd::prelude::*;
use vstd::slice::{slice_subrange, slice_to_vec};

verus! {

/// The number that the bytes of `s` spell, most significant byte first.
pub open spec fn be_value(s: Seq<u8>) -> nat
    decreases s.len(),
{
    if s.len() == 0 {
        0
    } else {
        be_value(s.drop_last()) * 256 + s.last() as nat
    }
}

/// The two's-complement reading of an 8-bit pattern.
pub open spec fn signed8(n: nat) -> int {
    if n >= 0x80 {
        n - 0x100
    } else {
        n as int
    }
}

/// The two's-complement reading of a 16-bit pattern.
pub open spec fn signed16(n: nat) -> int {
    if n >= 0x8000 {
        n - 0x1_0000
    } else {
        n as int
    }
}

/// The two's-complement reading of a 32-bit pattern.
pub open spec fn signed32(n: nat) -> int {
    if n >= 0x8000_0000 {
        n - 0x1_0000_0000
    } else {
        n as int
    }
}

/// The two's-complement reading of a 64-bit pattern.
pub open spec fn signed64(n: nat) -> int {
    if n >= 0x8000_0000_0000_0000 {
        n - 0x1_0000_0000_0000_0000
    } else {
        n as int
    }
}

/// `byteorder::BigEndian::read_u16`: the first two bytes of `buf` read as an
/// unsigned integer, most significant byte first. The call panics on a
/// shorter slice, which the precondition rules out.
#[verifier::external_body]
fn be_u16(buf: &[u8]) -> (r: u16)
    requires
        buf@.len() >= 2,
    ensures
        r as nat == be_value(buf@.subrange(0, 2)),
{
    BigEndian::read_u16(buf)
}

/// `byteorder::BigEndian::read_i16`: the first two bytes of `buf`, most
/// significant first, read as a two's-complement integer.
#[verifier::external_body]
fn be_i16(buf: &[u8]) -> (r: i16)
    requires
        buf@.len() >= 2,
    ensures
        r as int == signed16(be_value(buf@.subrange(0, 2))),
{
    BigEndian::read_i16(buf)
}

/// `byteorder::BigEndian::read_u24`: the first three bytes of `buf` read as
/// an unsigned integer, most significant byte first.
#[verifier::external_body]
fn be_u24(buf: &[u8]) -> (r: u32)
    requires
        buf@.len() >= 3,
    ensures
        r as nat == be_value(buf@.subrange(0, 3)),
{
    BigEndian::read_u24(buf)
}

/// `byteorder::BigEndian::read_u32`: the first four bytes of `buf` read as
/// an unsigned integer, most significant byte first.
#[verifier::external_body]
fn be_u32(buf: &[u8]) -> (r: u32)
    requires
        buf@.len() >= 4,
    ensures
        r as nat == be_value(buf@.subrange(0, 4)),
{
    BigEndian::read_u32(buf)
}

/// `byteorder::BigEndian::read_i32`: the first four bytes of `buf`, most
/// significant first, read as a two's-complement integer.
#[verifier::external_body]
fn be_i32(buf: &[u8]) -> (r: i32)
    requires
        buf@.len() >= 4,
    ensures
        r as int == signed32(be_value(buf@.subrange(0, 4))),
{
    BigEndian::read_i32(buf)
}

/// `byteorder::BigEndian::read_u64`: the first eight bytes of `buf` read as
/// an unsigned integer, most significant byte first.
#[verifier::external_body]
fn be_u64(buf: &[u8]) -> (r: u64)
    requires
        buf@.len() >= 8,
    ensures
        r as nat == be_value(buf@.subrange(0, 8)),
{
    BigEndian::read_u64(buf)
}

/// `byteorder::BigEndian::read_i64`: the first eight bytes of `buf`, most
/// significant first, read as a two's-complement integer.
#[verifier::external_body]
fn be_i64(buf: &[u8]) -> (r: i64)
    requires
        buf@.len() >= 8,
    ensures
        r as int == signed64(be_value(buf@.subrange(0, 8))),
{
    BigEndian::read_i64(buf)
}

/// A buffer of bytes and a position in it. The position may lie past the end
/// of the buffer after a seek; every read from there fails.
pub struct ByteCursor {
    bytes: Vec<u8>,
    pos: u64,
}

impl ByteCursor {
    /// The bytes of the buffer.
    pub closed spec fn data(&self) -> Seq<u8> {
        self.bytes@
    }

    /// The read position, counted from the start of the buffer.
    pub closed spec fn offset(&self) -> nat {
        self.pos as nat
    }

    /// Whether `n` more bytes can be read at the position.
    pub open spec fn has(&self, n: nat) -> bool {
        self.offset() + n <= self.data().len()
    }

    /// The next `n` bytes at the position.
    pub open spec fn next(&self, n: nat) -> Seq<u8> {
        self.data().subrange(self.offset() as int, (self.offset() + n) as int)
    }

    /// The cursor after a read of `n` bytes: advanced by `n` if they were
    /// there, and placed at the end of the buffer if they were not.
    pub open spec fn after_read(&self, then: &ByteCursor, n: nat) -> bool {
        &&& then.data() == self.data()
        &&& then.offset() == if self.has(n) {
            self.offset() + n
        } else {
            self.data().len()
        }
    }

    pub fn new(bytes: Vec<u8>) -> (c: ByteCursor)
        ensures
            c.data() == bytes@,
            c.offset() == 0,
    {
        ByteCursor { bytes, pos: 0 }
    }

    pub fn position(&self) -> (p: u64)
        ensures
            p as nat == self.offset(),
    {
        self.pos
    }

    pub fn len(&self) -> (n: usize)
        ensures
            n as nat == self.data().len(),
    {
        self.bytes.len()
    }

    /// The number of bytes between the position and the end of the buffer.
    pub fn remaining(&self) -> (n: usize)
        ensures
            n as int == if self.offset() <= self.data().len() {
                self.data().len() - self.offset()
            } else {
                0
            },
    {
        let len: usize = self.bytes.len();
        if self.pos <= len as u64 {
            len - self.pos as usize
        } else {
            0
        }
    }

    /// The byte at address `at`, if the buffer has one there.
    pub fn get(&self, at: u64) -> (b: Option<u8>)
        ensures
            b == if at < self.data().len() {
                Some(self.data()[at as int])
            } else {
                None
            },
    {
        if at < self.bytes.len() as u64 {
            Some(self.bytes[at as usize])
        } else {
            None
        }
    }

    /// Moves the position to `pos`, which may lie past the end.
    pub fn seek(&mut self, pos: u64)
        ensures
            final(self).data() == old(self).data(),
            final(self).offset() == pos as nat,
    {
        self.pos = pos;
    }

    /// The slice of the next `n` bytes, or `None` with the cursor moved to
    /// the end of the buffer.
    fn advance(&mut self, n: usize) -> (r: Option<&[u8]>)
        ensures
            old(self).after_read(final(self), n as nat),
            match r {
                Some(s) => old(self).has(n as nat) && s@ == old(self).next(n as nat),
                None => !old(self).has(n as nat),
            },
    {
        let len: usize = self.bytes.len();
        if self.pos <= len as u64 && n <= len - self.pos as usize {
            let start: usize = self.pos as usize;
            self.pos = self.pos + n as u64;
            Some(slice_subrange(self.bytes.as_slice(), start, start + n))
        } else {
            self.pos = len as u64;
            None
        }
    }

    /// The slice of the next `n` bytes, with the cursor left where it is.
    pub fn peek(&self, n: usize) -> (r: Option<&[u8]>)
        ensures
            match r {
                Some(s) => self.has(n as nat) && s@ == self.next(n as nat),
                None => !self.has(n as nat),
            },
    {
        let len: usize = self.bytes.len();
        if self.pos <= len as u64 && n <= len - self.pos as usize {
            let start: usize = self.pos as usize;
            Some(slice_subrange(self.bytes.as_slice(), start, start + n))
        } else {
            None
        }
    }

    /// Reads one byte.
    pub fn read_u8(&mut self) -> (r: Option<u8>)
        ensures
            old(self).after_read(final(self), 1),
            match r {
                Some(v) => old(self).has(1) && v == old(self).next(1)[0],
                None => !old(self).has(1),
            },
    {
        match self.advance(1) {
            Some(s) => Some(s[0]),
            None => None,
        }
    }

    /// Reads one byte as a two's-complement integer.
    pub fn read_i8(&mut self) -> (r: Option<i8>)
        ensures
            old(self).after_read(final(self), 1),
            match r {
                Some(v) => old(self).has(1) && v as int == signed8(old(self).next(1)[0] as nat),
                None => !old(self).has(1),
            },
    {
        match self.advance(1) {
            Some(s) => {
                let b: u8 = s[0];
                if b >= 0x80 {
                    Some((b as i16 - 0x100) as i8)
                } else {
                    Some(b as i8)
                }
            },
            None => None,
        }
    }

    /// Reads a big-endian unsigned 16-bit integer.
    pub fn read_u16(&mut self) -> (r: Option<u16>)
        ensures
            old(self).after_read(final(self), 2),
            match r {
                Some(v) => old(self).has(2) && v as nat == be_value(old(self).next(2)),
                None => !old(self).has(2),
            },
    {
        match self.advance(2) {
            Some(s) => {
                assert(s@.subrange(0, 2) =~= s@);
                Some(be_u16(s))
            },
            None => None,
        }
    }

    /// Reads a big-endian two's-complement 16-bit integer.
    pub fn read_i16(&mut self) -> (r: Option<i16>)
        ensures
            old(self).after_read(final(self), 2),
            match r {
                Some(v) => old(self).has(2) && v as int == signed16(be_value(old(self).next(2))),
                None => !old(self).has(2),
            },
    {
        match self.advance(2) {
            Some(s) => {
                assert(s@.subrange(0, 2) =~= s@);
                Some(be_i16(s))
            },
            None => None,
        }
    }

    /// Reads a big-endian unsigned 24-bit integer.
    pub fn read_u24(&mut self) -> (r: Option<u32>)
        ensures
            old(self).after_read(final(self), 3),
            match r {
                Some(v) => old(self).has(3) && v as nat == be_value(old(self).next(3)),
                None => !old(self).has(3),
            },
    {
        match self.advance(3) {
            Some(s) => {
                assert(s@.subrange(0, 3) =~= s@);
                Some(be_u24(s))
            },
            None => None,
        }
    }

    /// Reads a big-endian unsigned 32-bit integer.
    pub fn read_u32(&mut self) -> (r: Option<u32>)
        ensures
            old(self).after_read(final(self), 4),
            match r {
                Some(v) => old(self).has(4) && v as nat == be_value(old(self).next(4)),
                None => !old(self).has(4),
            },
    {
        match self.advance(4) {
            Some(s) => {
                assert(s@.subrange(0, 4) =~= s@);
                Some(be_u32(s))
            },
            None => None,
        }
    }

    /// Reads a big-endian two's-complement 32-bit integer.
    pub fn read_i32(&mut self) -> (r: Option<i32>)
        ensures
            old(self).after_read(final(self), 4),
            match r {
                Some(v) => old(self).has(4) && v as int == signed32(be_value(old(self).next(4))),
                None => !old(self).has(4),
            },
    {
        match self.advance(4) {
            Some(s) => {
                assert(s@.subrange(0, 4) =~= s@);
                Some(be_i32(s))
            },
            None => None,
        }
    }

    /// Reads a big-endian unsigned 64-bit integer.
    pub fn read_u64(&mut self) -> (r: Option<u64>)
        ensures
            old(self).after_read(final(self), 8),
            match r {
                Some(v) => old(self).has(8) && v as nat == be_value(old(self).next(8)),
                None => !old(self).has(8),
            },
    {
        match self.advance(8) {
            Some(s) => {
                assert(s@.subrange(0, 8) =~= s@);
                Some(be_u64(s))
            },
            None => None,
        }
    }

    /// Reads a big-endian two's-complement 64-bit integer.
    pub fn read_i64(&mut self) -> (r: Option<i64>)
        ensures
            old(self).after_read(final(self), 8),
            match r {
                Some(v) => old(self).has(8) && v as int == signed64(be_value(old(self).next(8))),
                None => !old(self).has(8),
            },
    {
        match self.advance(8) {
            Some(s) => {
                assert(s@.subrange(0, 8) =~= s@);
                Some(be_i64(s))
            },
            None => None,
        }
    }

    /// Reads the next `n` bytes into a vector of their own.
    pub fn read_bytes(&mut self, n: usize) -> (r: Option<Vec<u8>>)
        ensures
            old(self).after_read(final(self), n as nat),
            match r {
                Some(v) => old(self).has(n as nat) && v@ == old(self).next(n as nat),
                None => !old(self).has(n as nat),
            },
    {
        match self.advance(n) {
            Some(s) => Some(slice_to_vec(s)),
            None => None,
        }
    }
}

} // verus!
