//! A zero-copy cursor over a byte slice.

use vstd::prelude::*;

use crate::errors::ChainError;

verus! {

/// Little-endian value of a byte sequence: `s[0] + 256 * s[1] + ...`.
pub open spec fn le_value(s: Seq<u8>) -> nat
    decreases s.len(),
{
    if s.len() == 0 {
        0
    } else {
        s[0] as nat + 256 * le_value(s.drop_first())
    }
}

/// A CompactSize integer at the start of `s`: its value and its encoded length.
///
/// `0x00..=0xfc` is the value itself; `0xfd`, `0xfe`, `0xff` announce a
/// little-endian u16, u32 or u64 that follows.
pub open spec fn spec_compact_size(s: Seq<u8>) -> Option<(u64, nat)> {
    if s.len() == 0 {
        None
    } else {
        spec_compact_size_after(s[0], s.drop_first())
    }
}

/// The smallest value that a CompactSize of `width` continuation bytes may
/// hold: smaller values have a shorter encoding.
pub open spec fn compact_min(width: nat) -> nat {
    if width == 2 {
        0xfd
    } else if width == 4 {
        0x1_0000
    } else {
        0x1_0000_0000
    }
}

/// A CompactSize integer whose first byte `first` has already been consumed;
/// `rest` is what follows it. The consumed length counts the first byte.
/// A value that has a shorter encoding (a non-minimal encoding) is invalid.
pub open spec fn spec_compact_size_after(first: u8, rest: Seq<u8>) -> Option<(u64, nat)> {
    if first < 0xfd {
        Some((first as u64, 1))
    } else {
        let width: nat = if first == 0xfd { 2 } else if first == 0xfe { 4 } else { 8 };
        if rest.len() < width {
            None
        } else if le_value(rest.take(width as int)) < compact_min(width) {
            None
        } else {
            Some((le_value(rest.take(width as int)) as u64, 1 + width))
        }
    }
}

/// Zero-copy cursor over a byte slice.
///
/// All read methods return slices or primitives derived directly from `data`.
/// The lifetime `'a` ties returned slices to the source buffer.
pub struct BufferReader<'a> {
    data: &'a [u8],
    cursor: usize,
}

impl<'a> BufferReader<'a> {
    #[verifier::type_invariant]
    spec fn inv(self) -> bool {
        self.cursor <= self.data@.len()
    }

    /// The whole buffer the reader runs over.
    pub closed spec fn data(self) -> Seq<u8> {
        self.data@
    }

    /// The number of bytes consumed so far.
    pub closed spec fn pos(self) -> nat {
        self.cursor as nat
    }

    /// The bytes not consumed yet.
    pub open spec fn rest(self) -> Seq<u8> {
        self.data().subrange(self.pos() as int, self.data().len() as int)
    }

    /// The cursor never passes the end of the buffer.
    pub open spec fn wf(self) -> bool {
        self.pos() <= self.data().len()
    }

    /// Construct a reader over `data`, positioned at its start.
    pub fn new(data: &'a [u8]) -> (r: Self)
        ensures
            r.data() == data@,
            r.pos() == 0,
            r.wf(),
    {
        Self { data, cursor: 0 }
    }

    /// Bytes not yet consumed.
    pub fn remaining(&self) -> (n: usize)
        ensures
            n == self.data().len() - self.pos(),
    {
        proof {
            use_type_invariant(self);
        }
        self.data.len() - self.cursor
    }

    /// True when every byte has been consumed.
    pub fn is_empty(&self) -> (b: bool)
        ensures
            b <==> self.pos() == self.data().len(),
    {
        self.remaining() == 0
    }

    /// Current read position (bytes consumed so far).
    pub fn position(&self) -> (p: usize)
        ensures
            p == self.pos(),
    {
        self.cursor
    }

    /// Advance the cursor by `n` bytes, returning them; fails with
    /// `UnexpectedEof { context }` and leaves the cursor where it was when
    /// fewer than `n` bytes remain.
    fn take(&mut self, n: usize, context: &'static str) -> (res: Result<&'a [u8], ChainError>)
        ensures
            final(self).data() == old(self).data(),
            final(self).wf(),
            match res {
                Ok(b) => {
                    &&& old(self).pos() + n <= old(self).data().len()
                    &&& b@ == old(self).rest().take(n as int)
                    &&& final(self).pos() == old(self).pos() + n
                },
                Err(e) => {
                    &&& old(self).pos() + n > old(self).data().len()
                    &&& e.kind() == crate::errors::ErrorKind::UnexpectedEof(context@)
                    &&& final(self).pos() == old(self).pos()
                },
            },
    {
        proof {
            use_type_invariant(&*self);
        }
        if n > self.data.len() - self.cursor {
            return Err(ChainError::UnexpectedEof { context });
        }
        let end = self.cursor + n;
        let slice = vstd::slice::slice_subrange(self.data, self.cursor, end);
        self.cursor = end;
        proof {
            assert(slice@ =~= old(self).rest().take(n as int));
        }
        Ok(slice)
    }

    /// Read one byte.
    pub fn read_u8(&mut self) -> (res: Result<u8, ChainError>)
        ensures
            final(self).data() == old(self).data(),
            final(self).wf(),
            match res {
                Ok(v) => {
                    &&& old(self).rest().len() >= 1
                    &&& v == old(self).rest()[0]
                    &&& final(self).pos() == old(self).pos() + 1
                },
                Err(e) => {
                    &&& old(self).rest().len() < 1
                    &&& e.kind() == crate::errors::ErrorKind::UnexpectedEof("u8"@)
                    &&& final(self).pos() == old(self).pos()
                },
            },
    {
        let b = self.take(1, "u8")?;
        Ok(b[0])
    }

    /// Read a little-endian u16.
    pub fn read_u16_le(&mut self) -> (res: Result<u16, ChainError>)
        ensures
            final(self).data() == old(self).data(),
            final(self).wf(),
            match res {
                Ok(v) => {
                    &&& old(self).rest().len() >= 2
                    &&& v == le_value(old(self).rest().take(2))
                    &&& final(self).pos() == old(self).pos() + 2
                },
                Err(e) => {
                    &&& old(self).rest().len() < 2
                    &&& e.kind() == crate::errors::ErrorKind::UnexpectedEof("u16_le"@)
                    &&& final(self).pos() == old(self).pos()
                },
            },
    {
        let b = self.take(2, "u16_le")?;
        proof {
            reveal_with_fuel(le_value, 3);
        }
        Ok(b[0] as u16 + (b[1] as u16) * 256)
    }

    /// Read a little-endian u32.
    pub fn read_u32_le(&mut self) -> (res: Result<u32, ChainError>)
        ensures
            final(self).data() == old(self).data(),
            final(self).wf(),
            match res {
                Ok(v) => {
                    &&& old(self).rest().len() >= 4
                    &&& v == le_value(old(self).rest().take(4))
                    &&& final(self).pos() == old(self).pos() + 4
                },
                Err(e) => {
                    &&& old(self).rest().len() < 4
                    &&& e.kind() == crate::errors::ErrorKind::UnexpectedEof("u32_le"@)
                    &&& final(self).pos() == old(self).pos()
                },
            },
    {
        let b = self.take(4, "u32_le")?;
        proof {
            reveal_with_fuel(le_value, 5);
        }
        Ok(b[0] as u32 + (b[1] as u32) * 0x100 + (b[2] as u32) * 0x10000 + (b[3] as u32)
            * 0x1000000)
    }

    /// Read a little-endian u64.
    pub fn read_u64_le(&mut self) -> (res: Result<u64, ChainError>)
        ensures
            final(self).data() == old(self).data(),
            final(self).wf(),
            match res {
                Ok(v) => {
                    &&& old(self).rest().len() >= 8
                    &&& v == le_value(old(self).rest().take(8))
                    &&& final(self).pos() == old(self).pos() + 8
                },
                Err(e) => {
                    &&& old(self).rest().len() < 8
                    &&& e.kind() == crate::errors::ErrorKind::UnexpectedEof("u64_le"@)
                    &&& final(self).pos() == old(self).pos()
                },
            },
    {
        let b = self.take(8, "u64_le")?;
        proof {
            reveal_with_fuel(le_value, 9);
        }
        Ok(b[0] as u64 + (b[1] as u64) * 0x100 + (b[2] as u64) * 0x10000 + (b[3] as u64)
            * 0x1000000 + (b[4] as u64) * 0x100000000 + (b[5] as u64) * 0x10000000000 + (
        b[6] as u64) * 0x1000000000000 + (b[7] as u64) * 0x100000000000000)
    }

    /// Return a zero-copy sub-slice of the original buffer.
    pub fn read_bytes(&mut self, len: usize) -> (res: Result<&'a [u8], ChainError>)
        ensures
            final(self).data() == old(self).data(),
            final(self).wf(),
            match res {
                Ok(b) => {
                    &&& old(self).rest().len() >= len
                    &&& b@ == old(self).rest().take(len as int)
                    &&& final(self).pos() == old(self).pos() + len
                },
                Err(e) => {
                    &&& old(self).rest().len() < len
                    &&& e.kind() == crate::errors::ErrorKind::UnexpectedEof("read_bytes"@)
                    &&& final(self).pos() == old(self).pos()
                },
            },
    {
        self.take(len, "read_bytes")
    }

    /// Decode a Bitcoin CompactSize integer.
    ///
    /// - `0x00..=0xfc` is the value itself (1 byte total)
    /// - `0xfd` reads a u16-le (3 bytes total)
    /// - `0xfe` reads a u32-le (5 bytes total)
    /// - `0xff` reads a u64-le (9 bytes total)
    ///
    /// A missing continuation, or a value encoded in more bytes than it
    /// needs, yields `InvalidVarInt` with the leading byte, after that byte
    /// has been consumed.
    pub fn read_compact_size(&mut self) -> (res: Result<u64, ChainError>)
        ensures
            final(self).data() == old(self).data(),
            final(self).wf(),
            match res {
                Ok(v) => {
                    &&& spec_compact_size(old(self).rest()) matches Some((w, n))
                    &&& v == w
                    &&& final(self).pos() == old(self).pos() + n
                },
                Err(e) => {
                    &&& spec_compact_size(old(self).rest()) is None
                    &&& if old(self).rest().len() == 0 {
                        &&& e.kind() == crate::errors::ErrorKind::UnexpectedEof("u8"@)
                        &&& final(self).pos() == old(self).pos()
                    } else {
                        &&& e.kind() == crate::errors::ErrorKind::InvalidVarInt(
                            old(self).rest()[0],
                        )
                        &&& final(self).pos() == old(self).pos() + 1
                    }
                },
            },
    {
        let first = self.read_u8()?;
        let ghost mid = *self;
        proof {
            assert(old(self).rest().drop_first() =~= self.rest());
        }
        let res = self.read_compact_continuation(first);
        res
    }

    /// Finish a CompactSize whose leading byte `first` has already been read.
    pub fn read_compact_continuation(&mut self, first: u8) -> (res: Result<u64, ChainError>)
        ensures
            final(self).data() == old(self).data(),
            final(self).wf(),
            match res {
                Ok(v) => {
                    &&& spec_compact_size_after(first, old(self).rest()) matches Some((w, n))
                    &&& v == w
                    &&& final(self).pos() == old(self).pos() + n - 1
                },
                Err(e) => {
                    &&& spec_compact_size_after(first, old(self).rest()) is None
                    &&& e.kind() == crate::errors::ErrorKind::InvalidVarInt(first)
                    &&& final(self).pos() == old(self).pos()
                },
            },
    {
        proof {
            use_type_invariant(&*self);
        }
        if first < 0xfd {
            assert(spec_compact_size_after(first, old(self).rest()) == Some((first as u64, 1nat)));
            Ok(first as u64)
        } else if first == 0xfd {
            let start = self.cursor;
            match self.read_u16_le() {
                Ok(v) => {
                    if v < 0xfd {
                        self.cursor = start;
                        return Err(ChainError::InvalidVarInt { byte: first });
                    }
                    assert(spec_compact_size_after(first, old(self).rest()) == Some((v as u64, 3nat)));
                    Ok(v as u64)
                },
                Err(_) => Err(ChainError::InvalidVarInt { byte: first }),
            }
        } else if first == 0xfe {
            let start = self.cursor;
            match self.read_u32_le() {
                Ok(v) => {
                    if v < 0x1_0000 {
                        self.cursor = start;
                        return Err(ChainError::InvalidVarInt { byte: first });
                    }
                    assert(spec_compact_size_after(first, old(self).rest()) == Some((v as u64, 5nat)));
                    Ok(v as u64)
                },
                Err(_) => Err(ChainError::InvalidVarInt { byte: first }),
            }
        } else {
            let start = self.cursor;
            match self.read_u64_le() {
                Ok(v) => {
                    if v < 0x1_0000_0000 {
                        self.cursor = start;
                        return Err(ChainError::InvalidVarInt { byte: first });
                    }
                    assert(spec_compact_size_after(first, old(self).rest()) == Some((v, 9nat)));
                    Ok(v)
                },
                Err(_) => Err(ChainError::InvalidVarInt { byte: first }),
            }
        }
    }

    /// Read an i32 in little-endian order (two's complement).
    pub fn read_i32_le(&mut self) -> (res: Result<i32, ChainError>)
        ensures
            final(self).data() == old(self).data(),
            final(self).wf(),
            match res {
                Ok(v) => {
                    &&& old(self).rest().len() >= 4
                    &&& v as int == spec_i32_from_le(old(self).rest().take(4))
                    &&& final(self).pos() == old(self).pos() + 4
                },
                Err(e) => {
                    &&& old(self).rest().len() < 4
                    &&& e.kind() == crate::errors::ErrorKind::UnexpectedEof("i32_le"@)
                    &&& final(self).pos() == old(self).pos()
                },
            },
    {
        let b = self.take(4, "i32_le")?;
        proof {
            reveal_with_fuel(le_value, 5);
        }
        let u: u32 = b[0] as u32 + (b[1] as u32) * 0x100 + (b[2] as u32) * 0x10000 + (
        b[3] as u32) * 0x1000000;
        let v: i32 = if u < 0x80000000 {
            u as i32
        } else {
            (u - 0x80000000) as i32 - 0x7fffffff - 1
        };
        Ok(v)
    }
}

/// Two's-complement value of four little-endian bytes.
pub open spec fn spec_i32_from_le(s: Seq<u8>) -> int {
    let u = le_value(s);
    if u < 0x80000000 {
        u as int
    } else {
        u - 0x100000000
    }
}

} // verus!
