//! A cursor over the bytes of a PSD file, with the big-endian readers that the
//! rest of the library is built on.
use vstd::prelude::*;

use crate::text::{string_from_utf16, string_from_utf8_lossy, utf16_decode, utf16_valid, utf8_lossy};

verus! {

/// Big-endian value of the two bytes of `s` that start at `i`.
pub open spec fn be16(s: Seq<u8>, i: int) -> int {
    s[i] * 256 + s[i + 1]
}

/// Big-endian value of the four bytes of `s` that start at `i`.
pub open spec fn be32(s: Seq<u8>, i: int) -> int {
    ((s[i] * 256 + s[i + 1]) * 256 + s[i + 2]) * 256 + s[i + 3]
}

/// Big-endian value of the eight bytes of `s` that start at `i`.
pub open spec fn be64(s: Seq<u8>, i: int) -> int {
    be32(s, i) * 0x1_0000_0000 + be32(s, i + 4)
}

/// Two's complement reading of an 8-bit pattern.
pub open spec fn signed8(u: int) -> int {
    if u < 0x80 { u } else { u - 0x100 }
}

/// Two's complement reading of a 16-bit pattern.
pub open spec fn signed16(u: int) -> int {
    if u < 0x8000 { u } else { u - 0x1_0000 }
}

/// Two's complement reading of a 32-bit pattern.
pub open spec fn signed32(u: int) -> int {
    if u < 0x8000_0000 { u } else { u - 0x1_0000_0000 }
}

/// Two's complement reading of a 64-bit pattern.
pub open spec fn signed64(u: int) -> int {
    if u < 0x8000_0000_0000_0000 { u } else { u - 0x1_0000_0000_0000_0000 }
}

/// The big-endian 16-bit units that the bytes of `s` form, pair by pair
/// (a last odd byte is left out).
pub open spec fn be16_units(s: Seq<u8>) -> Seq<u16> {
    Seq::new(s.len() / 2, |i: int| be16(s, 2 * i) as u16)
}

/// The number of bytes that pad `size` to a multiple of `divisor`.
pub open spec fn pad_len(size: int, divisor: int) -> int {
    if size % divisor > 0 {
        divisor - size % divisor
    } else {
        0
    }
}

/// The UTF-16 units of the Unicode string whose length field starts at `pos`.
pub open spec fn unicode_units(s: Seq<u8>, pos: int) -> Seq<u16> {
    be16_units(s.subrange(pos + 4, pos + 4 + 2 * be32(s, pos)))
}

/// Where a Unicode string that starts at `pos`, padded to `padding`, ends.
pub open spec fn unicode_string_end(s: Seq<u8>, pos: int, padding: int) -> int {
    pos + 4 + 2 * be32(s, pos) + pad_len(4 + 2 * be32(s, pos), padding)
}

/// A Unicode string padded to `padding` can be read at `pos`: its bytes lie
/// within `s` and hold valid UTF-16.
pub open spec fn unicode_string_ok(s: Seq<u8>, pos: int, padding: int) -> bool {
    &&& 0 <= pos
    &&& pos + 4 <= s.len()
    &&& unicode_string_end(s, pos, padding) <= s.len()
    &&& utf16_valid(unicode_units(s, pos))
}

/// Where a Pascal string that starts at `pos` ends.
pub open spec fn pascal_string_end(s: Seq<u8>, pos: int) -> int {
    pos + 1 + s[pos] + if s[pos] % 2 == 0 { 1int } else { 0int }
}

/// The bytes of the Pascal string that starts at `pos`.
pub open spec fn pascal_string_bytes(s: Seq<u8>, pos: int) -> Seq<u8> {
    s.subrange(pos + 1, pos + 1 + s[pos])
}

/// A cursor over the bytes of a PSD file.
pub struct PsdCursor<'a> {
    bytes: &'a [u8],
    pos: usize,
}

impl<'a> PsdCursor<'a> {
    /// The bytes that the cursor reads.
    pub closed spec fn data(&self) -> Seq<u8> {
        self.bytes@
    }

    /// The index of the next byte to read.
    pub closed spec fn pos(&self) -> int {
        self.pos as int
    }

    /// A position is a `usize`.
    pub proof fn lemma_pos_bounds(&self)
        ensures
            0 <= self.pos() <= usize::MAX,
    {
    }

    /// Create a cursor at the start of `bytes`.
    pub fn new(bytes: &'a [u8]) -> (c: PsdCursor<'a>)
        ensures
            c.data() == bytes@,
            c.pos() == 0,
    {
        PsdCursor { bytes, pos: 0 }
    }

    /// The cursor's position.
    pub fn position(&self) -> (p: usize)
        ensures
            p == self.pos(),
    {
        self.pos
    }

    /// Move the cursor to `pos`.
    pub fn seek(&mut self, pos: usize)
        ensures
            final(self).data() == old(self).data(),
            final(self).pos() == pos,
    {
        self.pos = pos;
    }

    /// The bytes under the cursor.
    pub fn get_ref(&self) -> (r: &'a [u8])
        ensures
            r@ == self.data(),
    {
        self.bytes
    }

    /// Advance the cursor by `count` bytes and return those bytes.
    pub fn read(&mut self, count: usize) -> (r: &'a [u8])
        requires
            old(self).pos() + count <= old(self).data().len(),
        ensures
            final(self).data() == old(self).data(),
            final(self).pos() == old(self).pos() + count,
            r@ == old(self).data().subrange(old(self).pos(), old(self).pos() + count),
    {
        let len = self.bytes.len();
        let start = self.pos;
        let end = start + count;
        assert(end <= len);
        let bytes = &self.bytes[start..end];
        self.pos = end;
        bytes
    }

    /// Advance the cursor by `N` bytes and return those bytes.
    pub fn read_n<const N: usize>(&mut self) -> (r: &'a [u8])
        requires
            old(self).pos() + N <= old(self).data().len(),
        ensures
            final(self).data() == old(self).data(),
            final(self).pos() == old(self).pos() + N,
            r@ == old(self).data().subrange(old(self).pos(), old(self).pos() + N),
    {
        self.read(N)
    }

    /// The next `n` bytes, without moving the cursor.
    fn peek(&self, n: usize) -> (r: &'a [u8])
        requires
            self.pos() + n <= self.data().len(),
        ensures
            r@ == self.data().subrange(self.pos(), self.pos() + n),
    {
        let len = self.bytes.len();
        let start = self.pos;
        let end = start + n;
        assert(end <= len);
        &self.bytes[start..end]
    }

    /// The next `N` bytes, without moving the cursor.
    pub fn peek_n<const N: usize>(&self) -> (r: &'a [u8])
        requires
            self.pos() + N <= self.data().len(),
        ensures
            r@ == self.data().subrange(self.pos(), self.pos() + N),
    {
        self.peek(N)
    }

    /// The next four bytes as a big-endian `u32`, without moving the cursor.
    pub fn peek_u32(&self) -> (v: u32)
        requires
            self.pos() + 4 <= self.data().len(),
        ensures
            v == be32(self.data(), self.pos()),
    {
        let b = self.peek(4);
        (b[0] as u32) * 0x100_0000 + (b[1] as u32) * 0x1_0000 + (b[2] as u32) * 0x100 + (b[3] as u32)
    }

    /// Read one byte.
    pub fn read_1(&mut self) -> (r: &'a u8)
        requires
            old(self).pos() + 1 <= old(self).data().len(),
        ensures
            final(self).data() == old(self).data(),
            final(self).pos() == old(self).pos() + 1,
            *r == old(self).data()[old(self).pos()],
    {
        let b = self.read(1);
        &b[0]
    }

    /// Read one byte as a `u8`.
    pub fn read_u8(&mut self) -> (v: u8)
        requires
            old(self).pos() + 1 <= old(self).data().len(),
        ensures
            final(self).data() == old(self).data(),
            final(self).pos() == old(self).pos() + 1,
            v == old(self).data()[old(self).pos()],
    {
        *self.read_1()
    }

    /// Read two bytes as a big-endian `u16`.
    pub fn read_u16(&mut self) -> (v: u16)
        requires
            old(self).pos() + 2 <= old(self).data().len(),
        ensures
            final(self).data() == old(self).data(),
            final(self).pos() == old(self).pos() + 2,
            v == be16(old(self).data(), old(self).pos()),
    {
        let b = self.read(2);
        (b[0] as u16) * 0x100 + (b[1] as u16)
    }

    /// Read four bytes as a big-endian `u32`.
    pub fn read_u32(&mut self) -> (v: u32)
        requires
            old(self).pos() + 4 <= old(self).data().len(),
        ensures
            final(self).data() == old(self).data(),
            final(self).pos() == old(self).pos() + 4,
            v == be32(old(self).data(), old(self).pos()),
    {
        let b = self.read(4);
        (b[0] as u32) * 0x100_0000 + (b[1] as u32) * 0x1_0000 + (b[2] as u32) * 0x100 + (b[3] as u32)
    }

    /// Read eight bytes as a big-endian `u64`.
    pub fn read_u64(&mut self) -> (v: u64)
        requires
            old(self).pos() + 8 <= old(self).data().len(),
        ensures
            final(self).data() == old(self).data(),
            final(self).pos() == old(self).pos() + 8,
            v == be64(old(self).data(), old(self).pos()),
    {
        let hi = self.read_u32();
        let lo = self.read_u32();
        (hi as u64) * 0x1_0000_0000 + (lo as u64)
    }

    /// Read one byte as an `i8`.
    pub fn read_i8(&mut self) -> (v: i8)
        requires
            old(self).pos() + 1 <= old(self).data().len(),
        ensures
            final(self).data() == old(self).data(),
            final(self).pos() == old(self).pos() + 1,
            v == signed8(old(self).data()[old(self).pos()] as int),
    {
        let u = self.read_u8();
        assert(u < 0x80 ==> (u as i8) == u) by (bit_vector);
        assert(u >= 0x80 ==> (u as i8) == u - 0x100) by (bit_vector);
        u as i8
    }

    /// Read two bytes as a big-endian `i16`.
    pub fn read_i16(&mut self) -> (v: i16)
        requires
            old(self).pos() + 2 <= old(self).data().len(),
        ensures
            final(self).data() == old(self).data(),
            final(self).pos() == old(self).pos() + 2,
            v == signed16(be16(old(self).data(), old(self).pos())),
    {
        let u = self.read_u16();
        assert(u < 0x8000 ==> (u as i16) == u) by (bit_vector);
        assert(u >= 0x8000 ==> (u as i16) == u - 0x1_0000) by (bit_vector);
        u as i16
    }

    /// Read four bytes as a big-endian `i32`.
    pub fn read_i32(&mut self) -> (v: i32)
        requires
            old(self).pos() + 4 <= old(self).data().len(),
        ensures
            final(self).data() == old(self).data(),
            final(self).pos() == old(self).pos() + 4,
            v == signed32(be32(old(self).data(), old(self).pos())),
    {
        let u = self.read_u32();
        assert(u < 0x8000_0000 ==> (u as i32) == u) by (bit_vector);
        assert(u >= 0x8000_0000 ==> (u as i32) == u - 0x1_0000_0000) by (bit_vector);
        u as i32
    }

    /// Read eight bytes as a big-endian `i64`.
    pub fn read_i64(&mut self) -> (v: i64)
        requires
            old(self).pos() + 8 <= old(self).data().len(),
        ensures
            final(self).data() == old(self).data(),
            final(self).pos() == old(self).pos() + 8,
            v == signed64(be64(old(self).data(), old(self).pos())),
    {
        let u = self.read_u64();
        assert(u < 0x8000_0000_0000_0000 ==> (u as i64) == u) by (bit_vector);
        assert(u >= 0x8000_0000_0000_0000 ==> (u as i64) == u - 0x1_0000_0000_0000_0000)
            by (bit_vector);
        u as i64
    }

    /// Read a Unicode string: a 4-byte count of UTF-16 units, then the units,
    /// padded to a multiple of 4 bytes.
    pub fn read_unicode_string(&mut self) -> (r: String)
        requires
            unicode_string_ok(old(self).data(), old(self).pos(), 4),
        ensures
            final(self).data() == old(self).data(),
            final(self).pos() == unicode_string_end(old(self).data(), old(self).pos(), 4),
            r@ == utf16_decode(unicode_units(old(self).data(), old(self).pos())),
    {
        self.read_unicode_string_padding(4)
    }

    /// Read a Unicode string: a 4-byte count of UTF-16 units, then the units,
    /// padded to a multiple of `padding` bytes.
    pub fn read_unicode_string_padding(&mut self, padding: usize) -> (r: String)
        requires
            padding > 0,
            unicode_string_ok(old(self).data(), old(self).pos(), padding as int),
        ensures
            final(self).data() == old(self).data(),
            final(self).pos() == unicode_string_end(
                old(self).data(),
                old(self).pos(),
                padding as int,
            ),
            r@ == utf16_decode(unicode_units(old(self).data(), old(self).pos())),
    {
        let ghost s = self.data();
        let ghost p = self.pos();
        let total = self.bytes.len();
        let length = self.read_u32() as usize;
        assert(4 + 2 * length <= total);
        let length_bytes = length * 2;
        let data = self.read(length_bytes);
        let units = u8_slice_to_u16(data);
        assert(units@ == unicode_units(s, p));
        let result = string_from_utf16(units.as_slice());
        let result = match result {
            Some(r) => r,
            None => {
                assert(false);
                String::new()
            },
        };
        self.read_padding(4 + length_bytes, padding);
        result
    }

    /// Skip the bytes that pad `size` to a multiple of `divisor`, and return them.
    fn read_padding(&mut self, size: usize, divisor: usize) -> (r: &'a [u8])
        requires
            divisor > 0,
            old(self).pos() + pad_len(size as int, divisor as int) <= old(self).data().len(),
        ensures
            final(self).data() == old(self).data(),
            final(self).pos() == old(self).pos() + pad_len(size as int, divisor as int),
            r@.len() == pad_len(size as int, divisor as int),
    {
        let remainder = size % divisor;
        if remainder > 0 {
            let to_read = divisor - remainder;
            self.read(to_read)
        } else {
            self.read(0)
        }
    }

    /// Read a Pascal string: a length byte, then that many bytes of text, padded
    /// so that the whole is of even size.
    pub fn read_pascal_string(&mut self) -> (r: String)
        requires
            old(self).pos() < old(self).data().len(),
            pascal_string_end(old(self).data(), old(self).pos()) <= old(self).data().len(),
        ensures
            final(self).data() == old(self).data(),
            final(self).pos() == pascal_string_end(old(self).data(), old(self).pos()),
            r@ == utf8_lossy(pascal_string_bytes(old(self).data(), old(self).pos())),
    {
        let len = self.read_u8();
        let data = self.read(len as usize);
        let result = string_from_utf8_lossy(data);
        if len % 2 == 0 {
            self.read_u8();
        }
        result
    }
}

/// The big-endian 16-bit units of `bytes`, pair by pair.
pub fn u8_slice_to_u16(bytes: &[u8]) -> (r: Vec<u16>)
    ensures
        r@ == be16_units(bytes@),
{
    let len = bytes.len();
    let n = len / 2;
    let mut out: Vec<u16> = Vec::with_capacity(n);
    let mut i: usize = 0;
    while i < n
        invariant
            len == bytes@.len(),
            n == len / 2,
            i <= n,
            out@ == be16_units(bytes@).take(i as int),
        decreases n - i,
    {
        let v = (bytes[2 * i] as u16) * 0x100 + (bytes[2 * i + 1] as u16);
        out.push(v);
        i += 1;
        assert(out@ == be16_units(bytes@).take(i as int));
    }
    assert(out@ == be16_units(bytes@));
    out
}

} // verus!
