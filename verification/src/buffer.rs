//! Writing PSD bytes: a growing byte buffer with length-prefixed and padded
//! sections.
use vstd::prelude::*;
use vstd::string::StringSliceAdditionalSpecFns;

use crate::text::{str_to_utf16, utf16_decode, utf16_encode};

verus! {

/// The four big-endian bytes of `n` (taken modulo 2^32).
pub open spec fn be32_bytes(n: int) -> Seq<u8> {
    let m = n % 0x1_0000_0000;
    seq![
        (m / 0x100_0000) as u8,
        (m / 0x1_0000 % 0x100) as u8,
        (m / 0x100 % 0x100) as u8,
        (m % 0x100) as u8,
    ]
}

/// The eight big-endian bytes of `n`, for `0 <= n < 2^64`.
pub open spec fn be64_bytes(n: int) -> Seq<u8> {
    be32_bytes(n / 0x1_0000_0000) + be32_bytes(n % 0x1_0000_0000)
}

/// Reducing a value modulo 2^32 first does not change its four bytes.
pub proof fn lemma_be32_mod(n: int)
    ensures
        be32_bytes(n % 0x1_0000_0000) == be32_bytes(n),
{
    assert((n % 0x1_0000_0000) % 0x1_0000_0000 == n % 0x1_0000_0000);
}

/// Reading four bytes that `be32_bytes` wrote gives back the value.
pub proof fn lemma_be32_round_trip(n: int)
    requires
        0 <= n <= u32::MAX,
    ensures
        be32_bytes(n).len() == 4,
        crate::cursor::be32(be32_bytes(n), 0) == n,
{
}

/// Reading eight bytes that `be64_bytes` wrote gives back the value.
pub proof fn lemma_be64_round_trip(n: int)
    requires
        0 <= n <= u64::MAX,
    ensures
        be64_bytes(n).len() == 8,
        crate::cursor::be64(be64_bytes(n), 0) == n,
{
    let hi = n / 0x1_0000_0000;
    let lo = n % 0x1_0000_0000;
    lemma_be32_round_trip(hi);
    lemma_be32_round_trip(lo);
    let b = be64_bytes(n);
    assert(b.subrange(0, 4) =~= be32_bytes(hi));
    assert(b.subrange(4, 8) =~= be32_bytes(lo));
    assert(crate::cursor::be32(b, 0) == crate::cursor::be32(be32_bytes(hi), 0));
    assert(crate::cursor::be32(b, 4) == crate::cursor::be32(be32_bytes(lo), 0));
}

/// The big-endian bytes of UTF-16 code units, two per unit.
pub open spec fn units_be_bytes(u: Seq<u16>) -> Seq<u8> {
    Seq::new(
        2 * u.len(),
        |i: int|
            if i % 2 == 0 {
                (u[i / 2] / 256) as u8
            } else {
                (u[i / 2] % 256) as u8
            },
    )
}

/// Reading the big-endian bytes of UTF-16 code units, pair by pair, gives
/// back the units.
pub proof fn lemma_units_round_trip(u: Seq<u16>)
    ensures
        crate::cursor::be16_units(units_be_bytes(u)) == u,
{
    let b = units_be_bytes(u);
    assert forall|i: int| 0 <= i < u.len() implies #[trigger] crate::cursor::be16_units(b)[i] == u[i] by {
        assert((2 * i) / 2 == i);
        assert((2 * i + 1) / 2 == i);
        assert((2 * i) % 2 == 0);
        assert((2 * i + 1) % 2 == 1);
        assert(crate::cursor::be16(b, 2 * i) == (u[i] / 256) * 256 + u[i] % 256);
    }
    assert(crate::cursor::be16_units(b) =~= u);
}

/// A Unicode string that a buffer writes (with no padding) reads back, at
/// the start of any bytes that begin with it, as the same characters, and the
/// read ends where the written string does.
pub proof fn lemma_unicode_round_trip(s: Seq<char>, rest: Seq<u8>)
    requires
        utf16_encode(s).len() <= u32::MAX,
    ensures
        crate::cursor::unicode_string_ok(unicode_encoding(s) + rest, 0, 1),
        crate::cursor::unicode_string_end(unicode_encoding(s) + rest, 0, 1) == unicode_encoding(
            s,
        ).len(),
        utf16_decode(crate::cursor::unicode_units(unicode_encoding(s) + rest, 0)) == s,
{
    let u = utf16_encode(s);
    let b = unicode_encoding(s) + rest;
    lemma_be32_round_trip(u.len() as int);
    assert(b.subrange(0, 4) =~= be32_bytes(u.len() as int));
    assert(crate::cursor::be32(b, 0) == crate::cursor::be32(be32_bytes(u.len() as int), 0));
    assert(b.subrange(4, 4 + 2 * u.len() as int) =~= units_be_bytes(u));
    lemma_units_round_trip(u);
    crate::text::lemma_utf16_round_trip(s);
}

/// A Unicode string as written: the number of UTF-16 code units as four
/// big-endian bytes, then the units.
pub open spec fn unicode_encoding(s: Seq<char>) -> Seq<u8> {
    be32_bytes(utf16_encode(s).len() as int) + units_be_bytes(utf16_encode(s))
}

/// A Pascal string as written: its length byte, its UTF-8 bytes, and a zero
/// byte where that makes the whole of even size.
pub open spec fn pascal_encoding(b: Seq<u8>) -> Seq<u8> {
    seq![(b.len() % 256) as u8] + b + if b.len() % 2 == 0 { seq![0u8] } else { Seq::empty() }
}

/// A buffer that PSD bytes are written to.
pub struct PsdBuffer {
    bytes: Vec<u8>,
}

impl View for PsdBuffer {
    type V = Seq<u8>;

    closed spec fn view(&self) -> Seq<u8> {
        self.bytes@
    }
}

/// The four big-endian bytes of `n`.
pub fn u32_to_be_bytes(n: u32) -> (r: [u8; 4])
    ensures
        r@ == be32_bytes(n as int),
{
    let r = [(n / 0x100_0000) as u8, (n / 0x1_0000 % 0x100) as u8, (n / 0x100 % 0x100) as u8, (n % 0x100) as u8];
    assert(r@ =~= be32_bytes(n as int));
    r
}

impl PsdBuffer {
    /// A buffer that writes after `bytes`.
    pub fn new(bytes: Vec<u8>) -> (r: PsdBuffer)
        ensures
            r@ == bytes@,
    {
        PsdBuffer { bytes }
    }

    /// The bytes written so far.
    pub fn into_bytes(self) -> (r: Vec<u8>)
        ensures
            r@ == self@,
    {
        self.bytes
    }

    /// How many bytes the buffer holds.
    pub fn len(&self) -> (r: usize)
        ensures
            r == self@.len(),
    {
        self.bytes.len()
    }

    /// Write `data`.
    pub fn write(&mut self, data: &[u8])
        ensures
            final(self)@ == old(self)@ + data@,
    {
        let ghost start = self.bytes@;
        let mut i: usize = 0;
        while i < data.len()
            invariant
                i <= data@.len(),
                self.bytes@ == start + data@.take(i as int),
            decreases data@.len() - i,
        {
            self.bytes.push(data[i]);
            i += 1;
            assert(self.bytes@ =~= start + data@.take(i as int));
        }
        assert(data@.take(i as int) =~= data@);
    }

    /// Write `n` as four big-endian bytes.
    pub fn write_u32(&mut self, n: u32)
        ensures
            final(self)@ == old(self)@ + be32_bytes(n as int),
    {
        let b = u32_to_be_bytes(n);
        self.write(&b);
    }

    /// Write `n` as eight big-endian bytes.
    pub fn write_u64(&mut self, n: u64)
        ensures
            final(self)@ == old(self)@ + be64_bytes(n as int),
    {
        let hi = (n / 0x1_0000_0000) as u32;
        let lo = (n % 0x1_0000_0000) as u32;
        self.write_u32(hi);
        self.write_u32(lo);
        assert(final(self)@ =~= old(self)@ + be64_bytes(n as int));
    }

    /// Write a Unicode string: its number of UTF-16 code units, then the units.
    pub fn write_unicode_string(&mut self, s: &str)
        ensures
            final(self)@ == old(self)@ + unicode_encoding(s@),
    {
        let units = str_to_utf16(s);
        let count = ((units.len() as u64) % 0x1_0000_0000) as u32;
        self.write_u32(count);
        proof {
            lemma_be32_mod(units@.len() as int);
        }
        let ghost start = self.bytes@;
        let mut i: usize = 0;
        while i < units.len()
            invariant
                i <= units@.len(),
                self.bytes@ == start + units_be_bytes(units@.take(i as int)),
            decreases units@.len() - i,
        {
            let u = units[i];
            self.bytes.push((u / 256) as u8);
            self.bytes.push((u % 256) as u8);
            i += 1;
            assert(units_be_bytes(units@.take(i as int)) =~= units_be_bytes(units@.take(i - 1)) + seq![
                (u / 256) as u8,
                (u % 256) as u8,
            ]);
        }
        assert(units@.take(i as int) =~= units@);
    }

    /// Write a Pascal string: a length byte, the bytes of `s`, and a zero
    /// byte where that makes the whole of even size.
    pub fn write_pascal_string(&mut self, s: &str)
        ensures
            final(self)@ == old(self)@ + pascal_encoding(s.spec_bytes()),
    {
        let bytes = s.as_bytes();
        let len = bytes.len();
        let len_byte: [u8; 1] = [(len % 256) as u8];
        self.write(&len_byte);
        self.write(bytes);
        if len % 2 == 0 {
            let zero: [u8; 1] = [0];
            self.write(&zero);
        }
        assert(final(self)@ =~= old(self)@ + pascal_encoding(s.spec_bytes()));
    }

    /// Start a section whose length comes first: write a 4-byte placeholder
    /// for the length, and return where it stands.
    pub fn begin_sized(&mut self) -> (r: usize)
        ensures
            r == old(self)@.len(),
            final(self)@ == old(self)@ + seq![0u8, 0, 0, 0],
    {
        let r = self.bytes.len();
        self.write_u32(0);
        assert(be32_bytes(0) =~= seq![0u8, 0, 0, 0]);
        r
    }

    /// End the section whose length placeholder stands at `start`: write the
    /// number of bytes after the placeholder (modulo 2^32) into it.
    pub fn end_sized(&mut self, start: usize)
        requires
            start + 4 <= old(self)@.len(),
        ensures
            final(self)@ == old(self)@.subrange(0, start as int) + be32_bytes(
                old(self)@.len() - start - 4,
            ) + old(self)@.subrange(start + 4, old(self)@.len() as int),
    {
        let n = self.bytes.len() - start - 4;
        let len32 = ((n as u64) % 0x1_0000_0000) as u32;
        let b = u32_to_be_bytes(len32);
        assert(be32_bytes(len32 as int) =~= be32_bytes(n as int));
        self.bytes.set(start, b[0]);
        self.bytes.set(start + 1, b[1]);
        self.bytes.set(start + 2, b[2]);
        self.bytes.set(start + 3, b[3]);
        assert(self.bytes@ =~= old(self)@.subrange(0, start as int) + be32_bytes(n as int)
            + old(self)@.subrange(start + 4, old(self)@.len() as int));
    }

    /// Write zero bytes until the bytes written since `start` are a multiple
    /// of `divisor`.
    pub fn pad_from(&mut self, start: usize, divisor: usize)
        requires
            start <= old(self)@.len(),
            divisor > 0,
        ensures
            final(self)@ == old(self)@ + Seq::new(
                crate::cursor::pad_len(old(self)@.len() - start, divisor as int) as nat,
                |i: int| 0u8,
            ),
    {
        let written = self.bytes.len() - start;
        let remainder = written % divisor;
        let ghost start_bytes = self.bytes@;
        if remainder > 0 {
            let k = divisor - remainder;
            let mut i: usize = 0;
            while i < k
                invariant
                    i <= k,
                    self.bytes@ == start_bytes + Seq::new(i as nat, |j: int| 0u8),
                decreases k - i,
            {
                self.bytes.push(0);
                i += 1;
                assert(self.bytes@ =~= start_bytes + Seq::new(i as nat, |j: int| 0u8));
            }
        } else {
            assert(self.bytes@ =~= start_bytes + Seq::new(0, |j: int| 0u8));
        }
    }
}

/// A value that can be written to a PSD buffer.
pub trait PsdSerialize {
    /// The bytes that writing the value appends.
    spec fn encoding(&self) -> Seq<u8>;

    /// Write the value.
    fn write(&self, buffer: &mut PsdBuffer)
        ensures
            final(buffer)@ == old(buffer)@ + self.encoding(),
    ;
}

} // verus!
