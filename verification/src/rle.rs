//! PackBits run-length decoding, the compression that PSD channels use.
use vstd::prelude::*;

use crate::cursor::{signed8, PsdCursor};

verus! {

/// The header byte `b` of a PackBits run, read as a signed count.
pub open spec fn run_header(b: u8) -> int {
    signed8(b as int)
}

/// The bytes that the PackBits runs in `s` decode to. A run cut short by the
/// end of `s` ends the output.
///
/// A header `h` of `-128` is skipped; `0 <= h` copies the next `h + 1` bytes;
/// `h < 0` repeats the next byte `1 - h` times.
pub open spec fn rle_decode(s: Seq<u8>) -> Seq<u8>
    decreases s.len(),
{
    if s.len() == 0 {
        Seq::empty()
    } else {
        let h = run_header(s[0]);
        if h == -128 {
            rle_decode(s.skip(1))
        } else if h >= 0 {
            if h + 2 <= s.len() {
                s.subrange(1, h + 2) + rle_decode(s.skip(h + 2))
            } else {
                Seq::empty()
            }
        } else {
            if 2 <= s.len() {
                Seq::new((1 - h) as nat, |i: int| s[1]) + rle_decode(s.skip(2))
            } else {
                Seq::empty()
            }
        }
    }
}

/// Every run in `s` is complete. Where `dangling_header` holds, a header that
/// is the last byte of `s` is accepted too.
pub open spec fn rle_runs_complete(s: Seq<u8>, dangling_header: bool) -> bool
    decreases s.len(),
{
    if s.len() == 0 {
        true
    } else {
        let h = run_header(s[0]);
        if h == -128 {
            rle_runs_complete(s.skip(1), dangling_header)
        } else if s.len() == 1 {
            dangling_header
        } else if h >= 0 {
            h + 2 <= s.len() && rle_runs_complete(s.skip(h + 2), dangling_header)
        } else {
            rle_runs_complete(s.skip(2), dangling_header)
        }
    }
}

/// Decompress a whole PackBits channel.
pub fn rle_decompress(bytes: &[u8]) -> (out: Vec<u8>)
    requires
        rle_runs_complete(bytes@, false),
    ensures
        out@ == rle_decode(bytes@),
{
    let mut cursor = PsdCursor::new(bytes);
    let len = cursor.get_ref().len();
    let mut decompressed: Vec<u8> = Vec::new();
    let ghost s = bytes@;
    assert(s.skip(0) == s);
    assert(decompressed@ + rle_decode(s) == rle_decode(s));
    while cursor.position() != len
        invariant
            cursor.data() == s,
            len == s.len(),
            0 <= cursor.pos() <= len,
            rle_runs_complete(s.skip(cursor.pos()), false),
            decompressed@ + rle_decode(s.skip(cursor.pos())) == rle_decode(s),
        decreases len - cursor.pos(),
    {
        let ghost p = cursor.pos();
        let ghost rest = s.skip(p);
        let header = cursor.read_i8() as i16;
        if header == -128 {
            assert(rest.skip(1) == s.skip(p + 1));
            continue;
        } else if header >= 0 {
            let bytes_to_read = (1 + header) as usize;
            assert(rest.skip(header + 2) == s.skip(p + header + 2));
            let run = cursor.read(bytes_to_read);
            let mut i: usize = 0;
            let ghost before = decompressed@;
            while i < bytes_to_read
                invariant
                    i <= bytes_to_read,
                    run@.len() == bytes_to_read,
                    decompressed@ == before + run@.take(i as int),
                decreases bytes_to_read - i,
            {
                decompressed.push(run[i]);
                i += 1;
                assert(decompressed@ == before + run@.take(i as int));
            }
            assert(run@ == rest.subrange(1, header + 2));
            assert(decompressed@ == before + rest.subrange(1, header + 2));
        } else {
            let repeat = (1 - header) as usize;
            let byte = *cursor.read_1();
            assert(rest.skip(2) == s.skip(p + 2));
            let mut i: usize = 0;
            let ghost before = decompressed@;
            while i < repeat
                invariant
                    i <= repeat,
                    decompressed@ == before + Seq::new(i as nat, |k: int| byte),
                decreases repeat - i,
            {
                decompressed.push(byte);
                i += 1;
                assert(decompressed@ == before + Seq::new(i as nat, |k: int| byte));
            }
            assert(Seq::new(repeat as nat, |k: int| byte) == Seq::new(
                (1 - header) as nat,
                |k: int| rest[1],
            ));
        }
    }
    assert(s.skip(len as int) == Seq::<u8>::empty());
    decompressed
}

} // verus!
