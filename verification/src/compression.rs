//! A byte-at-a-time PackBits decoder.
use vstd::prelude::*;

use crate::cursor::PsdCursor;
use crate::rle::{rle_decode, rle_runs_complete, run_header};

verus! {

/// Decodes PackBits runs one byte at a time.
pub struct RLECompressed<'a> {
    cursor: PsdCursor<'a>,
    repeat: usize,
    literal: Option<u8>,
}

impl<'a> RLECompressed<'a> {
    /// Where the next run header is read once the current run is spent.
    closed spec fn next_header(&self) -> int {
        match self.literal {
            Some(_) => self.cursor.pos(),
            None => self.cursor.pos() + self.repeat,
        }
    }

    /// The decoder's state is consistent: the current run lies within the
    /// bytes and the runs after it are complete (a last lone header aside).
    pub closed spec fn wf(&self) -> bool {
        let s = self.cursor.data();
        &&& 0 <= self.cursor.pos() <= s.len()
        &&& self.next_header() <= s.len()
        &&& rle_runs_complete(s.skip(self.next_header()), true)
    }

    /// How many input bytes the cursor has yet to pass.
    pub closed spec fn unread(&self) -> int {
        self.cursor.data().len() - self.cursor.pos()
    }

    /// The bytes that the decoder has yet to yield.
    pub closed spec fn remaining(&self) -> Seq<u8> {
        let s = self.cursor.data();
        let run = match self.literal {
            Some(b) => Seq::new(self.repeat as nat, |i: int| b),
            None => s.subrange(self.cursor.pos(), self.cursor.pos() + self.repeat),
        };
        run + rle_decode(s.skip(self.next_header()))
    }

    /// A decoder over the PackBits runs in `bytes`.
    pub fn new(bytes: &'a [u8]) -> (r: RLECompressed<'a>)
        requires
            rle_runs_complete(bytes@, true),
        ensures
            r.wf(),
            r.remaining() == rle_decode(bytes@),
    {
        let r = RLECompressed { cursor: PsdCursor::new(bytes), literal: None, repeat: 0 };
        assert(bytes@.skip(0) == bytes@);
        assert(r.remaining() == rle_decode(bytes@));
        r
    }

    /// The next decoded byte, or `None` once all runs are decoded.
    pub fn next(&mut self) -> (r: Option<u8>)
        requires
            old(self).wf(),
        ensures
            final(self).wf(),
            old(self).remaining().len() == 0 ==> r is None && final(self).remaining().len() == 0,
            old(self).remaining().len() > 0 ==> r == Some(old(self).remaining()[0])
                && final(self).remaining() == old(self).remaining().drop_first(),
        decreases old(self).unread(),
    {
        let ghost s = self.cursor.data();
        if self.repeat > 0 {
            self.repeat -= 1;
            return match self.literal {
                Some(b) => {
                    assert(Seq::new((self.repeat + 1) as nat, |i: int| b).drop_first() =~= Seq::new(
                        self.repeat as nat,
                        |i: int| b,
                    ));
                    Some(b)
                },
                None => {
                    let ghost p = self.cursor.pos();
                    let b = self.cursor.read_u8();
                    assert(s.subrange(p, p + self.repeat + 1).drop_first() =~= s.subrange(
                        p + 1,
                        p + 1 + self.repeat,
                    ));
                    Some(b)
                },
            };
        }
        let ghost p = self.next_header();
        assert(p == self.cursor.pos());
        assert(self.remaining() =~= rle_decode(s.skip(p)));
        if self.cursor.position() >= self.cursor.get_ref().len() {
            assert(s.skip(p).len() == 0);
            return None;
        }
        let header = self.cursor.read_i8() as i16;
        assert(header == run_header(s[p]));
        assert(s.skip(p)[0] == s[p]);
        if header == -128 || self.cursor.position() == self.cursor.get_ref().len() {
            self.literal = None;
            assert(s.skip(p).skip(1) =~= s.skip(p + 1));
            assert(self.remaining() =~= rle_decode(s.skip(p + 1)));
            return self.next();
        }
        if header >= 0 {
            self.literal = None;
            self.repeat = (1 + header) as usize;
            assert(s.skip(p).skip(header + 2) =~= s.skip(p + header + 2));
            assert(s.skip(p).subrange(1, header + 2) =~= s.subrange(p + 1, p + header + 2));
        } else {
            let b = self.cursor.read_u8();
            self.literal = Some(b);
            self.repeat = (1 - header) as usize;
            assert(s.skip(p).skip(2) =~= s.skip(p + 2));
            assert(Seq::new((1 - header) as nat, |i: int| s.skip(p)[1]) =~= Seq::new(
                self.repeat as nat,
                |i: int| b,
            ));
        }
        self.next()
    }
}

} // verus!
