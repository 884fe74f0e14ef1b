//! The color mode data section.
use vstd::prelude::*;

use crate::buffer::{be32_bytes, PsdBuffer, PsdSerialize};

verus! {

/// Represents unsupported color mode data
#[derive(Debug, PartialEq, Eq, Structural)]
pub enum ColorModeDataSectionError {
    UnsupportedColorMode,
}

/// The color mode data section: data that only some color modes (indexed,
/// duotone) use, kept as bytes.
#[derive(Debug, PartialEq, Eq)]
pub struct ColorModeDataSection {
    color_mode_data: Vec<u8>,
}

impl View for ColorModeDataSection {
    type V = Seq<u8>;

    closed spec fn view(&self) -> Seq<u8> {
        self.color_mode_data@
    }
}

impl ColorModeDataSection {
    /// The section whose data are `bytes`.
    pub fn from_bytes(bytes: &[u8]) -> (r: Result<Self, ColorModeDataSectionError>)
        ensures
            r matches Ok(s) && s@ == bytes@,
    {
        let mut color_mode_data: Vec<u8> = Vec::with_capacity(bytes.len());
        let mut i: usize = 0;
        while i < bytes.len()
            invariant
                i <= bytes@.len(),
                color_mode_data@ == bytes@.take(i as int),
            decreases bytes@.len() - i,
        {
            color_mode_data.push(bytes[i]);
            i += 1;
            assert(color_mode_data@ =~= bytes@.take(i as int));
        }
        assert(bytes@.take(i as int) =~= bytes@);
        Ok(Self { color_mode_data })
    }

    /// The section whose data are `color_mode_data`.
    pub fn new(color_mode_data: Vec<u8>) -> (r: Self)
        ensures
            r@ == color_mode_data@,
    {
        Self { color_mode_data }
    }
}

impl PsdSerialize for ColorModeDataSection {
    /// The length of the data as four big-endian bytes, then the data.
    open spec fn encoding(&self) -> Seq<u8> {
        be32_bytes(self@.len() as int) + self@
    }

    fn write(&self, buffer: &mut PsdBuffer) {
        let start = buffer.begin_sized();
        buffer.write(self.color_mode_data.as_slice());
        buffer.end_sized(start);
        assert(buffer@ =~= old(buffer)@ + self.encoding());
    }
}

/// Reading back what a color mode data section writes gives the section: its
/// first four bytes give the length of the data, and the bytes after them,
/// read as a section, are the section's data.
pub proof fn lemma_color_mode_data_round_trip(section: &ColorModeDataSection)
    requires
        section@.len() <= u32::MAX,
    ensures
        crate::cursor::be32(section.encoding(), 0) == section@.len(),
        section.encoding().skip(4) == section@,
{
    crate::buffer::lemma_be32_round_trip(section@.len() as int);
    let e = section.encoding();
    assert(e.subrange(0, 4) =~= be32_bytes(section@.len() as int));
    assert(crate::cursor::be32(e, 0) == crate::cursor::be32(be32_bytes(section@.len() as int), 0));
    assert(e.skip(4) =~= section@);
}

} // verus!
