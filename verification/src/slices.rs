//! The slices image resource: the slices of an image, in the version 6 layout
//! or as a descriptor (versions 7 and 8).
use vstd::prelude::*;

use crate::buffer::{be32_bytes, unicode_encoding, PsdBuffer, PsdSerialize};
use crate::cursor::{be32, signed32, PsdCursor};
use crate::descriptor::{
    descriptor_encoding, descriptor_view, write_descriptor, DescriptorStructure, DescriptorView,
    ImageResourcesDescriptorError,
};
use crate::descriptor_read::{descriptor_at, fits, unicode_at, Read};

verus! {

/// The descriptor version that slices are stored with.
pub const EXPECTED_DESCRIPTOR_VERSION: u32 = 16;

/// A slices resource as a mathematical value.
pub enum SlicesView {
    /// Version 6: the name of the group of slices, and each slice's
    /// descriptor, where it has one.
    V6(Seq<char>, Seq<Option<DescriptorView>>),
    /// Versions 7 and 8: one descriptor.
    V7_8(DescriptorView),
}

/// Comes from a slices resource block
#[derive(Debug)]
pub enum SlicesImageResource {
    V6(SlicesImageResourceV6),
    V7_8(SlicesImageResourceV7_8),
}

/// Slices in the version 6 layout.
#[derive(Debug)]
pub struct SlicesImageResourceV6 {
    name: String,
    blocks: Vec<SlicesResourceBlock>,
}

/// One slice of the version 6 layout, with its descriptor where it has one.
#[derive(Debug)]
pub struct SlicesResourceBlock {
    descriptor: Option<DescriptorStructure>,
}

/// Slices as one descriptor, in versions 7 and 8.
#[derive(Debug)]
pub struct SlicesImageResourceV7_8 {
    descriptor: DescriptorStructure,
}

/// The view of an optional descriptor.
pub open spec fn opt_descriptor_view(d: Option<DescriptorStructure>) -> Option<DescriptorView> {
    match d {
        Some(d) => Some(descriptor_view(d)),
        None => None,
    }
}

impl View for SlicesResourceBlock {
    type V = Option<DescriptorView>;

    closed spec fn view(&self) -> Option<DescriptorView> {
        opt_descriptor_view(self.descriptor)
    }
}

impl View for SlicesImageResourceV6 {
    type V = (Seq<char>, Seq<Option<DescriptorView>>);

    closed spec fn view(&self) -> (Seq<char>, Seq<Option<DescriptorView>>) {
        (self.name@, self.blocks@.map_values(|b: SlicesResourceBlock| b@))
    }
}

impl View for SlicesImageResourceV7_8 {
    type V = DescriptorView;

    closed spec fn view(&self) -> DescriptorView {
        descriptor_view(self.descriptor)
    }
}

impl View for SlicesImageResource {
    type V = SlicesView;

    open spec fn view(&self) -> SlicesView {
        match self {
            SlicesImageResource::V6(f) => SlicesView::V6(f@.0, f@.1),
            SlicesImageResource::V7_8(f) => SlicesView::V7_8(f@),
        }
    }
}

/// The Unicode strings (padded to 1 byte) and fixed fields of a slice that
/// come after its name: type and bounds (20 bytes), URL, target, message,
/// alt tag, a flag byte, the cell text, then alignments and color (12 bytes).
pub open spec fn slice_fields_end(s: Seq<u8>, q: int) -> Read<()> {
    if !fits(s, q, 20) {
        Read::Unreadable
    } else {
        unicode_at(s, q + 20, 1).and_then(
            |u: Seq<char>, q2: int|
                unicode_at(s, q2, 1).and_then(
                    |t: Seq<char>, q3: int|
                        unicode_at(s, q3, 1).and_then(
                            |m: Seq<char>, q4: int|
                                unicode_at(s, q4, 1).and_then(
                                    |a: Seq<char>, q5: int|
                                        if fits(s, q5, 1) {
                                            unicode_at(s, q5 + 1, 1).and_then(
                                                |c: Seq<char>, q6: int|
                                                    if fits(s, q6, 12) {
                                                        Read::Value((), q6 + 12)
                                                    } else {
                                                        Read::Unreadable
                                                    },
                                            )
                                        } else {
                                            Read::Unreadable
                                        },
                                ),
                        ),
                ),
        )
    }
}

/// A slice of the version 6 layout, read from the start of `s`: its ids and
/// origin (with a layer id where the origin is 1), its name and fields, then,
/// where the next four bytes are the descriptor version, a descriptor. The
/// cursor goes back before the version when the class id is four zero bytes.
#[verifier::opaque]
pub open spec fn slices_block_at(s: Seq<u8>) -> Read<Option<DescriptorView>> {
    if !fits(s, 0, 12) {
        Read::Unreadable
    } else if signed32(be32(s, 8)) == 1 && !fits(s, 12, 4) {
        Read::Unreadable
    } else {
        let p = if signed32(be32(s, 8)) == 1 {
            16
        } else {
            12
        };
        unicode_at(s, p, 1).and_then(
            |n: Seq<char>, q: int|
                slice_fields_end(s, q).and_then(
                    |u: (), r: int|
                        if !fits(s, r, 4) {
                            Read::Unreadable
                        } else if be32(s, r) == EXPECTED_DESCRIPTOR_VERSION {
                            match descriptor_at(s, r + 4) {
                                Read::Value(d, e) => Read::Value(
                                    Some(d),
                                    if d.class_id == seq![0u8, 0, 0, 0] {
                                        r
                                    } else {
                                        e
                                    },
                                ),
                                Read::Invalid(x) => Read::Invalid(x),
                                Read::Unreadable => Read::Unreadable,
                            }
                        } else {
                            Read::Value(None, r)
                        },
                ),
        )
    }
}

/// Slices in the version 6 layout, read from the start of `s`: version and
/// bounds (20 bytes), the group's name, the number of slices, then the
/// slices. Each slice is read from the bytes after the number, so all of
/// them are the same.
pub open spec fn slices_v6_at(s: Seq<u8>) -> Read<(Seq<char>, Seq<Option<DescriptorView>>)> {
    if !fits(s, 0, 20) {
        Read::Unreadable
    } else {
        unicode_at(s, 20, 1).and_then(
            |name: Seq<char>, q: int|
                if !fits(s, q, 4) {
                    Read::Unreadable
                } else if be32(s, q) == 0 {
                    Read::Value((name, Seq::empty()), q + 4)
                } else {
                    match slices_block_at(s.subrange(q + 4, s.len() as int)) {
                        Read::Value(o, e) => Read::Value(
                            (name, Seq::new(be32(s, q) as nat, |i: int| o)),
                            q + 4,
                        ),
                        Read::Invalid(x) => Read::Invalid(x),
                        Read::Unreadable => Read::Unreadable,
                    }
                },
        )
    }
}

/// Slices of versions 7 and 8, read from the start of `s`: the version, the
/// descriptor version, which must be 16, then the descriptor.
pub open spec fn slices_v7_8_at(s: Seq<u8>) -> Read<DescriptorView> {
    if !fits(s, 0, 8) || be32(s, 4) != EXPECTED_DESCRIPTOR_VERSION {
        Read::Unreadable
    } else {
        descriptor_at(s, 8)
    }
}

/// A slices resource, read from the start of `s`: its version decides the
/// layout; versions other than 6, 7 and 8 cannot be read.
pub open spec fn slices_at(s: Seq<u8>) -> Read<SlicesView> {
    if !fits(s, 0, 4) {
        Read::Unreadable
    } else if be32(s, 0) == 6 {
        slices_v6_at(s).map(
            |v: (Seq<char>, Seq<Option<DescriptorView>>)| SlicesView::V6(v.0, v.1),
        )
    } else if be32(s, 0) == 7 || be32(s, 0) == 8 {
        slices_v7_8_at(s).map(|d: DescriptorView| SlicesView::V7_8(d))
    } else {
        Read::Unreadable
    }
}

/// The bytes that a slice of the version 6 layout is written as: zeros for
/// its fields (73 bytes: ids, origin, an empty name, type, bounds, four empty
/// strings, the flag, an empty cell text, alignments and color), then the
/// descriptor version and the descriptor, where it has one.
pub open spec fn slices_block_encoding(o: Option<DescriptorView>) -> Seq<u8> {
    Seq::new(73, |i: int| 0u8) + match o {
        Some(d) => be32_bytes(EXPECTED_DESCRIPTOR_VERSION as int) + descriptor_encoding(d),
        None => Seq::empty(),
    }
}

/// The slices of the version 6 layout, one after the other.
pub open spec fn slices_blocks_encoding(v: Seq<Option<DescriptorView>>) -> Seq<u8>
    decreases v.len(),
{
    if v.len() == 0 {
        Seq::empty()
    } else {
        slices_blocks_encoding(v.drop_last()) + slices_block_encoding(v.last())
    }
}

/// The bytes of a slices resource as written.
pub closed spec fn slices_encoding(v: SlicesView) -> Seq<u8> {
    match v {
        SlicesView::V6(name, blocks) => be32_bytes(6) + Seq::new(16, |i: int| 0u8)
            + unicode_encoding(name) + be32_bytes(blocks.len() as int) + slices_blocks_encoding(
            blocks,
        ),
        SlicesView::V7_8(d) => be32_bytes(7) + be32_bytes(EXPECTED_DESCRIPTOR_VERSION as int)
            + descriptor_encoding(d),
    }
}

/// Slices of version 6 are written as the version, 16 zero bytes, the
/// group's name, the number of slices, then the slices.
pub proof fn lemma_slices_v6_encoding(name: Seq<char>, blocks: Seq<Option<DescriptorView>>)
    ensures
        slices_encoding(SlicesView::V6(name, blocks)) == be32_bytes(6) + Seq::new(
            16,
            |i: int| 0u8,
        ) + unicode_encoding(name) + be32_bytes(blocks.len() as int) + slices_blocks_encoding(
            blocks,
        ),
{
}

/// Slices of versions 7 and 8 are written as the version, the descriptor
/// version, then the descriptor.
pub proof fn lemma_slices_v7_8_encoding(d: DescriptorView)
    ensures
        slices_encoding(SlicesView::V7_8(d)) == be32_bytes(7) + be32_bytes(
            EXPECTED_DESCRIPTOR_VERSION as int,
        ) + descriptor_encoding(d),
{
}

/// Write `n` zero bytes.
fn write_zeros(buffer: &mut PsdBuffer, n: usize)
    ensures
        final(buffer)@ == old(buffer)@ + Seq::new(n as nat, |i: int| 0u8),
{
    let ghost start = buffer@;
    let mut i: usize = 0;
    while i < n
        invariant
            i <= n,
            buffer@ == start + Seq::new(i as nat, |j: int| 0u8),
        decreases n - i,
    {
        let zero: [u8; 1] = [0];
        buffer.write(&zero);
        i += 1;
        assert(buffer@ =~= start + Seq::new(i as nat, |j: int| 0u8));
    }
}

impl SlicesResourceBlock {
    /// A slice with `descriptor`, where it has one.
    pub fn new(descriptor: Option<DescriptorStructure>) -> (r: SlicesResourceBlock)
        ensures
            r@ == opt_descriptor_view(descriptor),
    {
        SlicesResourceBlock { descriptor }
    }

    /// Read a slice of the version 6 layout from the start of `bytes`.
    pub fn from_bytes(bytes: &[u8]) -> (r: Result<SlicesResourceBlock, ImageResourcesDescriptorError>)
        requires
            !(slices_block_at(bytes@) is Unreadable),
        ensures
            match r {
                Ok(b) => slices_block_at(bytes@) matches Read::Value(o, _) && b@ == o,
                Err(e) => slices_block_at(bytes@) == Read::<Option<DescriptorView>>::Invalid(e),
            },
    {
        reveal(slices_block_at);
        let mut cursor = PsdCursor::new(bytes);
        cursor.read_i32();
        cursor.read_i32();
        let origin = cursor.read_i32();
        if origin == 1 {
            cursor.read_i32();
        }
        cursor.read_unicode_string_padding(1);
        cursor.read_i32();
        cursor.read_i32();
        cursor.read_i32();
        cursor.read_i32();
        cursor.read_i32();
        cursor.read_unicode_string_padding(1);
        cursor.read_unicode_string_padding(1);
        cursor.read_unicode_string_padding(1);
        cursor.read_unicode_string_padding(1);
        cursor.read_1();
        cursor.read_unicode_string_padding(1);
        cursor.read_i32();
        cursor.read_i32();
        cursor.read_i32();
        let pos = cursor.position();
        let descriptor_version = cursor.peek_u32();
        let descriptor = if descriptor_version == EXPECTED_DESCRIPTOR_VERSION {
            cursor.read_u32();
            match DescriptorStructure::read_descriptor_structure(&mut cursor) {
                Ok(d) => {
                    if d.class_id.len() == 4 && d.class_id[0] == 0 && d.class_id[1] == 0
                        && d.class_id[2] == 0 && d.class_id[3] == 0 {
                        cursor.seek(pos);
                    }
                    Some(d)
                },
                Err(e) => {
                    return Err(e);
                },
            }
        } else {
            None
        };
        Ok(SlicesResourceBlock { descriptor })
    }
}

impl PsdSerialize for SlicesResourceBlock {
    open spec fn encoding(&self) -> Seq<u8> {
        slices_block_encoding(self@)
    }

    fn write(&self, buffer: &mut PsdBuffer) {
        let ghost start = buffer@;
        write_zeros(buffer, 73);
        match &self.descriptor {
            Some(d) => {
                buffer.write_u32(EXPECTED_DESCRIPTOR_VERSION);
                write_descriptor(buffer, d);
            },
            None => {},
        }
        assert(buffer@ =~= start + slices_block_encoding(self@));
    }
}

impl SlicesImageResourceV6 {
    /// Slices named `name`, each with its descriptor where it has one.
    pub fn new(name: String, blocks: Vec<SlicesResourceBlock>) -> (r: SlicesImageResourceV6)
        ensures
            r@ == (name@, blocks@.map_values(|b: SlicesResourceBlock| b@)),
    {
        SlicesImageResourceV6 { name, blocks }
    }

    /// Read slices in the version 6 layout from the start of `bytes`.
    pub fn from_bytes(bytes: &[u8]) -> (r: Result<SlicesImageResourceV6, ImageResourcesDescriptorError>)
        requires
            !(slices_v6_at(bytes@) is Unreadable),
        ensures
            match r {
                Ok(v) => slices_v6_at(bytes@) matches Read::Value(x, _) && v@ == x,
                Err(e) => slices_v6_at(bytes@) == Read::<
                    (Seq<char>, Seq<Option<DescriptorView>>),
                >::Invalid(e),
            },
    {
        let mut cursor = PsdCursor::new(bytes);
        cursor.read_i32();
        cursor.read_i32();
        cursor.read_i32();
        cursor.read_i32();
        cursor.read_i32();
        let group_of_slices_name = cursor.read_unicode_string_padding(1);
        let number_of_slices = cursor.read_u32();
        let ghost q = cursor.pos();
        let ghost block = slices_block_at(bytes@.subrange(q, bytes@.len() as int));
        let mut blocks: Vec<SlicesResourceBlock> = Vec::new();
        assert(blocks@.map_values(|b: SlicesResourceBlock| b@) =~= Seq::new(
            0,
            |i: int| block->Value_0,
        ));
        let mut n: u32 = 0;
        while n < number_of_slices
            invariant
                n <= number_of_slices,
                cursor.data() == bytes@,
                cursor.pos() == q,
                4 <= q <= bytes@.len(),
                number_of_slices == be32(bytes@, q - 4),
                !(slices_v6_at(bytes@) is Unreadable),
                unicode_at(bytes@, 20, 1) == Read::Value(group_of_slices_name@, q - 4),
                block == slices_block_at(bytes@.subrange(q, bytes@.len() as int)),
                n > 0 ==> block is Value,
                blocks@.map_values(|b: SlicesResourceBlock| b@) == Seq::new(
                    n as nat,
                    |i: int| block->Value_0,
                ),
            decreases number_of_slices - n,
        {
            let rest = vstd::slice::slice_subrange(cursor.get_ref(), cursor.position(), bytes.len());
            assert(rest@ == bytes@.subrange(q, bytes@.len() as int));
            match SlicesResourceBlock::from_bytes(rest) {
                Ok(b) => {
                    let ghost before = blocks@.map_values(|b: SlicesResourceBlock| b@);
                    let ghost bv = b@;
                    blocks.push(b);
                    assert(blocks@.map_values(|b: SlicesResourceBlock| b@) =~= before.push(bv));
                },
                Err(e) => {
                    return Err(e);
                },
            }
            n += 1;
            assert(blocks@.map_values(|b: SlicesResourceBlock| b@) =~= Seq::new(
                n as nat,
                |i: int| block->Value_0,
            ));
        }
        let r = SlicesImageResourceV6 { name: group_of_slices_name, blocks };
        assert(number_of_slices == 0 ==> r@.1 =~= Seq::<Option<DescriptorView>>::empty());
        Ok(r)
    }
}

impl PsdSerialize for SlicesImageResourceV6 {
    open spec fn encoding(&self) -> Seq<u8> {
        slices_encoding(SlicesView::V6(self@.0, self@.1))
    }

    fn write(&self, buffer: &mut PsdBuffer) {
        let ghost start = buffer@;
        buffer.write_u32(6);
        write_zeros(buffer, 16);
        buffer.write_unicode_string(self.name.as_str());
        let count = ((self.blocks.len() as u64) % 0x1_0000_0000) as u32;
        buffer.write_u32(count);
        proof {
            crate::buffer::lemma_be32_mod(self.blocks@.len() as int);
        }
        let ghost head = buffer@;
        let ghost views = self.blocks@.map_values(|b: SlicesResourceBlock| b@);
        let mut i: usize = 0;
        while i < self.blocks.len()
            invariant
                i <= self.blocks@.len(),
                views == self.blocks@.map_values(|b: SlicesResourceBlock| b@),
                buffer@ == head + slices_blocks_encoding(views.take(i as int)),
            decreases self.blocks@.len() - i,
        {
            self.blocks[i].write(buffer);
            assert(views.take(i + 1).drop_last() =~= views.take(i as int));
            i += 1;
        }
        assert(views.take(i as int) =~= views);
        assert(buffer@ =~= start + self.encoding());
    }
}

impl SlicesImageResourceV7_8 {
    /// Slices stored as `descriptor`.
    pub fn new(descriptor: DescriptorStructure) -> (r: SlicesImageResourceV7_8)
        ensures
            r@ == descriptor_view(descriptor),
    {
        SlicesImageResourceV7_8 { descriptor }
    }

    /// Read slices of versions 7 and 8 from the start of `bytes`.
    pub fn from_bytes(bytes: &[u8]) -> (r: Result<SlicesImageResourceV7_8, ImageResourcesDescriptorError>)
        requires
            !(slices_v7_8_at(bytes@) is Unreadable),
        ensures
            match r {
                Ok(v) => slices_v7_8_at(bytes@) matches Read::Value(x, _) && v@ == x,
                Err(e) => slices_v7_8_at(bytes@) == Read::<DescriptorView>::Invalid(e),
            },
    {
        let mut cursor = PsdCursor::new(bytes);
        cursor.read_i32();
        cursor.read_i32();
        match DescriptorStructure::read_descriptor_structure(&mut cursor) {
            Ok(descriptor) => Ok(SlicesImageResourceV7_8 { descriptor }),
            Err(e) => Err(e),
        }
    }
}

impl PsdSerialize for SlicesImageResourceV7_8 {
    open spec fn encoding(&self) -> Seq<u8> {
        slices_encoding(SlicesView::V7_8(self@))
    }

    fn write(&self, buffer: &mut PsdBuffer) {
        let ghost start = buffer@;
        buffer.write_u32(7);
        buffer.write_u32(EXPECTED_DESCRIPTOR_VERSION);
        write_descriptor(buffer, &self.descriptor);
        assert(buffer@ =~= start + self.encoding());
    }
}

/// The descriptors of slices, in order: those of the version 6 slices that
/// have one.
pub open spec fn present_descriptors(v: Seq<Option<DescriptorView>>) -> Seq<DescriptorView>
    decreases v.len(),
{
    if v.len() == 0 {
        Seq::empty()
    } else {
        present_descriptors(v.drop_last()) + match v.last() {
            Some(d) => seq![d],
            None => Seq::empty(),
        }
    }
}

/// The name of a slices resource: that of the group of slices, or that of
/// the descriptor.
pub open spec fn slices_name(v: SlicesView) -> Seq<char> {
    match v {
        SlicesView::V6(name, _) => name,
        SlicesView::V7_8(d) => d.name,
    }
}

/// The descriptors of a slices resource.
pub open spec fn slices_descriptors(v: SlicesView) -> Seq<DescriptorView> {
    match v {
        SlicesView::V6(_, blocks) => present_descriptors(blocks),
        SlicesView::V7_8(d) => seq![d],
    }
}

impl SlicesImageResource {
    /// The name of the slices: that of the group of slices, or that of the
    /// descriptor.
    pub fn name(&self) -> (r: &str)
        ensures
            r@ == slices_name(self@),
    {
        match self {
            SlicesImageResource::V6(format) => format.name.as_str(),
            SlicesImageResource::V7_8(format) => format.descriptor.name.as_str(),
        }
    }

    /// The descriptors of the slices, in order.
    pub fn descriptors(&self) -> (r: Vec<&DescriptorStructure>)
        ensures
            r@.map_values(|d: &DescriptorStructure| descriptor_view(*d)) == slices_descriptors(
                self@,
            ),
    {
        match self {
            SlicesImageResource::V6(format) => {
                let mut out: Vec<&DescriptorStructure> = Vec::new();
                let ghost views = format.blocks@.map_values(|b: SlicesResourceBlock| b@);
                let mut i: usize = 0;
                while i < format.blocks.len()
                    invariant
                        i <= format.blocks@.len(),
                        views == format.blocks@.map_values(|b: SlicesResourceBlock| b@),
                        out@.map_values(|d: &DescriptorStructure| descriptor_view(*d))
                            == present_descriptors(views.take(i as int)),
                    decreases format.blocks@.len() - i,
                {
                    let ghost before = out@.map_values(|d: &DescriptorStructure| descriptor_view(*d));
                    match &format.blocks[i].descriptor {
                        Some(d) => {
                            out.push(d);
                            assert(out@.map_values(|d: &DescriptorStructure| descriptor_view(*d))
                                =~= before + seq![descriptor_view(*d)]);
                        },
                        None => {
                            assert(out@.map_values(|d: &DescriptorStructure| descriptor_view(*d))
                                =~= before + Seq::<DescriptorView>::empty());
                        },
                    }
                    assert(views.take(i + 1).drop_last() =~= views.take(i as int));
                    i += 1;
                }
                assert(views.take(i as int) =~= views);
                out
            },
            SlicesImageResource::V7_8(format) => {
                let out = vec![&format.descriptor];
                assert(out@.map_values(|d: &DescriptorStructure| descriptor_view(*d)) =~= seq![
                    descriptor_view(format.descriptor),
                ]);
                out
            },
        }
    }

    /// Read a slices resource from the start of `bytes`. Its version decides
    /// the layout.
    pub fn from_bytes(bytes: &[u8]) -> (r: Result<SlicesImageResource, ImageResourcesDescriptorError>)
        requires
            !(slices_at(bytes@) is Unreadable),
        ensures
            match r {
                Ok(v) => slices_at(bytes@) matches Read::Value(x, _) && v@ == x,
                Err(e) => slices_at(bytes@) == Read::<SlicesView>::Invalid(e),
            },
    {
        let cursor = PsdCursor::new(bytes);
        let version = cursor.peek_u32();
        if version == 6 {
            match SlicesImageResourceV6::from_bytes(bytes) {
                Ok(v) => Ok(SlicesImageResource::V6(v)),
                Err(e) => Err(e),
            }
        } else {
            match SlicesImageResourceV7_8::from_bytes(bytes) {
                Ok(v) => Ok(SlicesImageResource::V7_8(v)),
                Err(e) => Err(e),
            }
        }
    }
}

impl PsdSerialize for SlicesImageResource {
    open spec fn encoding(&self) -> Seq<u8> {
        slices_encoding(self@)
    }

    fn write(&self, buffer: &mut PsdBuffer) {
        match self {
            SlicesImageResource::V6(format) => format.write(buffer),
            SlicesImageResource::V7_8(format) => format.write(buffer),
        }
    }
}

} // verus!
