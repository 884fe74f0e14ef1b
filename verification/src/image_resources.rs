//! The image resources section: resource blocks, of which the slices
//! resource is read and the others are skipped.
use vstd::prelude::*;

use crate::buffer::{be32_bytes, pascal_encoding, PsdBuffer, PsdSerialize};
use crate::cursor::{be16, be32, pad_len, pascal_string_end, signed16, PsdCursor};
use crate::descriptor::ImageResourcesDescriptorError;
use crate::descriptor_read::{fits, Read};
use crate::slices::{slices_at, slices_encoding, SlicesImageResource, SlicesView};

verus! {

/// The signature that starts each resource block: '8BIM'.
pub const EXPECTED_RESOURCE_BLOCK_SIGNATURE: u32 = 0x3842_494d;

/// The id of the slices resource.
pub const RESOURCE_SLICES_INFO: i16 = 1050;

/// A malformed resource block.
#[derive(Debug, PartialEq, Eq, Structural)]
pub enum ImageResourcesSectionError {
    /// A block does not start with '8BIM'.
    InvalidSignature {},
    /// A resource's descriptor is malformed.
    InvalidResource(ImageResourcesDescriptorError),
}

/// An id that no resource of this library has.
#[derive(Debug, PartialEq, Eq, Structural)]
pub enum ImageResourceIdError {
    InvalidResourceId(i16),
}

/// An image resource as a mathematical value.
pub enum ResourceView {
    Slices(SlicesView),
}

/// An image resource from the image resources section
#[derive(Debug)]
pub enum ImageResource {
    Slices(SlicesImageResource),
}

impl View for ImageResource {
    type V = ResourceView;

    open spec fn view(&self) -> ResourceView {
        match self {
            ImageResource::Slices(s) => ResourceView::Slices(s@),
        }
    }
}

/// The ids of the resources that this library reads.
#[derive(Debug)]
pub enum ImageResourceId {
    Slices,
}

impl ImageResourceId {
    /// The id as a number.
    pub open spec fn value(self) -> i16 {
        match self {
            ImageResourceId::Slices => RESOURCE_SLICES_INFO,
        }
    }

    /// The id's two big-endian bytes.
    pub fn into_bytes(self) -> (r: [u8; 2])
        ensures
            r@ == seq![4u8, 26u8],
            be16(r@, 0) == self.value(),
    {
        match self {
            ImageResourceId::Slices => [4u8, 26u8],
        }
    }

    /// The resource id that `value` stands for.
    pub fn try_from(value: i16) -> (r: Result<ImageResourceId, ImageResourceIdError>)
        ensures
            match r {
                Ok(id) => id.value() == value,
                Err(e) => value != RESOURCE_SLICES_INFO && e == ImageResourceIdError::InvalidResourceId(
                    value,
                ),
            },
    {
        if value == RESOURCE_SLICES_INFO {
            Ok(ImageResourceId::Slices)
        } else {
            Err(ImageResourceIdError::InvalidResourceId(value))
        }
    }

    /// The id of a resource.
    pub fn from(value: &ImageResource) -> (r: ImageResourceId)
        ensures
            value is Slices ==> r is Slices,
    {
        match value {
            ImageResource::Slices(_) => ImageResourceId::Slices,
        }
    }
}

/// The bytes that `inner` is written as once padded to an even size.
pub open spec fn padded_even(inner: Seq<u8>) -> Seq<u8> {
    inner + Seq::new(pad_len(inner.len() as int, 2) as nat, |i: int| 0u8)
}

/// A resource as written: '8BIM', its id, an empty name (two zero bytes),
/// then its data, padded to even size, after its length.
pub open spec fn resource_encoding(r: ResourceView) -> Seq<u8> {
    match r {
        ResourceView::Slices(s) => be32_bytes(EXPECTED_RESOURCE_BLOCK_SIGNATURE as int) + seq![
            4u8,
            26u8,
        ] + pascal_encoding(Seq::empty()) + be32_bytes(padded_even(slices_encoding(s)).len() as int)
            + padded_even(slices_encoding(s)),
    }
}

/// Resources as written, one after the other.
pub open spec fn resources_encoding(v: Seq<ResourceView>) -> Seq<u8>
    decreases v.len(),
{
    if v.len() == 0 {
        Seq::empty()
    } else {
        resources_encoding(v.drop_last()) + resource_encoding(v.last())
    }
}

/// The image resources section as written: its length, then the resources.
pub open spec fn section_encoding(v: Seq<ResourceView>) -> Seq<u8> {
    be32_bytes(resources_encoding(v).len() as int) + resources_encoding(v)
}

impl PsdSerialize for ImageResource {
    open spec fn encoding(&self) -> Seq<u8> {
        resource_encoding(self@)
    }

    fn write(&self, buffer: &mut PsdBuffer) {
        let ghost start = buffer@;
        buffer.write_u32(EXPECTED_RESOURCE_BLOCK_SIGNATURE);
        let id = ImageResourceId::from(self);
        let id_bytes = id.into_bytes();
        buffer.write(&id_bytes);
        buffer.write_pascal_string("");
        proof {
            reveal_strlit("");
        }
        assert(""@ =~= Seq::<char>::empty());
        assert(vstd::utf8::encode_utf8(Seq::<char>::empty()) =~= Seq::<u8>::empty());
        match self {
            ImageResource::Slices(slices) => {
                let ghost head = buffer@;
                let sized = buffer.begin_sized();
                let inner = buffer.len();
                slices.write(buffer);
                buffer.pad_from(inner, 2);
                assert(buffer@ =~= head + seq![0u8, 0, 0, 0] + padded_even(slices.encoding()));
                buffer.end_sized(sized);
                assert(buffer@ =~= head + be32_bytes(padded_even(slices.encoding()).len() as int)
                    + padded_even(slices.encoding()));
            },
        }
        assert(buffer@ =~= start + resource_encoding(self@));
    }
}

/// A resource block at `p`: '8BIM', a 2-byte id, a Pascal-string name, a
/// 4-byte data length, then the data, padded to even size. Gives the id and
/// where the data starts and ends; `None` where the bytes end too soon or the
/// length's padding overflows 32 bits.
pub open spec fn block_at(s: Seq<u8>, p: int) -> Option<
    Result<(int, int, int), ImageResourcesSectionError>,
> {
    if !fits(s, p, 4) {
        None
    } else if be32(s, p) != EXPECTED_RESOURCE_BLOCK_SIGNATURE {
        Some(Err(ImageResourcesSectionError::InvalidSignature {  }))
    } else if !fits(s, p + 4, 3) || pascal_string_end(s, p + 6) > s.len() {
        None
    } else {
        let q = pascal_string_end(s, p + 6);
        if !fits(s, q, 4) {
            None
        } else {
            let n = be32(s, q);
            let padded = n + n % 2;
            if padded > u32::MAX || !fits(s, q + 4, padded) {
                None
            } else {
                Some(Ok((signed16(be16(s, p + 4)), q + 4, q + 4 + padded)))
            }
        }
    }
}

/// The resources of the blocks from `p` on, after those in `acc`, while `p`
/// is below `length`; the blocks must end at `length + 4`. Only slices
/// resources are kept.
pub open spec fn blocks_at(s: Seq<u8>, p: int, length: int, acc: Seq<ResourceView>) -> Option<
    Result<Seq<ResourceView>, ImageResourcesSectionError>,
>
    decreases s.len() - p,
{
    if p >= length {
        if p == length + 4 {
            Some(Ok(acc))
        } else {
            None
        }
    } else {
        match block_at(s, p) {
            None => None,
            Some(Err(e)) => Some(Err(e)),
            Some(Ok((id, a, b))) => if !(p < b <= s.len()) {
                None
            } else if id == RESOURCE_SLICES_INFO {
                match slices_at(s.subrange(a, b)) {
                    Read::Value(v, _) => blocks_at(s, b, length, acc.push(ResourceView::Slices(v))),
                    Read::Invalid(x) => Some(Err(ImageResourcesSectionError::InvalidResource(x))),
                    Read::Unreadable => None,
                }
            } else {
                blocks_at(s, b, length, acc)
            },
        }
    }
}

/// The image resources section: a 4-byte length, then resource blocks.
/// `None` where reading it would not finish.
pub open spec fn image_resources_from_bytes(s: Seq<u8>) -> Option<
    Result<Seq<ResourceView>, ImageResourcesSectionError>,
> {
    if !fits(s, 0, 4) {
        None
    } else {
        blocks_at(s, 4, be32(s, 0), Seq::empty())
    }
}

/// A resource block: its id, its name, and where its data lies.
struct ImageResourcesBlock {
    resource_id: i16,
    name: String,
    data_start: usize,
    data_end: usize,
}

/// The image resources of a PSD file.
#[derive(Debug)]
pub struct ImageResourcesSection {
    resources: Vec<ImageResource>,
}

impl View for ImageResourcesSection {
    type V = Seq<ResourceView>;

    closed spec fn view(&self) -> Seq<ResourceView> {
        self.resources@.map_values(|r: ImageResource| r@)
    }
}

impl ImageResourcesSection {
    /// Read a resource block: '8BIM', its id, its name, then its data (padded
    /// to even size) after its length.
    fn read_resource_block(cursor: &mut PsdCursor) -> (r: Result<
        ImageResourcesBlock,
        ImageResourcesSectionError,
    >)
        requires
            block_at(old(cursor).data(), old(cursor).pos()) is Some,
        ensures
            final(cursor).data() == old(cursor).data(),
            match r {
                Ok(b) => block_at(old(cursor).data(), old(cursor).pos()) == Some(
                    Ok::<(int, int, int), ImageResourcesSectionError>(
                        (b.resource_id as int, b.data_start as int, b.data_end as int),
                    ),
                ) && final(cursor).pos() == b.data_end,
                Err(e) => block_at(old(cursor).data(), old(cursor).pos()) == Some(
                    Err::<(int, int, int), ImageResourcesSectionError>(e),
                ),
            },
    {
        let signature = cursor.read_u32();
        if signature != EXPECTED_RESOURCE_BLOCK_SIGNATURE {
            return Err(ImageResourcesSectionError::InvalidSignature {  });
        }
        let resource_id = cursor.read_i16();
        let name = cursor.read_pascal_string();
        let data_len = cursor.read_u32();
        let pos = cursor.position();
        let data_len = data_len + data_len % 2;
        let data_start = pos;
        cursor.read(data_len as usize);
        let data_end = cursor.position();
        Ok(ImageResourcesBlock { resource_id, name, data_start, data_end })
    }

    /// Read the image resources section: its length, then its resource
    /// blocks, of which the slices resources are kept.
    pub fn from_bytes(bytes: &[u8]) -> (r: Result<ImageResourcesSection, ImageResourcesSectionError>)
        requires
            image_resources_from_bytes(bytes@) is Some,
        ensures
            match r {
                Ok(section) => image_resources_from_bytes(bytes@) == Some(
                    Ok::<Seq<ResourceView>, ImageResourcesSectionError>(section@),
                ),
                Err(e) => image_resources_from_bytes(bytes@) == Some(
                    Err::<Seq<ResourceView>, ImageResourcesSectionError>(e),
                ),
            },
    {
        let mut cursor = PsdCursor::new(bytes);
        let mut resources: Vec<ImageResource> = Vec::new();
        let length = cursor.read_u32() as u64;
        let ghost whole = image_resources_from_bytes(bytes@);
        assert(resources@.map_values(|r: ImageResource| r@) =~= Seq::<ResourceView>::empty());
        while (cursor.position() as u64) < length
            invariant
                cursor.data() == bytes@,
                length == be32(bytes@, 0),
                4 <= cursor.pos() <= bytes@.len(),
                whole == image_resources_from_bytes(bytes@),
                whole is Some,
                whole == blocks_at(
                    bytes@,
                    cursor.pos(),
                    length as int,
                    resources@.map_values(|r: ImageResource| r@),
                ),
            decreases bytes@.len() - cursor.pos(),
        {
            let ghost p = cursor.pos();
            let block = match ImageResourcesSection::read_resource_block(&mut cursor) {
                Ok(b) => b,
                Err(e) => {
                    return Err(e);
                },
            };
            if block.resource_id == RESOURCE_SLICES_INFO {
                let data = vstd::slice::slice_subrange(bytes, block.data_start, block.data_end);
                match SlicesImageResource::from_bytes(data) {
                    Ok(slices) => {
                        let ghost before = resources@.map_values(|r: ImageResource| r@);
                        let resource = ImageResource::Slices(slices);
                        let ghost rv = resource@;
                        resources.push(resource);
                        assert(resources@.map_values(|r: ImageResource| r@) =~= before.push(rv));
                    },
                    Err(e) => {
                        return Err(ImageResourcesSectionError::InvalidResource(e));
                    },
                }
            }
        }
        Ok(ImageResourcesSection { resources })
    }

    /// A section that holds `resources`.
    pub fn new(resources: Vec<ImageResource>) -> (r: ImageResourcesSection)
        ensures
            r@ == resources@.map_values(|x: ImageResource| x@),
    {
        ImageResourcesSection { resources }
    }

    /// The resources that were read.
    pub fn resources(&self) -> (r: &Vec<ImageResource>)
        ensures
            r@.map_values(|x: ImageResource| x@) == self@,
    {
        &self.resources
    }
}

impl PsdSerialize for ImageResourcesSection {
    open spec fn encoding(&self) -> Seq<u8> {
        section_encoding(self@)
    }

    fn write(&self, buffer: &mut PsdBuffer) {
        let ghost start = buffer@;
        let sized = buffer.begin_sized();
        let ghost head = buffer@;
        let ghost views = self@;
        let mut i: usize = 0;
        while i < self.resources.len()
            invariant
                i <= self.resources@.len(),
                views == self@,
                views.len() == self.resources@.len(),
                head == start + seq![0u8, 0, 0, 0],
                sized == start.len(),
                buffer@ == head + resources_encoding(views.take(i as int)),
            decreases self.resources@.len() - i,
        {
            self.resources[i].write(buffer);
            assert(views.take(i + 1).drop_last() =~= views.take(i as int));
            i += 1;
        }
        assert(views.take(i as int) =~= views);
        buffer.end_sized(sized);
        assert(buffer@ =~= start + section_encoding(self@));
    }
}

} // verus!
