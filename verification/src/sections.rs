//! Splitting a PSD file into its major sections.
use vstd::prelude::*;

use crate::cursor::{be32, PsdCursor};
use crate::file_header::{
    bytes_equal, FileHeaderSectionError, EXPECTED_PSD_SIGNATURE, FILE_HEADER_SECTION_LEN,
};

verus! {

/// Where a length-delimited section that starts at `start` ends: its 4-byte
/// length field, then that many bytes.
pub open spec fn section_end(b: Seq<u8>, start: int) -> int {
    start + 4 + be32(b, start)
}

/// Where the image resources section starts: after the header and the color
/// mode data section.
pub open spec fn image_resources_start(b: Seq<u8>) -> int {
    section_end(b, 26)
}

/// Where the layer and mask information section starts.
pub open spec fn layer_and_mask_start(b: Seq<u8>) -> int {
    section_end(b, image_resources_start(b))
}

/// Where the image data section starts.
pub open spec fn image_data_start(b: Seq<u8>) -> int {
    section_end(b, layer_and_mask_start(b))
}

/// The first four bytes of `b` are '8BPS'.
pub open spec fn has_psd_signature(b: Seq<u8>) -> bool {
    b.subrange(0, 4) == seq![56u8, 66, 80, 83]
}

/// The length fields of the color mode data, image resources, and layer and
/// mask sections, and the sections themselves, lie within `b`.
pub open spec fn major_sections_fit(b: Seq<u8>) -> bool {
    &&& 26 + 4 <= b.len()
    &&& image_resources_start(b) + 4 <= b.len()
    &&& layer_and_mask_start(b) + 4 <= b.len()
    &&& image_data_start(b) <= b.len()
}

/// The bytes of each major section.
pub struct MajorSectionsView {
    pub file_header: Seq<u8>,
    pub image_resources: Seq<u8>,
    pub layer_and_mask: Seq<u8>,
    pub image_data: Seq<u8>,
}

/// References to the different major sections of a PSD file
#[derive(Debug)]
pub struct MajorSections<'a> {
    pub(crate) file_header: &'a [u8],
    pub(crate) image_resources: &'a [u8],
    pub(crate) layer_and_mask: &'a [u8],
    pub(crate) image_data: &'a [u8],
}

impl<'a> View for MajorSections<'a> {
    type V = MajorSectionsView;

    closed spec fn view(&self) -> MajorSectionsView {
        MajorSectionsView {
            file_header: self.file_header@,
            image_resources: self.image_resources@,
            layer_and_mask: self.layer_and_mask@,
            image_data: self.image_data@,
        }
    }
}

/// The major sections of `b`: the 26 header bytes; the image resources and
/// the layer and mask sections, each with its length field; and all bytes
/// after them as the image data.
pub open spec fn major_sections_of(b: Seq<u8>) -> MajorSectionsView {
    MajorSectionsView {
        file_header: b.subrange(0, 26),
        image_resources: b.subrange(image_resources_start(b), layer_and_mask_start(b)),
        layer_and_mask: b.subrange(layer_and_mask_start(b), image_data_start(b)),
        image_data: b.subrange(image_data_start(b), b.len() as int),
    }
}

/// The major sections of a file cover it in order: the header is its first
/// 26 bytes; then, after the color mode data section, the image resources,
/// the layer and mask information and the image data sections follow one
/// another, each with its length field, and the last runs to the end.
pub proof fn lemma_major_sections_cover(b: Seq<u8>)
    requires
        major_sections_fit(b),
    ensures
        major_sections_of(b).file_header == b.subrange(0, 26),
        major_sections_of(b).image_resources + major_sections_of(b).layer_and_mask
            + major_sections_of(b).image_data == b.subrange(image_resources_start(b), b.len() as int),
        major_sections_of(b).image_resources.len() == 4 + be32(b, image_resources_start(b)),
        major_sections_of(b).layer_and_mask.len() == 4 + be32(b, layer_and_mask_start(b)),
{
    let m = major_sections_of(b);
    assert(m.image_resources + m.layer_and_mask + m.image_data =~= b.subrange(
        image_resources_start(b),
        b.len() as int,
    ));
}

/// Get the start and end indices of a major section, leaving the cursor at its end.
fn read_major_section_start_end(cursor: &mut PsdCursor) -> (r: (usize, usize))
    requires
        old(cursor).pos() + 4 <= old(cursor).data().len(),
        section_end(old(cursor).data(), old(cursor).pos()) <= old(cursor).data().len(),
    ensures
        final(cursor).data() == old(cursor).data(),
        r.0 == old(cursor).pos(),
        r.1 == section_end(old(cursor).data(), old(cursor).pos()),
        final(cursor).pos() == r.1,
{
    let start = cursor.position();
    let data_len = cursor.read_u32() as usize;
    cursor.read(data_len);
    let end = cursor.position();
    (start, end)
}

impl<'a> MajorSections<'a> {
    /// Given the bytes of a PSD file, return the slices that correspond to
    /// each of its major sections.
    pub fn from_bytes(bytes: &'a [u8]) -> (r: Result<MajorSections<'a>, FileHeaderSectionError>)
        requires
            26 <= bytes@.len() && has_psd_signature(bytes@) ==> major_sections_fit(bytes@),
        ensures
            bytes@.len() < 26 ==> r == Err::<MajorSections, FileHeaderSectionError>(
                FileHeaderSectionError::IncorrectLength { length: bytes@.len() as usize },
            ),
            26 <= bytes@.len() && !has_psd_signature(bytes@) ==> r == Err::<
                MajorSections,
                FileHeaderSectionError,
            >(FileHeaderSectionError::InvalidSignature {  }),
            26 <= bytes@.len() && has_psd_signature(bytes@) ==> (r matches Ok(m) && m@
                == major_sections_of(bytes@)),
    {
        if bytes.len() < FILE_HEADER_SECTION_LEN {
            return Err(FileHeaderSectionError::IncorrectLength { length: bytes.len() });
        }
        let mut cursor = PsdCursor::new(bytes);
        let signature = cursor.peek_n::<4>();
        if !bytes_equal(signature, &EXPECTED_PSD_SIGNATURE) {
            return Err(FileHeaderSectionError::InvalidSignature {  });
        }
        let file_header = &bytes[0..FILE_HEADER_SECTION_LEN];
        cursor.read(FILE_HEADER_SECTION_LEN);
        let (_color_start, _color_end) = read_major_section_start_end(&mut cursor);
        let (img_res_start, img_res_end) = read_major_section_start_end(&mut cursor);
        let (layer_mask_start, layer_mask_end) = read_major_section_start_end(&mut cursor);
        let image_data = &bytes[cursor.position()..bytes.len()];
        Ok(
            MajorSections {
                file_header,
                image_resources: &bytes[img_res_start..img_res_end],
                layer_and_mask: &bytes[layer_mask_start..layer_mask_end],
                image_data,
            },
        )
    }
}

impl<'a> MajorSections<'a> {
    /// The bytes of the file header section.
    pub fn file_header(&self) -> (r: &'a [u8])
        ensures
            r@ == self@.file_header,
    {
        self.file_header
    }

    /// The bytes of the image resources section, with its length field.
    pub fn image_resources(&self) -> (r: &'a [u8])
        ensures
            r@ == self@.image_resources,
    {
        self.image_resources
    }

    /// The bytes of the layer and mask information section, with its length
    /// field.
    pub fn layer_and_mask(&self) -> (r: &'a [u8])
        ensures
            r@ == self@.layer_and_mask,
    {
        self.layer_and_mask
    }

    /// The bytes of the image data section.
    pub fn image_data(&self) -> (r: &'a [u8])
        ensures
            r@ == self@.image_data,
    {
        self.image_data
    }
}

} // verus!
