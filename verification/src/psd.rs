//! A whole PSD file: its header, image resources, layers and groups, and
//! final image.
use vstd::prelude::*;

use std::collections::HashMap;

use crate::channel::{
    rgba_image, rgba_ok, generate_rgba, rgba_fits_check, ChannelBytes, ChannelData, IntoRgba, PsdChannelCompression,
};
use crate::containers::{first_named, layer_views, lemma_first_named_in_range};
use crate::file_header::{
    file_header_from_bytes, ColorMode, FileHeaderSection, FileHeaderSectionError, FileHeaderView,
    PsdDepth,
};
use crate::image_data::{
    image_data_from_bytes, image_data_ok, ImageDataSection, ImageDataSectionError, ImageDataView,
};
use crate::image_resources::{
    image_resources_from_bytes, ImageResource, ImageResourcesSection, ImageResourcesSectionError,
    ResourceView,
};
use crate::layer::{PsdGroup, PsdLayer, PsdLayerError};
use crate::layer_section::{
    group_order_ok, groups_within, layer_section_from_bytes, lemma_group_order,
    lemma_groups_within_layers,
    LayerAndMaskInformationSection, LayerSectionView,
};
use crate::sections::{
    has_psd_signature, major_sections_fit, major_sections_of, MajorSections, MajorSectionsView,
};

verus! {

/// An list of errors returned when processing PSD file.
#[derive(Debug, PartialEq, Eq)]
#[non_exhaustive]
pub enum PsdError {
    /// Failed to parse PSD header
    HeaderError(FileHeaderSectionError),
    /// Failed to parse PSD layer
    LayerError(PsdLayerError),
    /// Failed to parse PSD data section
    ImageError(ImageDataSectionError),
    /// Failed to parse PSD resource section
    ResourceError(ImageResourcesSectionError),
}

/// A PSD file as a mathematical value.
pub struct PsdView {
    pub header: FileHeaderView,
    pub resources: Seq<ResourceView>,
    pub layers: LayerSectionView,
    pub image: ImageDataView,
}

/// What the bytes of a PSD file hold, or the first error; `None` where
/// reading them would not finish. The sections are read in turn: the major
/// sections, the header, the layers, the image data, then the resources.
pub open spec fn psd_from_bytes(b: Seq<u8>) -> Option<Result<PsdView, PsdError>> {
    if b.len() < 26 {
        Some(
            Err(
                PsdError::HeaderError(
                    FileHeaderSectionError::IncorrectLength { length: b.len() as usize },
                ),
            ),
        )
    } else if !has_psd_signature(b) {
        Some(Err(PsdError::HeaderError(FileHeaderSectionError::InvalidSignature {  })))
    } else if !major_sections_fit(b) {
        None
    } else {
        let m = major_sections_of(b);
        match file_header_from_bytes(m.file_header) {
            Err(e) => Some(Err(PsdError::HeaderError(e))),
            Ok(h) => psd_parts(m, h),
        }
    }
}

/// What the layer and mask, image data and image resources sections hold,
/// given the header; or the first error, in that order.
pub open spec fn psd_parts(m: MajorSectionsView, h: FileHeaderView) -> Option<Result<PsdView, PsdError>> {
    match layer_section_from_bytes(m.layer_and_mask, h.width, h.height) {
        None => None,
        Some(Err(e)) => Some(Err(PsdError::LayerError(e))),
        Some(Ok(l)) => if !image_data_ok(m.image_data, h.width, h.height, h.channel_count) {
            None
        } else {
            match image_data_from_bytes(m.image_data, h.width, h.height, h.channel_count) {
                Err(e) => Some(Err(PsdError::ImageError(e))),
                Ok(i) => match image_resources_from_bytes(m.image_resources) {
                    None => None,
                    Some(Err(e)) => Some(Err(PsdError::ResourceError(e))),
                    Some(Ok(r)) => Some(Ok(PsdView { header: h, resources: r, layers: l, image: i })),
                },
            }
        },
    }
}

/// Represents the contents of a PSD file
#[derive(Debug)]
pub struct Psd {
    file_header_section: FileHeaderSection,
    image_resources_section: ImageResourcesSection,
    layer_and_mask_information_section: LayerAndMaskInformationSection,
    image_data_section: ImageDataSection,
}

impl View for Psd {
    type V = PsdView;

    closed spec fn view(&self) -> PsdView {
        PsdView {
            header: self.file_header_section@,
            resources: self.image_resources_section@,
            layers: self.layer_and_mask_information_section@,
            image: self.image_data_section@,
        }
    }
}

impl Psd {
    /// Each group holds a run of the layers, and is listed once in the
    /// order of the groups.
    #[verifier::type_invariant]
    closed spec fn groups_ok(self) -> bool {
        &&& groups_within(self.layer_and_mask_information_section@)
        &&& group_order_ok(self.layer_and_mask_information_section@)
    }

    /// Create a Psd from a byte slice.
    pub fn from_bytes(bytes: &[u8]) -> (r: Result<Psd, PsdError>)
        requires
            psd_from_bytes(bytes@) is Some,
        ensures
            psd_from_bytes(bytes@) == Some(
                match r {
                    Ok(psd) => Ok::<PsdView, PsdError>(psd@),
                    Err(e) => Err(e),
                },
            ),
            r matches Ok(psd) ==> groups_within(psd@.layers) && group_order_ok(psd@.layers),
    {
        let major_sections = match MajorSections::from_bytes(bytes) {
            Ok(m) => m,
            Err(e) => {
                return Err(PsdError::HeaderError(e));
            },
        };
        let file_header_section = match FileHeaderSection::from_bytes(major_sections.file_header()) {
            Ok(h) => h,
            Err(e) => {
                return Err(PsdError::HeaderError(e));
            },
        };
        let r = Self::from_sections(&major_sections, file_header_section);
        proof {
            if let Ok(psd) = &r {
                use_type_invariant(psd);
            }
        }
        r
    }

    /// Read the layer and mask, image data and image resources sections,
    /// given the header.
    fn from_sections(major_sections: &MajorSections, file_header_section: FileHeaderSection) -> (r:
        Result<Psd, PsdError>)
        requires
            psd_parts(major_sections@, file_header_section@) is Some,
        ensures
            psd_parts(major_sections@, file_header_section@) == Some(
                match r {
                    Ok(psd) => Ok::<PsdView, PsdError>(psd@),
                    Err(e) => Err(e),
                },
            ),
    {
        let psd_width = file_header_section.width();
        let psd_height = file_header_section.height();
        let channel_count = file_header_section.channel_count();
        let layer_and_mask_information_section = match LayerAndMaskInformationSection::from_bytes(
            major_sections.layer_and_mask(),
            psd_width,
            psd_height,
        ) {
            Ok(l) => l,
            Err(e) => {
                return Err(PsdError::LayerError(e));
            },
        };
        let image_data_section = match ImageDataSection::from_bytes(
            major_sections.image_data(),
            psd_width,
            psd_height,
            channel_count,
        ) {
            Ok(i) => i,
            Err(e) => {
                return Err(PsdError::ImageError(e));
            },
        };
        let image_resources_section = match ImageResourcesSection::from_bytes(
            major_sections.image_resources(),
        ) {
            Ok(r) => r,
            Err(e) => {
                return Err(PsdError::ResourceError(e));
            },
        };
        proof {
            lemma_groups_within_layers(major_sections@.layer_and_mask, psd_width, psd_height);
            lemma_group_order(major_sections@.layer_and_mask, psd_width, psd_height);
        }
        Ok(
            Psd {
                file_header_section,
                image_resources_section,
                layer_and_mask_information_section,
                image_data_section,
            },
        )
    }

    /// The width of the PSD file
    pub fn width(&self) -> (r: u32)
        ensures
            r == self@.header.width,
    {
        self.file_header_section.width()
    }

    /// The height of the PSD file
    pub fn height(&self) -> (r: u32)
        ensures
            r == self@.header.height,
    {
        self.file_header_section.height()
    }

    /// The number of bits per channel
    pub fn depth(&self) -> (r: PsdDepth)
        ensures
            r == self@.header.depth,
    {
        self.file_header_section.depth()
    }

    /// The color mode of the file
    pub fn color_mode(&self) -> (r: ColorMode)
        ensures
            r == self@.header.color_mode,
    {
        self.file_header_section.color_mode()
    }

    /// Get all of the layers in the PSD, from the bottom one up.
    pub fn layers(&self) -> (r: &Vec<PsdLayer>)
        ensures
            layer_views(r@) == self@.layers.layers,
    {
        self.layer_and_mask_information_section.layers().as_vec()
    }

    /// Get a layer by name: of the layers with that name, the bottom one.
    pub fn layer_by_name(&self, name: &str) -> (r: Option<&PsdLayer>)
        ensures
            match first_named(self@.layers.names, name@) {
                Some(i) => i < self@.layers.layers.len() && (r matches Some(l) && l@
                    == self@.layers.layers[i]),
                None => r is None,
            },
    {
        let layers = self.layer_and_mask_information_section.layers();
        let r = layers.first_by_name(name);
        proof {
            lemma_first_named_in_range(self@.layers.names, name@);
            if let Some(i) = first_named(self@.layers.names, name@) {
                assert(layer_views(layers.layers_view())[i] == layers.layers_view()[i]@);
            }
        }
        r
    }

    /// Get a layer by index: index 0 is the bottom layer, index 1 is the
    /// layer above that, etc.
    pub fn layer_by_idx(&self, idx: usize) -> (r: &PsdLayer)
        requires
            idx < self@.layers.layers.len(),
        ensures
            r@ == self@.layers.layers[idx as int],
    {
        let layers = self.layer_and_mask_information_section.layers().as_vec();
        &layers[idx]
    }

    /// Get all of the groups in the PSD, by id.
    pub fn groups(&self) -> (r: &HashMap<u32, PsdGroup>)
        ensures
            r@.map_values(|g: PsdGroup| g@) == self@.layers.groups,
    {
        self.layer_and_mask_information_section.groups().as_map()
    }

    /// Get the group ID's in the order that they appear in Photoshop (from
    /// the bottom of the layers view to the top): by where each group's run
    /// of layers begins, from the bottom up, an outer group before a group
    /// nested in it.
    pub fn group_ids_in_order(&self) -> (r: &Vec<u32>)
        ensures
            r@ == self@.layers.group_order,
    {
        self.layer_and_mask_information_section.groups().group_ids_in_order()
    }

    /// Returns the layers of the group with id `id`, if there is one.
    pub fn get_group_sub_layers(&self, id: &u32) -> (r: Option<&[PsdLayer]>)
        ensures
            self@.layers.groups.contains_key(*id) ==> (r matches Some(s) && layer_views(s@)
                == self@.layers.layers.subrange(
                self@.layers.groups[*id].contained_start as int,
                self@.layers.groups[*id].contained_end as int,
            )),
            !self@.layers.groups.contains_key(*id) ==> r is None,
    {
        proof {
            use_type_invariant(self);
        }
        match self.layer_and_mask_information_section.groups().get(*id) {
            Some(group) => {
                let (start, end) = group.contained_layers();
                let layers = self.layer_and_mask_information_section.layers().as_vec();
                let s = vstd::slice::slice_subrange(layers.as_slice(), start, end);
                assert(layer_views(s@) =~= layer_views(layers@).subrange(start as int, end as int));
                Some(s)
            },
            None => None,
        }
    }

    /// Get the RGBA pixels for the PSD: [R, G, B, A, R, G, B, A, ...].
    pub fn rgba(&self) -> (r: Vec<u8>)
        requires
            rgba_ok(self),
        ensures
            r@ == rgba_image(self),
    {
        generate_rgba(self)
    }

    /// Whether the RGBA pixels of the PSD's final image can be generated.
    pub fn rgba_fits(&self) -> (r: bool)
        ensures
            r == rgba_ok(self),
    {
        rgba_fits_check(self)
    }

    /// Get the compression of the flattened image data
    pub fn compression(&self) -> (r: &PsdChannelCompression)
        ensures
            *r == self@.image.compression,
    {
        self.image_data_section.compression()
    }

    /// Resources from the image resources section of the PSD file
    pub fn resources(&self) -> (r: &Vec<ImageResource>)
        ensures
            r@.map_values(|x: ImageResource| x@) == self@.resources,
    {
        self.image_resources_section.resources()
    }
}

impl IntoRgba for Psd {
    open spec fn pixel_index(&self, idx: int) -> Option<usize> {
        if 0 <= idx <= usize::MAX {
            Some(idx as usize)
        } else {
            None
        }
    }

    open spec fn placement_ok(&self) -> bool {
        true
    }

    open spec fn spec_red(&self) -> ChannelData {
        self@.image.red
    }

    open spec fn spec_green(&self) -> Option<ChannelData> {
        if self@.header.color_mode == ColorMode::Grayscale {
            None
        } else {
            self@.image.green
        }
    }

    open spec fn spec_blue(&self) -> Option<ChannelData> {
        self@.image.blue
    }

    open spec fn spec_alpha(&self) -> Option<ChannelData> {
        self@.image.alpha
    }

    open spec fn spec_psd_width(&self) -> u32 {
        self@.header.width
    }

    open spec fn spec_psd_height(&self) -> u32 {
        self@.header.height
    }

    /// The PSD's final image is always the same size as the PSD, so an index
    /// stays as it is.
    fn rgba_idx(&self, idx: usize) -> (r: Option<usize>) {
        Some(idx)
    }

    fn red(&self) -> (r: &ChannelBytes) {
        self.image_data_section.red()
    }

    /// For 16 bit grayscale images a second channel is sometimes seen; what
    /// it holds is not known, so it is not read as green.
    fn green(&self) -> (r: Option<&ChannelBytes>) {
        match self.color_mode() {
            ColorMode::Grayscale => None,
            _ => self.image_data_section.green(),
        }
    }

    fn blue(&self) -> (r: Option<&ChannelBytes>) {
        self.image_data_section.blue()
    }

    fn alpha(&self) -> (r: Option<&ChannelBytes>) {
        self.image_data_section.alpha()
    }

    fn psd_width(&self) -> (r: u32) {
        self.width()
    }

    fn psd_height(&self) -> (r: u32) {
        self.height()
    }
}

} // verus!
