//! Data structures and methods for working with PSD files, with their
//! parsing rules stated as contracts over the bytes of the file.
pub mod cursor;
pub mod text;
pub mod rle;
pub mod compression;
pub mod channel;
pub mod file_header;
pub mod sections;
pub mod image_data;
pub mod layer;
pub mod layer_records;
pub mod containers;
pub mod layer_section;
pub mod buffer;
pub mod color_mode_data;
pub mod descriptor;
pub mod descriptor_read;
pub mod round_trip;
pub mod slices;
pub mod image_resources;
pub mod psd;
pub mod render;
pub mod i_to_usize;

pub use crate::channel::{PsdChannelCompression, PsdChannelKind};
pub use crate::descriptor::{DescriptorField, UnitFloatStructure};
pub use crate::file_header::{ColorMode, PsdDepth};
pub use crate::image_resources::ImageResource;
pub use crate::layer::{PsdGroup, PsdLayer};
pub use crate::psd::{Psd, PsdError};
