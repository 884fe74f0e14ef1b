//! Layers and groups of layers, and the layer records they are read from.
use vstd::prelude::*;

use core::ops::Range;

use crate::channel::{
    ChannelBytes, ChannelData, IntoRgba, PsdChannelCompression, PsdChannelKind, rgba_image, rgba_ok,
    generate_rgba, rgba_fits_check,
};

verus! {

/// How a layer's pixels combine with the pixels below it.
#[derive(Debug, PartialEq, Eq, Structural, Clone, Copy)]
pub enum BlendMode {
    PassThrough,
    Normal,
    Dissolve,
    Darken,
    Multiply,
    ColorBurn,
    LinearBurn,
    DarkerColor,
    Lighten,
    Screen,
    ColorDodge,
    LinearDodge,
    LighterColor,
    Overlay,
    SoftLight,
    HardLight,
    VividLight,
    LinearLight,
    PinLight,
    HardMix,
    Difference,
    Exclusion,
    Subtract,
    Divide,
    Hue,
    Saturation,
    Color,
    Luminosity,
}

/// The four bytes `k` spell out `a`, `b`, `c`, `d`.
pub open spec fn key_is(k: Seq<u8>, a: char, b: char, c: char, d: char) -> bool {
    k.len() == 4 && k[0] == a as u8 && k[1] == b as u8 && k[2] == c as u8 && k[3] == d as u8
}

/// The blend mode that a blend mode key stands for.
pub open spec fn blend_mode_from_key(k: Seq<u8>) -> Option<BlendMode> {
    if key_is(k, 'p', 'a', 's', 's') {
        Some(BlendMode::PassThrough)
    } else if key_is(k, 'n', 'o', 'r', 'm') {
        Some(BlendMode::Normal)
    } else if key_is(k, 'd', 'i', 's', 's') {
        Some(BlendMode::Dissolve)
    } else if key_is(k, 'd', 'a', 'r', 'k') {
        Some(BlendMode::Darken)
    } else if key_is(k, 'm', 'u', 'l', ' ') {
        Some(BlendMode::Multiply)
    } else if key_is(k, 'i', 'd', 'i', 'v') {
        Some(BlendMode::ColorBurn)
    } else if key_is(k, 'l', 'b', 'r', 'n') {
        Some(BlendMode::LinearBurn)
    } else if key_is(k, 'd', 'k', 'C', 'l') {
        Some(BlendMode::DarkerColor)
    } else if key_is(k, 'l', 'i', 't', 'e') {
        Some(BlendMode::Lighten)
    } else if key_is(k, 's', 'c', 'r', 'n') {
        Some(BlendMode::Screen)
    } else if key_is(k, 'd', 'i', 'v', ' ') {
        Some(BlendMode::ColorDodge)
    } else if key_is(k, 'l', 'd', 'd', 'g') {
        Some(BlendMode::LinearDodge)
    } else if key_is(k, 'l', 'g', 'C', 'l') {
        Some(BlendMode::LighterColor)
    } else if key_is(k, 'o', 'v', 'e', 'r') {
        Some(BlendMode::Overlay)
    } else if key_is(k, 's', 'L', 'i', 't') {
        Some(BlendMode::SoftLight)
    } else if key_is(k, 'h', 'L', 'i', 't') {
        Some(BlendMode::HardLight)
    } else if key_is(k, 'v', 'L', 'i', 't') {
        Some(BlendMode::VividLight)
    } else if key_is(k, 'l', 'L', 'i', 't') {
        Some(BlendMode::LinearLight)
    } else if key_is(k, 'p', 'L', 'i', 't') {
        Some(BlendMode::PinLight)
    } else if key_is(k, 'h', 'M', 'i', 'x') {
        Some(BlendMode::HardMix)
    } else if key_is(k, 'd', 'i', 'f', 'f') {
        Some(BlendMode::Difference)
    } else if key_is(k, 's', 'm', 'u', 'd') {
        Some(BlendMode::Exclusion)
    } else if key_is(k, 'f', 's', 'u', 'b') {
        Some(BlendMode::Subtract)
    } else if key_is(k, 'f', 'd', 'i', 'v') {
        Some(BlendMode::Divide)
    } else if key_is(k, 'h', 'u', 'e', ' ') {
        Some(BlendMode::Hue)
    } else if key_is(k, 's', 'a', 't', ' ') {
        Some(BlendMode::Saturation)
    } else if key_is(k, 'c', 'o', 'l', 'r') {
        Some(BlendMode::Color)
    } else if key_is(k, 'l', 'u', 'm', ' ') {
        Some(BlendMode::Luminosity)
    } else {
        None
    }
}

/// Whether the four bytes of `k` spell out `a`, `b`, `c`, `d`.
fn key_matches(k: &[u8], a: u8, b: u8, c: u8, d: u8) -> (r: bool)
    requires
        k@.len() == 4,
    ensures
        r == (k@[0] == a && k@[1] == b && k@[2] == c && k@[3] == d),
{
    k[0] == a && k[1] == b && k[2] == c && k[3] == d
}

impl BlendMode {
    /// The blend mode that the four bytes of `key` stand for.
    pub fn match_mode(key: &[u8]) -> (r: Option<BlendMode>)
        requires
            key@.len() == 4,
        ensures
            r == blend_mode_from_key(key@),
    {
        if key_matches(key, 112, 97, 115, 115) {
            Some(BlendMode::PassThrough)
        } else if key_matches(key, 110, 111, 114, 109) {
            Some(BlendMode::Normal)
        } else if key_matches(key, 100, 105, 115, 115) {
            Some(BlendMode::Dissolve)
        } else if key_matches(key, 100, 97, 114, 107) {
            Some(BlendMode::Darken)
        } else if key_matches(key, 109, 117, 108, 32) {
            Some(BlendMode::Multiply)
        } else if key_matches(key, 105, 100, 105, 118) {
            Some(BlendMode::ColorBurn)
        } else if key_matches(key, 108, 98, 114, 110) {
            Some(BlendMode::LinearBurn)
        } else if key_matches(key, 100, 107, 67, 108) {
            Some(BlendMode::DarkerColor)
        } else if key_matches(key, 108, 105, 116, 101) {
            Some(BlendMode::Lighten)
        } else if key_matches(key, 115, 99, 114, 110) {
            Some(BlendMode::Screen)
        } else if key_matches(key, 100, 105, 118, 32) {
            Some(BlendMode::ColorDodge)
        } else if key_matches(key, 108, 100, 100, 103) {
            Some(BlendMode::LinearDodge)
        } else if key_matches(key, 108, 103, 67, 108) {
            Some(BlendMode::LighterColor)
        } else if key_matches(key, 111, 118, 101, 114) {
            Some(BlendMode::Overlay)
        } else if key_matches(key, 115, 76, 105, 116) {
            Some(BlendMode::SoftLight)
        } else if key_matches(key, 104, 76, 105, 116) {
            Some(BlendMode::HardLight)
        } else if key_matches(key, 118, 76, 105, 116) {
            Some(BlendMode::VividLight)
        } else if key_matches(key, 108, 76, 105, 116) {
            Some(BlendMode::LinearLight)
        } else if key_matches(key, 112, 76, 105, 116) {
            Some(BlendMode::PinLight)
        } else if key_matches(key, 104, 77, 105, 120) {
            Some(BlendMode::HardMix)
        } else if key_matches(key, 100, 105, 102, 102) {
            Some(BlendMode::Difference)
        } else if key_matches(key, 115, 109, 117, 100) {
            Some(BlendMode::Exclusion)
        } else if key_matches(key, 102, 115, 117, 98) {
            Some(BlendMode::Subtract)
        } else if key_matches(key, 102, 100, 105, 118) {
            Some(BlendMode::Divide)
        } else if key_matches(key, 104, 117, 101, 32) {
            Some(BlendMode::Hue)
        } else if key_matches(key, 115, 97, 116, 32) {
            Some(BlendMode::Saturation)
        } else if key_matches(key, 99, 111, 108, 114) {
            Some(BlendMode::Color)
        } else if key_matches(key, 108, 117, 109, 32) {
            Some(BlendMode::Luminosity)
        } else {
            None
        }
    }
}

/// The tag of a section divider: what kind of layer a record is.
#[derive(Debug, PartialEq, Eq, Structural, Clone, Copy)]
pub enum GroupDivider {
    /// any other type of layer
    Other,
    /// open "folder"
    OpenFolder,
    /// closed "folder"
    CloseFolder,
    /// bounding section divider, hidden in the Photoshop UI
    BoundingSection,
}

/// The divider that a section divider type stands for.
pub open spec fn divider_from_code(divider: i32) -> Option<GroupDivider> {
    if divider == 0 {
        Some(GroupDivider::Other)
    } else if divider == 1 {
        Some(GroupDivider::OpenFolder)
    } else if divider == 2 {
        Some(GroupDivider::CloseFolder)
    } else if divider == 3 {
        Some(GroupDivider::BoundingSection)
    } else {
        None
    }
}

impl GroupDivider {
    /// The divider that `divider` stands for.
    pub fn match_divider(divider: i32) -> (r: Option<GroupDivider>)
        ensures
            r == divider_from_code(divider),
    {
        match divider {
            0 => Some(GroupDivider::Other),
            1 => Some(GroupDivider::OpenFolder),
            2 => Some(GroupDivider::CloseFolder),
            3 => Some(GroupDivider::BoundingSection),
            _ => None,
        }
    }
}

/// An error when working with a PsdLayer
#[derive(Debug, PartialEq, Eq)]
pub enum PsdLayerError {
    /// Could not combine Red, Green, Blue and Alpha: this layer is missing a channel.
    MissingChannels { channel: PsdChannelKind },
    /// A channel id is not 0, 1, 2, -1, -2 or -3.
    InvalidChannel { channel_id: i16 },
    /// A blend mode key is not one that a PSD uses.
    UnknownBlendingMode { mode: [u8; 4] },
    /// A channel's compression is not 0, 1, 2 or 3.
    InvalidCompression { compression: u16 },
}

/// Represents a channel that a layer lacks.
#[derive(Debug, PartialEq, Eq, Structural)]
pub enum PsdChannelError {
    ChannelNotFound { channel: PsdChannelKind },
}

/// A layer record as a mathematical value.
pub struct LayerRecordView {
    pub name: Seq<char>,
    pub channel_data_lengths: Seq<(PsdChannelKind, u32)>,
    pub top: i32,
    pub left: i32,
    pub bottom: i32,
    pub right: i32,
    pub visible: bool,
    pub opacity: u8,
    pub clipping_base: bool,
    pub blend_mode: BlendMode,
    pub divider_type: Option<GroupDivider>,
}

/// A layer record within the layer info section
#[derive(Debug)]
pub struct LayerRecord {
    /// The name of the layer
    pub(crate) name: String,
    /// The channels that this record has and the number of bytes in each channel.
    pub(crate) channel_data_lengths: Vec<(PsdChannelKind, u32)>,
    /// The position of the top of the image
    pub(crate) top: i32,
    /// The position of the left of the image
    pub(crate) left: i32,
    /// The position of the bottom of the image
    pub(crate) bottom: i32,
    /// The position of the right of the image
    pub(crate) right: i32,
    /// Whether the layer is visible
    pub(crate) visible: bool,
    /// 0 = transparent ... 255 = opaque
    pub(crate) opacity: u8,
    /// Whether the layer is a clipping base
    pub(crate) clipping_base: bool,
    /// How the layer blends with the layers below it
    pub(crate) blend_mode: BlendMode,
    /// Group divider tag
    pub(crate) divider_type: Option<GroupDivider>,
}

impl View for LayerRecord {
    type V = LayerRecordView;

    closed spec fn view(&self) -> LayerRecordView {
        LayerRecordView {
            name: self.name@,
            channel_data_lengths: self.channel_data_lengths@,
            top: self.top,
            left: self.left,
            bottom: self.bottom,
            right: self.right,
            visible: self.visible,
            opacity: self.opacity,
            clipping_base: self.clipping_base,
            blend_mode: self.blend_mode,
            divider_type: self.divider_type,
        }
    }
}

/// The height of a record can be computed in an `i32`.
pub open spec fn record_height_ok(r: LayerRecordView) -> bool {
    i32::MIN <= r.bottom - r.top && r.bottom - r.top + 1 <= i32::MAX
}

impl LayerRecord {
    /// A record of the given fields.
    pub fn new(
        name: String,
        channel_data_lengths: Vec<(PsdChannelKind, u32)>,
        top: i32,
        left: i32,
        bottom: i32,
        right: i32,
        visible: bool,
        opacity: u8,
        clipping_base: bool,
        blend_mode: BlendMode,
        divider_type: Option<GroupDivider>,
    ) -> (r: LayerRecord)
        ensures
            r@ == (LayerRecordView {
                name: name@,
                channel_data_lengths: channel_data_lengths@,
                top,
                left,
                bottom,
                right,
                visible,
                opacity,
                clipping_base,
                blend_mode,
                divider_type,
            }),
    {
        LayerRecord {
            name,
            channel_data_lengths,
            top,
            left,
            bottom,
            right,
            visible,
            opacity,
            clipping_base,
            blend_mode,
            divider_type,
        }
    }

    /// The height of this layer record
    pub fn height(&self) -> (r: i32)
        requires
            record_height_ok(self@),
        ensures
            r == self@.bottom - self@.top + 1,
    {
        (self.bottom - self.top) + 1
    }

    /// The channels that this record has and the number of bytes in each.
    pub fn channel_data_lengths(&self) -> (r: &Vec<(PsdChannelKind, u32)>)
        ensures
            r@ == self@.channel_data_lengths,
    {
        &self.channel_data_lengths
    }

    /// The divider tag of this record.
    pub fn divider_type(&self) -> (r: Option<GroupDivider>)
        ensures
            r == self@.divider_type,
    {
        self.divider_type
    }

    /// The name of this record, taken out of it.
    pub fn into_name(self) -> (r: String)
        ensures
            r@ == self@.name,
    {
        self.name
    }

    /// The name of this record.
    pub fn name(&self) -> (r: &String)
        ensures
            r@ == self@.name,
    {
        &self.name
    }
}

/// Layer properties as a mathematical value.
pub struct LayerPropertiesView {
    pub name: Seq<char>,
    pub layer_top: i32,
    pub layer_left: i32,
    pub layer_bottom: i32,
    pub layer_right: i32,
    pub visible: bool,
    pub opacity: u8,
    pub clipping_mask: bool,
    pub blend_mode: BlendMode,
    pub psd_width: u32,
    pub psd_height: u32,
    pub group_id: Option<u32>,
}

/// The properties that layers and groups share.
#[derive(Debug)]
pub struct LayerProperties {
    /// The name of this layer
    pub(crate) name: String,
    /// The position of the top of the layer
    pub(crate) layer_top: i32,
    /// The position of the left of the layer
    pub(crate) layer_left: i32,
    /// The position of the bottom of the layer
    pub(crate) layer_bottom: i32,
    /// The position of the right of the layer
    pub(crate) layer_right: i32,
    /// If true, the layer is visible
    pub(crate) visible: bool,
    /// Opacity: 0 = transparent ... 255 = opaque
    pub(crate) opacity: u8,
    /// If true, the layer is clipped by the layer below it
    pub(crate) clipping_mask: bool,
    /// How the layer blends with the layers below it
    pub(crate) blend_mode: BlendMode,
    /// The width of the PSD
    pub(crate) psd_width: u32,
    /// The height of the PSD
    pub(crate) psd_height: u32,
    /// If layer is nested, contains parent group ID, otherwise `None`
    pub(crate) group_id: Option<u32>,
}

impl View for LayerProperties {
    type V = LayerPropertiesView;

    closed spec fn view(&self) -> LayerPropertiesView {
        LayerPropertiesView {
            name: self.name@,
            layer_top: self.layer_top,
            layer_left: self.layer_left,
            layer_bottom: self.layer_bottom,
            layer_right: self.layer_right,
            visible: self.visible,
            opacity: self.opacity,
            clipping_mask: self.clipping_mask,
            blend_mode: self.blend_mode,
            psd_width: self.psd_width,
            psd_height: self.psd_height,
            group_id: self.group_id,
        }
    }
}

/// The properties of the layer that `record` describes, under the name `name`.
pub open spec fn properties_of(
    name: Seq<char>,
    record: LayerRecordView,
    psd_width: u32,
    psd_height: u32,
    group_id: Option<u32>,
) -> LayerPropertiesView {
    LayerPropertiesView {
        name,
        layer_top: record.top,
        layer_left: record.left,
        layer_bottom: record.bottom,
        layer_right: record.right,
        visible: record.visible,
        opacity: record.opacity,
        clipping_mask: !record.clipping_base,
        blend_mode: record.blend_mode,
        psd_width,
        psd_height,
        group_id,
    }
}

/// The width of a layer can be computed: its right minus its left fits an
/// `i32`, and that difference taken as a `u16` is below 65535.
pub open spec fn width_ok(p: LayerPropertiesView) -> bool {
    &&& i32::MIN <= p.layer_right - p.layer_left <= i32::MAX
    &&& ((p.layer_right - p.layer_left) as u16) < 65535
}

/// The width of a layer: its right minus its left, taken as a `u16`, plus one.
pub open spec fn width_of(p: LayerPropertiesView) -> int {
    ((p.layer_right - p.layer_left) as u16) + 1
}

/// The height of a layer can be computed.
pub open spec fn height_ok(p: LayerPropertiesView) -> bool {
    &&& i32::MIN <= p.layer_bottom - p.layer_top <= i32::MAX
    &&& ((p.layer_bottom - p.layer_top) as u16) < 65535
}

/// The height of a layer: its bottom minus its top, taken as a `u16`, plus one.
pub open spec fn height_of(p: LayerPropertiesView) -> int {
    ((p.layer_bottom - p.layer_top) as u16) + 1
}

impl LayerProperties {
    /// Create the properties of a layer.
    pub fn new(
        name: String,
        layer_top: i32,
        layer_left: i32,
        layer_bottom: i32,
        layer_right: i32,
        visible: bool,
        opacity: u8,
        clipping_mask: bool,
        blend_mode: BlendMode,
        psd_width: u32,
        psd_height: u32,
        group_id: Option<u32>,
    ) -> (r: LayerProperties)
        ensures
            r@ == (LayerPropertiesView {
                name: name@,
                layer_top,
                layer_left,
                layer_bottom,
                layer_right,
                visible,
                opacity,
                clipping_mask,
                blend_mode,
                psd_width,
                psd_height,
                group_id,
            }),
    {
        LayerProperties {
            name,
            layer_top,
            layer_left,
            layer_bottom,
            layer_right,
            visible,
            opacity,
            clipping_mask,
            blend_mode,
            psd_width,
            psd_height,
            group_id,
        }
    }

    /// The properties of the layer that `layer_record` describes, under the name `name`.
    pub fn from_layer_record(
        name: String,
        layer_record: &LayerRecord,
        psd_width: u32,
        psd_height: u32,
        group_id: Option<u32>,
    ) -> (r: LayerProperties)
        ensures
            r@ == properties_of(name@, layer_record@, psd_width, psd_height, group_id),
    {
        Self::new(
            name,
            layer_record.top,
            layer_record.left,
            layer_record.bottom,
            layer_record.right,
            layer_record.visible,
            layer_record.opacity,
            !layer_record.clipping_base,
            layer_record.blend_mode,
            psd_width,
            psd_height,
            group_id,
        )
    }

    /// Get the name of the layer
    pub fn name(&self) -> (r: &str)
        ensures
            r@ == self@.name,
    {
        self.name.as_str()
    }

    /// The width of the layer: if left is at 0 and right is at 4, the width is 5.
    pub fn width(&self) -> (r: u16)
        requires
            width_ok(self@),
        ensures
            r == width_of(self@),
    {
        ((self.layer_right - self.layer_left) as u16) + 1
    }

    /// The height of the layer: if top is at 0 and bottom is at 3, the height is 4.
    pub fn height(&self) -> (r: u16)
        requires
            height_ok(self@),
        ensures
            r == height_of(self@),
    {
        ((self.layer_bottom - self.layer_top) as u16) + 1
    }

    /// If layer is nested, returns parent group ID, otherwise `None`
    pub fn parent_id(&self) -> (r: Option<u32>)
        ensures
            r == self@.group_id,
    {
        self.group_id
    }

    /// Whether the layer is visible.
    pub fn visible(&self) -> (r: bool)
        ensures
            r == self@.visible,
    {
        self.visible
    }

    /// The layer's opacity: 0 = transparent ... 255 = opaque.
    pub fn opacity(&self) -> (r: u8)
        ensures
            r == self@.opacity,
    {
        self.opacity
    }

    /// Whether the layer is clipped by the layer below it.
    pub fn is_clipping_mask(&self) -> (r: bool)
        ensures
            r == self@.clipping_mask,
    {
        self.clipping_mask
    }

    /// How the layer blends with the layers below it.
    pub fn blend_mode(&self) -> (r: BlendMode)
        ensures
            r == self@.blend_mode,
    {
        self.blend_mode
    }

    /// The top, left, bottom and right of the layer.
    pub fn bounds(&self) -> (r: (i32, i32, i32, i32))
        ensures
            r == (self@.layer_top, self@.layer_left, self@.layer_bottom, self@.layer_right),
    {
        (self.layer_top, self.layer_left, self.layer_bottom, self.layer_right)
    }
}

/// The channels of a layer, stored separately, by kind: at most one channel
/// of each kind, a later one replacing an earlier one.
#[derive(Debug)]
pub struct LayerChannels {
    red: Option<ChannelBytes>,
    green: Option<ChannelBytes>,
    blue: Option<ChannelBytes>,
    alpha: Option<ChannelBytes>,
    user_mask: Option<ChannelBytes>,
    real_user_mask: Option<ChannelBytes>,
}

impl LayerChannels {
    /// The channel of kind `kind`, if there is one.
    closed spec fn slot(&self, kind: PsdChannelKind) -> Option<ChannelBytes> {
        match kind {
            PsdChannelKind::Red => self.red,
            PsdChannelKind::Green => self.green,
            PsdChannelKind::Blue => self.blue,
            PsdChannelKind::TransparencyMask => self.alpha,
            PsdChannelKind::UserSuppliedLayerMask => self.user_mask,
            PsdChannelKind::RealUserSuppliedLayerMask => self.real_user_mask,
        }
    }
}

impl View for LayerChannels {
    type V = Map<PsdChannelKind, ChannelData>;

    closed spec fn view(&self) -> Map<PsdChannelKind, ChannelData> {
        Map::new(|k: PsdChannelKind| self.slot(k) is Some, |k: PsdChannelKind| self.slot(k)->0@)
    }
}

impl LayerChannels {
    /// No channels.
    pub fn new() -> (r: LayerChannels)
        ensures
            r@ == Map::<PsdChannelKind, ChannelData>::empty(),
    {
        let r = LayerChannels {
            red: None,
            green: None,
            blue: None,
            alpha: None,
            user_mask: None,
            real_user_mask: None,
        };
        assert(r@ =~= Map::<PsdChannelKind, ChannelData>::empty());
        r
    }

    /// Store `bytes` as the channel of kind `kind`, replacing any channel of that kind.
    pub fn insert(&mut self, kind: PsdChannelKind, bytes: ChannelBytes)
        ensures
            final(self)@ == old(self)@.insert(kind, bytes@),
    {
        let ghost b = bytes@;
        match kind {
            PsdChannelKind::Red => self.red = Some(bytes),
            PsdChannelKind::Green => self.green = Some(bytes),
            PsdChannelKind::Blue => self.blue = Some(bytes),
            PsdChannelKind::TransparencyMask => self.alpha = Some(bytes),
            PsdChannelKind::UserSuppliedLayerMask => self.user_mask = Some(bytes),
            PsdChannelKind::RealUserSuppliedLayerMask => self.real_user_mask = Some(bytes),
        }
        assert(self@ =~= old(self)@.insert(kind, b));
    }

    /// The channel of kind `kind`, if there is one.
    pub fn get(&self, kind: PsdChannelKind) -> (r: Option<&ChannelBytes>)
        ensures
            r is Some <==> self@.contains_key(kind),
            r matches Some(c) ==> c@ == self@[kind],
    {
        match kind {
            PsdChannelKind::Red => self.red.as_ref(),
            PsdChannelKind::Green => self.green.as_ref(),
            PsdChannelKind::Blue => self.blue.as_ref(),
            PsdChannelKind::TransparencyMask => self.alpha.as_ref(),
            PsdChannelKind::UserSuppliedLayerMask => self.user_mask.as_ref(),
            PsdChannelKind::RealUserSuppliedLayerMask => self.real_user_mask.as_ref(),
        }
    }
}

/// A pixel layer as a mathematical value.
pub struct PsdLayerView {
    pub channels: Map<PsdChannelKind, ChannelData>,
    pub properties: LayerPropertiesView,
}

/// PsdLayer represents a pixel layer
#[derive(Debug)]
pub struct PsdLayer {
    /// The channels of the layer, stored separately.
    pub(crate) channels: LayerChannels,
    /// Common layer properties
    pub(crate) layer_properties: LayerProperties,
}

impl View for PsdLayer {
    type V = PsdLayerView;

    closed spec fn view(&self) -> PsdLayerView {
        PsdLayerView { channels: self.channels@, properties: self.layer_properties@ }
    }
}

/// The channel of kind `kind` in `channels`, if there is one.
pub open spec fn channel_of(channels: Map<PsdChannelKind, ChannelData>, kind: PsdChannelKind) -> Option<
    ChannelData,
> {
    if channels.contains_key(kind) {
        Some(channels[kind])
    } else {
        None
    }
}

/// The compression that stored channel bytes use.
pub open spec fn compression_of(c: ChannelData) -> PsdChannelCompression {
    match c {
        ChannelData::RawData(_) => PsdChannelCompression::RawData,
        ChannelData::RleCompressed(_) => PsdChannelCompression::RleCompressed,
    }
}

/// Where pixel `idx` of a layer's own rectangle lands in the PSD: `None` if
/// it falls left of or above the PSD, or so far that the byte offset of its
/// RGBA pixel would not fit in a `usize`.
pub open spec fn layer_pixel_index(p: LayerPropertiesView, idx: int) -> Option<usize> {
    let w = width_of(p);
    let left = p.layer_left + idx % w;
    let top = idx / w + p.layer_top;
    let k = top * p.psd_width + left;
    if idx < 0 || left < 0 || top < 0 || 4 * k + 3 > usize::MAX {
        None
    } else {
        Some(k as usize)
    }
}

/// A layer pixel that lands within the PSD's width lands in the PSD's
/// column that is the layer's left edge plus the pixel's column within the
/// layer, and in the row that is the layer's top edge plus the pixel's row
/// within the layer (pixels run along each row of the layer first).
pub proof fn lemma_layer_pixel_position(p: LayerPropertiesView, idx: int)
    ensures
        layer_pixel_index(p, idx) matches Some(k) ==> (p.layer_left + idx % width_of(p)
            < p.psd_width ==> (k as int) % (p.psd_width as int) == p.layer_left + idx % width_of(p)
            && (k as int) / (p.psd_width as int) == p.layer_top + idx / width_of(p)),
{
    if let Some(k) = layer_pixel_index(p, idx) {
        let w = width_of(p);
        let left = p.layer_left + idx % w;
        let top = idx / w + p.layer_top;
        let pw = p.psd_width as int;
        if left < pw {
            assert(k == top * pw + left);
            assert(0 <= left < pw);
            vstd::arithmetic::div_mod::lemma_fundamental_div_mod_converse(k as int, pw, top, left);
        }
    }
}

impl PsdLayer {
    /// Create a new photoshop layer
    pub fn new(
        layer_record: &LayerRecord,
        psd_width: u32,
        psd_height: u32,
        group_id: Option<u32>,
        channels: LayerChannels,
    ) -> (r: PsdLayer)
        ensures
            r@ == (PsdLayerView {
                channels: channels@,
                properties: properties_of(
                    layer_record@.name,
                    layer_record@,
                    psd_width,
                    psd_height,
                    group_id,
                ),
            }),
    {
        PsdLayer {
            layer_properties: LayerProperties::from_layer_record(
                layer_record.name.clone(),
                layer_record,
                psd_width,
                psd_height,
                group_id,
            ),
            channels,
        }
    }

    /// The common layer properties.
    pub fn properties(&self) -> (r: &LayerProperties)
        ensures
            r@ == self@.properties,
    {
        &self.layer_properties
    }

    /// Get the compression level for one of this layer's channels
    pub fn compression(&self, channel: PsdChannelKind) -> (r: Result<PsdChannelCompression, PsdChannelError>)
        ensures
            channel_of(self@.channels, channel) matches Some(c) ==> r == Ok::<
                PsdChannelCompression,
                PsdChannelError,
            >(compression_of(c)),
            channel_of(self@.channels, channel) is None ==> r == Err::<
                PsdChannelCompression,
                PsdChannelError,
            >(PsdChannelError::ChannelNotFound { channel }),
    {
        match self.channels.get(channel) {
            Some(c) => match c {
                ChannelBytes::RawData(_) => Ok(PsdChannelCompression::RawData),
                ChannelBytes::RleCompressed(_) => Ok(PsdChannelCompression::RleCompressed),
            },
            None => Err(PsdChannelError::ChannelNotFound { channel }),
        }
    }

    /// Create a vector that interleaves the red, green, blue and alpha
    /// channels in this layer: vec![R, G, B, A, R, G, B, A, ...]
    pub fn rgba(&self) -> (r: Result<Vec<u8>, PsdLayerError>)
        requires
            rgba_ok(self),
        ensures
            r matches Ok(v) && v@ == rgba_image(self),
    {
        let rgba = generate_rgba(self);
        Ok(rgba)
    }

    /// Whether this layer's RGBA pixels can be generated: its width can be
    /// computed, it has a red channel, and its channels fit the PSD's pixels.
    pub fn rgba_fits(&self) -> (r: bool)
        ensures
            r == rgba_ok(self),
    {
        let (_top, left, _bottom, right) = self.layer_properties.bounds();
        let d: i64 = (right as i64) - (left as i64);
        if d < i32::MIN as i64 || d > i32::MAX as i64 {
            return false;
        }
        let d32 = d as i32;
        if (d32 as u16) >= 65535 {
            return false;
        }
        if self.channels.get(PsdChannelKind::Red).is_none() {
            return false;
        }
        rgba_fits_check(self)
    }

    /// Get one of the channels of this layer
    pub fn get_channel(&self, channel: PsdChannelKind) -> (r: Option<&ChannelBytes>)
        ensures
            r is Some <==> self@.channels.contains_key(channel),
            r matches Some(c) ==> c@ == self@.channels[channel],
    {
        self.channels.get(channel)
    }
}

impl IntoRgba for PsdLayer {
    open spec fn pixel_index(&self, idx: int) -> Option<usize> {
        layer_pixel_index(self@.properties, idx)
    }

    open spec fn placement_ok(&self) -> bool {
        width_ok(self@.properties) && self@.channels.contains_key(PsdChannelKind::Red)
    }

    open spec fn spec_red(&self) -> ChannelData {
        self@.channels[PsdChannelKind::Red]
    }

    open spec fn spec_green(&self) -> Option<ChannelData> {
        channel_of(self@.channels, PsdChannelKind::Green)
    }

    open spec fn spec_blue(&self) -> Option<ChannelData> {
        channel_of(self@.channels, PsdChannelKind::Blue)
    }

    open spec fn spec_alpha(&self) -> Option<ChannelData> {
        channel_of(self@.channels, PsdChannelKind::TransparencyMask)
    }

    open spec fn spec_psd_width(&self) -> u32 {
        self@.properties.psd_width
    }

    open spec fn spec_psd_height(&self) -> u32 {
        self@.properties.psd_height
    }

    /// A layer might take up only a subsection of a PSD, so the index of a
    /// pixel in the layer is transformed by the layer's left and top position
    /// within the PSD.
    fn rgba_idx(&self, idx: usize) -> (r: Option<usize>) {
        let w = self.layer_properties.width() as usize;
        let left_in_layer = idx % w;
        let left_in_psd: i128 = self.layer_properties.layer_left as i128 + left_in_layer as i128;
        let top_in_psd: i128 = (idx / w) as i128 + self.layer_properties.layer_top as i128;
        if left_in_psd < 0 || top_in_psd < 0 {
            return None;
        }
        let psd_width = self.layer_properties.psd_width as i128;
        proof {
            let t = top_in_psd as int;
            let pw = psd_width as int;
            assert(0 <= t * pw <= 0x1_0000_0000_0000_0000_0000 * 0x1_0000_0000) by (nonlinear_arith)
                requires
                    0 <= t <= 0x1_0000_0000_0000_0000_0000,
                    0 <= pw <= 0x1_0000_0000,
            ;
        }
        let k: i128 = top_in_psd * psd_width + left_in_psd;
        let limit: usize = (usize::MAX - 3) / 4;
        if k > limit as i128 {
            return None;
        }
        Some(k as usize)
    }

    fn red(&self) -> (r: &ChannelBytes) {
        match self.channels.get(PsdChannelKind::Red) {
            Some(c) => c,
            None => {
                assert(false);
                self.channels.get(PsdChannelKind::Red).unwrap()
            },
        }
    }

    fn green(&self) -> (r: Option<&ChannelBytes>) {
        self.channels.get(PsdChannelKind::Green)
    }

    fn blue(&self) -> (r: Option<&ChannelBytes>) {
        self.channels.get(PsdChannelKind::Blue)
    }

    fn alpha(&self) -> (r: Option<&ChannelBytes>) {
        self.channels.get(PsdChannelKind::TransparencyMask)
    }

    fn psd_width(&self) -> (r: u32) {
        self.layer_properties.psd_width
    }

    fn psd_height(&self) -> (r: u32) {
        self.layer_properties.psd_height
    }
}

/// A group of layers as a mathematical value.
pub struct PsdGroupView {
    pub id: u32,
    pub contained_start: usize,
    pub contained_end: usize,
    pub properties: LayerPropertiesView,
}

/// PsdGroup represents a group of layers
#[derive(Debug)]
pub struct PsdGroup {
    /// Group unique identifier
    pub(crate) id: u32,
    /// Idx range of contained layers
    pub(crate) contained_layers: Range<usize>,
    /// Common layer properties
    pub(crate) layer_properties: LayerProperties,
}

impl View for PsdGroup {
    type V = PsdGroupView;

    closed spec fn view(&self) -> PsdGroupView {
        PsdGroupView {
            id: self.id,
            contained_start: self.contained_layers.start,
            contained_end: self.contained_layers.end,
            properties: self.layer_properties@,
        }
    }
}

impl PsdGroup {
    /// Create a new photoshop group layer
    pub fn new(
        name: String,
        id: u32,
        contained_layers: Range<usize>,
        layer_record: &LayerRecord,
        psd_width: u32,
        psd_height: u32,
        group_id: Option<u32>,
    ) -> (r: PsdGroup)
        ensures
            r@ == (PsdGroupView {
                id,
                contained_start: contained_layers.start,
                contained_end: contained_layers.end,
                properties: properties_of(name@, layer_record@, psd_width, psd_height, group_id),
            }),
    {
        let layer_properties = LayerProperties::from_layer_record(
            name,
            layer_record,
            psd_width,
            psd_height,
            group_id,
        );
        PsdGroup { id, contained_layers, layer_properties }
    }

    /// A unique identifier for the layer within the PSD file
    pub fn id(&self) -> (r: u32)
        ensures
            r == self@.id,
    {
        self.id
    }

    /// The indices of the layers that the group contains: start, then end (exclusive).
    pub fn contained_layers(&self) -> (r: (usize, usize))
        ensures
            r == (self@.contained_start, self@.contained_end),
    {
        (self.contained_layers.start, self.contained_layers.end)
    }

    /// The common layer properties.
    pub fn properties(&self) -> (r: &LayerProperties)
        ensures
            r@ == self@.properties,
    {
        &self.layer_properties
    }
}

} // verus!
