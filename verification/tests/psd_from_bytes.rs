use psd::file_header::FileHeaderSectionError;
use psd::layer::BlendMode;
use psd::render::{layer_is_drawn, Renderer};
use psd::{ColorMode, Psd, PsdChannelCompression, PsdDepth, PsdError, PsdLayer};

fn header(channels: u16, height: u32, width: u32, color_mode: u16) -> Vec<u8> {
    let mut b = Vec::new();
    b.extend_from_slice(b"8BPS");
    b.extend_from_slice(&[0, 1]);
    b.extend_from_slice(&[0; 6]);
    b.extend_from_slice(&channels.to_be_bytes());
    b.extend_from_slice(&height.to_be_bytes());
    b.extend_from_slice(&width.to_be_bytes());
    b.extend_from_slice(&8u16.to_be_bytes());
    b.extend_from_slice(&color_mode.to_be_bytes());
    b
}

/// One 1x1 layer named `name`, with raw red, green and blue bytes.
fn layer_record(name: &str, rgb: [u8; 3], flags: u8, opacity: u8) -> (Vec<u8>, Vec<u8>) {
    let mut r = Vec::new();
    for v in [0i32, 0, 1, 1] {
        r.extend_from_slice(&v.to_be_bytes());
    }
    r.extend_from_slice(&3u16.to_be_bytes());
    for id in [0i16, 1, 2] {
        r.extend_from_slice(&id.to_be_bytes());
        r.extend_from_slice(&3u32.to_be_bytes());
    }
    r.extend_from_slice(b"8BIM");
    r.extend_from_slice(b"norm");
    r.push(opacity);
    r.push(0);
    r.push(flags);
    r.push(0);
    r.extend_from_slice(&12u32.to_be_bytes());
    r.extend_from_slice(&0u32.to_be_bytes());
    r.extend_from_slice(&0u32.to_be_bytes());
    let padded = (name.len() + 1 + 3) / 4 * 4;
    r.push(name.len() as u8);
    r.extend_from_slice(name.as_bytes());
    r.resize(r.len() + padded - 1 - name.len(), 0);
    let mut channels = Vec::new();
    for v in rgb {
        channels.extend_from_slice(&0u16.to_be_bytes());
        channels.push(v);
    }
    (r, channels)
}

fn layer_section(layers: &[(Vec<u8>, Vec<u8>)]) -> Vec<u8> {
    let mut body = Vec::new();
    body.extend_from_slice(&0u32.to_be_bytes());
    body.extend_from_slice(&(layers.len() as i16).to_be_bytes());
    for (record, _) in layers {
        body.extend_from_slice(record);
    }
    for (_, channels) in layers {
        body.extend_from_slice(channels);
    }
    let mut b = (body.len() as u32).to_be_bytes().to_vec();
    b.extend_from_slice(&body);
    b
}

fn psd_bytes(layers: &[(Vec<u8>, Vec<u8>)], image_rgb: [u8; 3]) -> Vec<u8> {
    let mut b = header(3, 1, 1, 3);
    b.extend_from_slice(&0u32.to_be_bytes());
    b.extend_from_slice(&0u32.to_be_bytes());
    if layers.is_empty() {
        b.extend_from_slice(&0u32.to_be_bytes());
    } else {
        b.extend_from_slice(&layer_section(layers));
    }
    b.extend_from_slice(&0u16.to_be_bytes());
    b.extend_from_slice(&image_rgb);
    b
}

#[test]
fn reads_header_fields_and_final_image() {
    let bytes = psd_bytes(&[], [9, 8, 7]);
    let psd = Psd::from_bytes(&bytes).unwrap();
    assert_eq!(psd.width(), 1);
    assert_eq!(psd.height(), 1);
    assert_eq!(psd.depth(), PsdDepth::Eight);
    assert_eq!(psd.color_mode(), ColorMode::Rgb);
    assert_eq!(*psd.compression(), PsdChannelCompression::RawData);
    assert!(psd.layers().is_empty());
    assert!(psd.resources().is_empty());
    assert!(psd.rgba_fits());
    assert_eq!(psd.rgba(), vec![9, 8, 7, 255]);
}

#[test]
fn reads_a_layer() {
    let bytes = psd_bytes(&[layer_record("Red", [200, 100, 50], 2, 255)], [1, 2, 3]);
    let psd = Psd::from_bytes(&bytes).unwrap();
    assert_eq!(psd.layers().len(), 1);
    let layer = psd.layer_by_name("Red").unwrap();
    assert_eq!(layer.properties().name(), "Red");
    assert_eq!(layer.properties().width(), 1);
    assert_eq!(layer.properties().height(), 1);
    assert_eq!(layer.properties().opacity(), 255);
    assert!(layer.properties().visible());
    assert_eq!(layer.properties().blend_mode(), BlendMode::Normal);
    assert!(layer.rgba_fits());
    assert_eq!(layer.rgba().unwrap(), vec![200, 100, 50, 255]);
    assert!(psd.layer_by_name("Blue").is_none());
    assert_eq!(psd.layer_by_idx(0).properties().name(), "Red");
    assert!(psd.groups().is_empty());
    assert!(psd.group_ids_in_order().is_empty());
    assert!(psd.get_group_sub_layers(&1).is_none());
}

#[test]
fn bottom_layer_with_a_name_wins() {
    let bytes = psd_bytes(
        &[layer_record("Same", [1, 1, 1], 2, 255), layer_record("Same", [2, 2, 2], 2, 255)],
        [0, 0, 0],
    );
    let psd = Psd::from_bytes(&bytes).unwrap();
    assert_eq!(psd.layers().len(), 2);
    let layer = psd.layer_by_name("Same").unwrap();
    // The file lists layers from the bottom one up: the first record is the
    // bottom layer, and of layers with the same name the bottom one is found.
    assert_eq!(layer.rgba().unwrap(), vec![1, 1, 1, 255]);
}

#[test]
fn layers_are_listed_from_the_bottom_up() {
    let bytes = psd_bytes(
        &[layer_record("Bottom", [40, 50, 60], 2, 255), layer_record("Top", [10, 20, 30], 2, 255)],
        [0, 0, 0],
    );
    let psd = Psd::from_bytes(&bytes).unwrap();
    assert_eq!(psd.layer_by_idx(0).properties().name(), "Bottom");
    assert_eq!(psd.layer_by_idx(1).properties().name(), "Top");
    assert_eq!(psd.layers()[1].properties().name(), "Top");
}

#[test]
fn pixel_stack_stops_at_an_opaque_layer() {
    let bytes = psd_bytes(
        &[layer_record("Bottom", [40, 50, 60], 2, 255), layer_record("Top", [10, 20, 30], 2, 255)],
        [0, 0, 0],
    );
    let psd = Psd::from_bytes(&bytes).unwrap();
    let layers: Vec<&PsdLayer> = psd.layers().iter().rev().filter(|l| layer_is_drawn(l)).collect();
    assert_eq!(layers.len(), 2);
    let mut renderer = Renderer::new(&layers, 1);
    let stack = renderer.pixel_stack((0, 0)).unwrap();
    assert_eq!(stack.len(), 1);
    assert_eq!(stack[0].0, [10, 20, 30, 255]);
    assert_eq!(stack[0].1, BlendMode::Normal);
    assert_eq!(stack[0].2, 255);
}

#[test]
fn pixel_stack_goes_on_below_a_translucent_layer() {
    let bytes = psd_bytes(
        &[layer_record("Bottom", [40, 50, 60], 2, 128), layer_record("Top", [10, 20, 30], 2, 128)],
        [0, 0, 0],
    );
    let psd = Psd::from_bytes(&bytes).unwrap();
    let layers: Vec<&PsdLayer> = psd.layers().iter().rev().collect();
    let mut renderer = Renderer::new(&layers, 1);
    let stack = renderer.pixel_stack((0, 0)).unwrap();
    assert_eq!(stack.len(), 2);
    assert_eq!(stack[0].0, [10, 20, 30, 255]);
    assert_eq!(stack[1].0, [40, 50, 60, 255]);
    assert_eq!(stack[1].2, 128);
    // A pixel outside every layer has no pixels to blend.
    assert_eq!(renderer.pixel_stack((5, 5)).unwrap().len(), 0);
}

#[test]
fn hidden_layers_are_not_drawn() {
    let bytes = psd_bytes(&[layer_record("Hidden", [1, 2, 3], 0, 255)], [0, 0, 0]);
    let psd = Psd::from_bytes(&bytes).unwrap();
    assert!(!layer_is_drawn(&psd.layers()[0]));
}

#[test]
fn short_file_is_an_incorrect_length() {
    let bytes = [56u8, 66, 80, 83, 0, 1];
    let err = Psd::from_bytes(&bytes).err().unwrap();
    assert_eq!(err, PsdError::HeaderError(FileHeaderSectionError::IncorrectLength { length: 6 }));
}

/// Non-PSD files are caught right away: a PNG does not start with '8BPS'.
#[test]
fn psd_signature_fail() {
    let mut png = vec![0x89, b'P', b'N', b'G', 0x0D, 0x0A, 0x1A, 0x0A];
    png.extend_from_slice(&[0, 0, 0, 0x0D, b'I', b'H', b'D', b'R']);
    png.extend_from_slice(&[0, 0, 0, 1, 0, 0, 0, 1, 8, 2, 0, 0, 0, 0x90, 0x77, 0x53, 0xDE]);

    let err = Psd::from_bytes(&png).expect_err("Psd::from_bytes() didn't catch the PNG file");

    assert_eq!(err, PsdError::HeaderError(FileHeaderSectionError::InvalidSignature {}));
}

#[test]
fn unknown_blend_mode_is_a_layer_error() {
    let (mut record, channels) = layer_record("Odd", [1, 2, 3], 2, 255);
    // The blend mode key follows the '8BIM' after the channel infos.
    let key_at = 16 + 2 + 18 + 4;
    record[key_at..key_at + 4].copy_from_slice(b"zzzz");
    let bytes = psd_bytes(&[(record, channels)], [0, 0, 0]);
    let err = Psd::from_bytes(&bytes).err().unwrap();
    assert_eq!(
        err,
        PsdError::LayerError(psd::layer::PsdLayerError::UnknownBlendingMode { mode: *b"zzzz" })
    );
}

/// A record with no channels that marks a group: 1 opens a folder, 3 closes it.
fn divider_record(name: &str, divider: i32) -> (Vec<u8>, Vec<u8>) {
    let mut r = Vec::new();
    for v in [0i32, 0, 0, 0] {
        r.extend_from_slice(&v.to_be_bytes());
    }
    r.extend_from_slice(&0u16.to_be_bytes());
    r.extend_from_slice(b"8BIM");
    r.extend_from_slice(b"norm");
    r.push(255);
    r.push(0);
    r.push(2);
    r.push(0);
    r.extend_from_slice(&0u32.to_be_bytes());
    r.extend_from_slice(&0u32.to_be_bytes());
    r.extend_from_slice(&0u32.to_be_bytes());
    let padded = (name.len() + 1 + 3) / 4 * 4;
    r.push(name.len() as u8);
    r.extend_from_slice(name.as_bytes());
    r.resize(r.len() + padded - 1 - name.len(), 0);
    r.extend_from_slice(b"8BIM");
    r.extend_from_slice(b"lsct");
    r.extend_from_slice(&4u32.to_be_bytes());
    r.extend_from_slice(&divider.to_be_bytes());
    (r, Vec::new())
}

#[test]
fn one_group_one_layer_inside() {
    let bytes = psd_bytes(
        &[
            divider_record("</Layer group>", 3),
            layer_record("Inside", [5, 6, 7], 2, 255),
            divider_record("Group", 1),
        ],
        [0, 0, 0],
    );
    let psd = Psd::from_bytes(&bytes).unwrap();
    assert_eq!(psd.layers().len(), 1);
    assert_eq!(psd.group_ids_in_order(), &vec![1]);
    let group = psd.groups().get(&1).unwrap();
    assert_eq!(group.id(), 1);
    assert_eq!(group.contained_layers(), (0, 1));
    let inside = psd.get_group_sub_layers(&1).unwrap();
    assert_eq!(inside.len(), 1);
    assert_eq!(inside[0].properties().name(), "Inside");
    assert_eq!(inside[0].properties().parent_id(), Some(1));
    assert!(psd.get_group_sub_layers(&2).is_none());
}

#[test]
fn one_group_inside_another() {
    let bytes = psd_bytes(
        &[
            divider_record("</Layer group>", 3),
            divider_record("</Layer group>", 3),
            layer_record("Deep", [5, 6, 7], 2, 255),
            divider_record("Inner", 1),
            divider_record("Outer", 1),
        ],
        [0, 0, 0],
    );
    let psd = Psd::from_bytes(&bytes).unwrap();
    // Groups are numbered from the top down, in the order their folder
    // records come from the top, and listed from the bottom up, an outer
    // group before the group inside it.
    assert_eq!(psd.group_ids_in_order(), &vec![1, 2]);
    assert_eq!(psd.groups().get(&2).unwrap().properties().parent_id(), Some(1));
    assert_eq!(psd.groups().get(&1).unwrap().properties().parent_id(), None);
    assert_eq!(psd.get_group_sub_layers(&1).unwrap().len(), 1);
    assert_eq!(psd.get_group_sub_layers(&2).unwrap().len(), 1);
    assert_eq!(psd.layers()[0].properties().parent_id(), Some(2));
}

#[test]
fn group_ranges_count_from_the_bottom_layer() {
    let bytes = psd_bytes(
        &[
            layer_record("Below", [1, 2, 3], 2, 255),
            divider_record("</Layer group>", 3),
            layer_record("Inside", [5, 6, 7], 2, 255),
            divider_record("Group", 1),
        ],
        [0, 0, 0],
    );
    let psd = Psd::from_bytes(&bytes).unwrap();
    assert_eq!(psd.layers().len(), 2);
    assert_eq!(psd.layers()[0].properties().name(), "Below");
    assert_eq!(psd.layers()[1].properties().name(), "Inside");
    assert_eq!(psd.groups().get(&1).unwrap().contained_layers(), (1, 2));
    let inside = psd.get_group_sub_layers(&1).unwrap();
    assert_eq!(inside.len(), 1);
    assert_eq!(inside[0].properties().name(), "Inside");
    assert_eq!(psd.layers()[0].properties().parent_id(), None);
}
