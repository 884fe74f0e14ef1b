use psd::channel::{insert_channel_bytes, ChannelBytes, IntoRgba};
use psd::rle::rle_decompress;
use psd::layer::{BlendMode, LayerChannels, LayerRecord, PsdLayer};
use psd::PsdChannelKind;

fn one_pixel_layer(channels: LayerChannels) -> PsdLayer {
    let record = LayerRecord::new(
        String::new(),
        vec![],
        0,
        0,
        0,
        0,
        true,
        0,
        false,
        BlendMode::Normal,
        None,
    );
    PsdLayer::new(&record, 1, 1, None, channels)
}

/// Verify that when inserting an RLE channel's bytes into an RGBA byte vec we do not attempt to
/// read beyond the channel's length.
#[test]
fn does_not_read_beyond_rle_channels_bytes() {
    let mut channels = LayerChannels::new();
    channels.insert(PsdChannelKind::Red, ChannelBytes::RleCompressed(vec![0, 0, 0]));
    let layer = one_pixel_layer(channels);

    let width = layer.properties().width() as usize;
    let height = layer.properties().height() as usize;
    let mut rgba = vec![0; width * height * 4];

    insert_channel_bytes(&layer, &mut rgba, PsdChannelKind::Red, layer.red());

    assert_eq!(rgba, vec![0; 4]);
}

#[test]
fn rle_decompress_literal_and_repeat_runs() {
    // A literal run of two bytes, then the byte 9 repeated three times.
    assert_eq!(rle_decompress(&[1, 5, 6, 254, 9]), vec![5, 6, 9, 9, 9]);
    // A header of -128 is skipped.
    assert_eq!(rle_decompress(&[128, 0, 4]), vec![4]);
}

#[test]
fn layer_rgba_places_channels_and_full_alpha() {
    let mut channels = LayerChannels::new();
    channels.insert(PsdChannelKind::Red, ChannelBytes::RawData(vec![10]));
    channels.insert(PsdChannelKind::Green, ChannelBytes::RawData(vec![20]));
    channels.insert(PsdChannelKind::Blue, ChannelBytes::RleCompressed(vec![0, 30]));
    let layer = one_pixel_layer(channels);
    assert!(layer.rgba_fits());
    assert_eq!(layer.rgba().unwrap(), vec![10, 20, 30, 255]);
}

#[test]
fn missing_green_and_blue_take_the_red_channel() {
    let mut channels = LayerChannels::new();
    channels.insert(PsdChannelKind::Red, ChannelBytes::RawData(vec![42]));
    channels.insert(PsdChannelKind::TransparencyMask, ChannelBytes::RawData(vec![7]));
    let layer = one_pixel_layer(channels);
    assert_eq!(layer.rgba().unwrap(), vec![42, 42, 42, 7]);
}

#[test]
fn layer_without_red_does_not_fit() {
    let channels = LayerChannels::new();
    let layer = one_pixel_layer(channels);
    assert!(!layer.rgba_fits());
}

#[test]
fn rgba_offsets() {
    assert_eq!(PsdChannelKind::Red.rgba_offset(), Ok(0));
    assert_eq!(PsdChannelKind::Green.rgba_offset(), Ok(1));
    assert_eq!(PsdChannelKind::Blue.rgba_offset(), Ok(2));
    assert_eq!(PsdChannelKind::TransparencyMask.rgba_offset(), Ok(3));
    assert_eq!(
        PsdChannelKind::UserSuppliedLayerMask.rgba_offset(),
        Err(String::from("UserSuppliedLayerMask is not an RGBA channel"))
    );
}

#[test]
fn channel_kinds_from_ids() {
    assert_eq!(PsdChannelKind::new(0), Some(PsdChannelKind::Red));
    assert_eq!(PsdChannelKind::new(-1), Some(PsdChannelKind::TransparencyMask));
    assert_eq!(PsdChannelKind::new(-3), Some(PsdChannelKind::RealUserSuppliedLayerMask));
    assert_eq!(PsdChannelKind::new(3), None);
}
