use psd::buffer::{PsdBuffer, PsdSerialize};
use psd::color_mode_data::ColorModeDataSection;

#[test]
fn write_read_round_trip_empty_vec() {
    let initial = make_empty_section();
    let bytes: Vec<u8> = Vec::new();
    let bytes2: Vec<u8> = Vec::new();
    let mut buffer = PsdBuffer::new(bytes);

    initial.write(&mut buffer);

    let result = ColorModeDataSection::from_bytes(&bytes2).unwrap();
    assert_eq!(initial, result);
}

#[test]
fn write_read_round_trip_non_empty_vec() {
    let data: Vec<u8> = vec![1, 2, 3, 4, 5];
    let data_2: Vec<u8> = data.clone();
    let initial = make_non_empty_section(data);
    let bytes: Vec<u8> = Vec::new();
    let mut buffer = PsdBuffer::new(bytes);

    initial.write(&mut buffer);

    let result = ColorModeDataSection::from_bytes(&data_2).unwrap();
    assert_eq!(initial, result);
}

fn make_non_empty_section(input_vec: Vec<u8>) -> ColorModeDataSection {
    ColorModeDataSection::new(input_vec)
}

fn make_empty_section() -> ColorModeDataSection {
    let new_vec: Vec<u8> = Vec::new();
    ColorModeDataSection::new(new_vec)
}
