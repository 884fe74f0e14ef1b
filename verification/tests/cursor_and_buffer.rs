use psd::buffer::{u32_to_be_bytes, PsdBuffer};
use psd::cursor::{u8_slice_to_u16, PsdCursor};
use psd::containers::NamedItems;
use psd::PsdChannelKind;

#[test]
fn reads_big_endian_integers() {
    let bytes = [0x12, 0x34, 0x56, 0x78, 0x9A, 0xBC, 0xDE, 0xF0, 0xFF];
    let mut cursor = PsdCursor::new(&bytes);
    assert_eq!(cursor.peek_u32(), 0x1234_5678);
    assert_eq!(cursor.read_u16(), 0x1234);
    assert_eq!(cursor.position(), 2);
    assert_eq!(cursor.read_u32(), 0x5678_9ABC);
    assert_eq!(cursor.read_i16(), -0x2110);
    assert_eq!(cursor.read_i8(), -1);
    cursor.seek(0);
    assert_eq!(cursor.read_u64(), 0x1234_5678_9ABC_DEF0);
    cursor.seek(4);
    assert_eq!(cursor.read_i32(), -0x6543_2110);
    cursor.seek(0);
    assert_eq!(cursor.read_i64(), 0x1234_5678_9ABC_DEF0u64 as i64);
    assert_eq!(*cursor.read_1(), 0xFF);
}

#[test]
fn read_and_peek_slices() {
    let bytes = [1u8, 2, 3, 4, 5];
    let mut cursor = PsdCursor::new(&bytes);
    assert_eq!(cursor.peek_n::<2>(), &[1, 2]);
    assert_eq!(cursor.read_n::<3>(), &[1, 2, 3]);
    assert_eq!(cursor.read(2), &[4, 5]);
    assert_eq!(cursor.get_ref(), &bytes);
}

#[test]
fn reads_unicode_strings_with_padding() {
    // 3 code units: "Hi", then U+1F600 as a surrogate pair is two more units.
    let bytes = [0, 0, 0, 2, 0, b'H', 0, b'i', 0xEE];
    let mut cursor = PsdCursor::new(&bytes);
    assert_eq!(cursor.read_unicode_string_padding(1), "Hi");
    assert_eq!(cursor.position(), 8);
    cursor.seek(0);
    let padded = [0, 0, 0, 1, 0, b'A', 0, 0, 0xEE];
    let mut cursor2 = PsdCursor::new(&padded);
    assert_eq!(cursor2.read_unicode_string(), "A");
    assert_eq!(cursor2.position(), 8);
    let pair = [0, 0, 0, 2, 0xD8, 0x3D, 0xDE, 0x00];
    let mut cursor3 = PsdCursor::new(&pair);
    assert_eq!(cursor3.read_unicode_string_padding(1), "\u{1F600}");
}

#[test]
fn reads_pascal_strings() {
    // Odd length: no pad byte.
    let odd = [3u8, b'a', b'b', b'c', 9];
    let mut cursor = PsdCursor::new(&odd);
    assert_eq!(cursor.read_pascal_string(), "abc");
    assert_eq!(cursor.position(), 4);
    // Even length: one pad byte after the text.
    let even = [2u8, b'o', b'k', 0, 9];
    let mut cursor = PsdCursor::new(&even);
    assert_eq!(cursor.read_pascal_string(), "ok");
    assert_eq!(cursor.position(), 4);
    // Invalid UTF-8 is replaced, not rejected.
    let invalid = [1u8, 0xFF, 7];
    let mut cursor = PsdCursor::new(&invalid);
    assert_eq!(cursor.read_pascal_string(), "\u{FFFD}");
}

#[test]
fn splits_bytes_into_big_endian_units() {
    assert_eq!(u8_slice_to_u16(&[0x12, 0x34, 0xAB, 0xCD, 0x01]), vec![0x1234, 0xABCD]);
}

#[test]
fn writes_integers_and_strings() {
    let mut buffer = PsdBuffer::new(vec![7]);
    buffer.write_u32(0x0102_0304);
    buffer.write_u64(0x0506_0708_090A_0B0C);
    buffer.write_unicode_string("\u{1F600}a");
    buffer.write_pascal_string("ab");
    buffer.write_pascal_string("abc");
    assert_eq!(
        buffer.into_bytes(),
        vec![
            7, 1, 2, 3, 4, 5, 6, 7, 8, 9, 10, 11, 12, 0, 0, 0, 3, 0xD8, 0x3D, 0xDE, 0x00, 0, b'a',
            2, b'a', b'b', 0, 3, b'a', b'b', b'c'
        ]
    );
    assert_eq!(u32_to_be_bytes(0xDEAD_BEEF), [0xDE, 0xAD, 0xBE, 0xEF]);
}

#[test]
fn sized_sections_and_padding() {
    let mut buffer = PsdBuffer::new(Vec::new());
    let start = buffer.begin_sized();
    let inner = buffer.len();
    buffer.write(&[1, 2, 3]);
    buffer.pad_from(inner, 4);
    buffer.end_sized(start);
    assert_eq!(buffer.into_bytes(), vec![0, 0, 0, 4, 1, 2, 3, 0]);
}

#[test]
fn unicode_string_round_trip() {
    let text = "Layer \u{1F600} 1";
    let mut buffer = PsdBuffer::new(Vec::new());
    buffer.write_unicode_string(text);
    let bytes = buffer.into_bytes();
    let mut cursor = PsdCursor::new(&bytes);
    assert_eq!(cursor.read_unicode_string_padding(1), text);
    assert_eq!(cursor.position(), bytes.len());
}

#[test]
fn named_items_find_the_last_pushed_under_a_name() {
    let mut items: NamedItems<u32> = NamedItems::new();
    items.push(String::from("a"), 1);
    items.push(String::from("b"), 2);
    items.push(String::from("a"), 3);
    assert_eq!(items.len(), 3);
    assert_eq!(items.item_by_name("a"), Some(&3));
    assert_eq!(items.item_by_name("b"), Some(&2));
    assert_eq!(items.item_by_name("c"), None);
    assert_eq!(items.item_by_idx(0), Some(&1));
    assert_eq!(items.item_by_idx(2), Some(&3));
}

#[test]
fn channel_kinds_order_as_their_ids() {
    assert!(PsdChannelKind::RealUserSuppliedLayerMask < PsdChannelKind::UserSuppliedLayerMask);
    assert!(PsdChannelKind::UserSuppliedLayerMask < PsdChannelKind::TransparencyMask);
    assert!(PsdChannelKind::TransparencyMask < PsdChannelKind::Red);
    assert!(PsdChannelKind::Red < PsdChannelKind::Green);
    assert!(PsdChannelKind::Green < PsdChannelKind::Blue);
}
