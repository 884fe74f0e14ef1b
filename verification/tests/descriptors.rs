use psd::buffer::{PsdBuffer, PsdSerialize};
use psd::cursor::PsdCursor;
use psd::descriptor::{
    write_field, AliasStructure, ClassStructure, DescriptorField, DescriptorStructure,
    ImageResourcesDescriptorError, UnitFloatStructure,
};

fn key(bytes: &mut Vec<u8>, k: &[u8]) {
    bytes.extend_from_slice(&(k.len() as u32).to_be_bytes());
    bytes.extend_from_slice(k);
}

#[test]
fn reads_a_descriptor_with_fields() {
    let mut b = Vec::new();
    // name "d" (padded to 1 byte), class id "null" as a 0-length key.
    b.extend_from_slice(&[0, 0, 0, 1, 0, b'd']);
    b.extend_from_slice(&[0, 0, 0, 0]);
    b.extend_from_slice(b"null");
    b.extend_from_slice(&3u32.to_be_bytes());
    key(&mut b, b"Top ");
    b.extend_from_slice(b"long");
    b.extend_from_slice(&(-5i32).to_be_bytes());
    key(&mut b, b"flag");
    b.extend_from_slice(b"bool");
    b.push(1);
    key(&mut b, b"Top ");
    b.extend_from_slice(b"doub");
    b.extend_from_slice(&1.5f64.to_bits().to_be_bytes());

    let mut cursor = PsdCursor::new(&b);
    let d = DescriptorStructure::read_descriptor_structure(&mut cursor).unwrap();
    assert_eq!(cursor.position(), b.len());
    assert_eq!(d.name, "d");
    assert_eq!(d.class_id, b"null".to_vec());
    // The second "Top " replaces the first, in its place.
    assert_eq!(d.fields.len(), 2);
    assert_eq!(d.fields[0].0, "Top ");
    assert!(matches!(d.fields[0].1, DescriptorField::Double(bits) if f64::from_bits(bits) == 1.5));
    assert!(matches!(d.field("flag"), Some(DescriptorField::Boolean(true))));
    assert!(d.field("none").is_none());
}

#[test]
fn unknown_field_type_is_invalid() {
    let mut b = Vec::new();
    b.extend_from_slice(b"what");
    b.extend_from_slice(&[0; 8]);
    let mut cursor = PsdCursor::new(&b);
    let err = DescriptorStructure::read_descriptor_field(&mut cursor).err().unwrap();
    assert_eq!(err, ImageResourcesDescriptorError::InvalidTypeOS {});
}

#[test]
fn unknown_unit_is_invalid() {
    let mut b = Vec::new();
    b.extend_from_slice(b"UntF");
    b.extend_from_slice(b"#Zzz");
    b.extend_from_slice(&[0; 8]);
    let mut cursor = PsdCursor::new(&b);
    let err = DescriptorStructure::read_descriptor_field(&mut cursor).err().unwrap();
    assert_eq!(err, ImageResourcesDescriptorError::InvalidUnitName {});
}

#[test]
fn reads_unit_floats_and_lists() {
    let mut b = Vec::new();
    b.extend_from_slice(b"VlLs");
    b.extend_from_slice(&2u32.to_be_bytes());
    b.extend_from_slice(b"UntF");
    b.extend_from_slice(b"#Pxl");
    b.extend_from_slice(&2.0f64.to_bits().to_be_bytes());
    b.extend_from_slice(b"UntF");
    b.extend_from_slice(b"#Nne");
    let mut cursor = PsdCursor::new(&b);
    match DescriptorStructure::read_descriptor_field(&mut cursor).unwrap() {
        DescriptorField::List(items) => {
            assert_eq!(items.len(), 2);
            assert!(matches!(items[0], DescriptorField::UnitFloat(UnitFloatStructure::Pixels(bits)) if f64::from_bits(bits) == 2.0));
            assert!(matches!(items[1], DescriptorField::UnitFloat(UnitFloatStructure::Unitless)));
        }
        _ => panic!("expected a list"),
    }
    assert_eq!(cursor.position(), b.len());
}

#[test]
fn reads_references() {
    let mut b = Vec::new();
    b.extend_from_slice(b"obj ");
    b.extend_from_slice(&2u32.to_be_bytes());
    key(&mut b, b"skip");
    b.extend_from_slice(b"Idnt");
    b.extend_from_slice(&7i32.to_be_bytes());
    key(&mut b, b"skip");
    b.extend_from_slice(b"indx");
    b.extend_from_slice(&(-2i32).to_be_bytes());
    let mut cursor = PsdCursor::new(&b);
    match DescriptorStructure::read_descriptor_field(&mut cursor).unwrap() {
        DescriptorField::Reference(items) => {
            assert!(matches!(items[0], DescriptorField::Identifier(7)));
            assert!(matches!(items[1], DescriptorField::Index(-2)));
        }
        _ => panic!("expected a reference"),
    }
}

#[test]
fn writes_fields() {
    let mut buffer = PsdBuffer::new(Vec::new());
    write_field(&mut buffer, &DescriptorField::Integer(-1));
    write_field(&mut buffer, &DescriptorField::Boolean(true));
    write_field(&mut buffer, &DescriptorField::LargeInteger(-2));
    let class = ClassStructure { name: String::from("c"), class_id: Vec::new() };
    write_field(&mut buffer, &DescriptorField::Class(class));
    let mut expected = Vec::new();
    expected.extend_from_slice(b"long");
    expected.extend_from_slice(&[0xFF; 4]);
    expected.extend_from_slice(b"bool");
    expected.push(1);
    expected.extend_from_slice(b"comp");
    expected.extend_from_slice(&(-2i64).to_be_bytes());
    expected.extend_from_slice(b"type");
    expected.extend_from_slice(&[0, 0, 0, 1, 0, b'c']);
    expected.extend_from_slice(&[0, 0, 0, 0, 0, 0, 0, 0]);
    assert_eq!(buffer.into_bytes(), expected);
}

#[test]
fn written_descriptor_reads_back() {
    let d = DescriptorStructure {
        name: String::from("slice"),
        class_id: b"Dscr".to_vec(),
        fields: vec![
            (String::from("Rght"), DescriptorField::Integer(16)),
            (String::from("Nm  "), DescriptorField::String(String::from("one"))),
            (String::from("unit"), DescriptorField::UnitFloat(UnitFloatStructure::Angle(3.0f64.to_bits()))),
        ],
    };
    let mut buffer = PsdBuffer::new(Vec::new());
    d.write(&mut buffer);
    let bytes = buffer.into_bytes();
    let mut cursor = PsdCursor::new(&bytes);
    let back = DescriptorStructure::read_descriptor_structure(&mut cursor).unwrap();
    assert_eq!(back.name, "slice");
    assert_eq!(back.class_id, b"Dscr".to_vec());
    assert!(matches!(back.field("Rght"), Some(DescriptorField::Integer(16))));
    assert!(matches!(back.field("Nm  "), Some(DescriptorField::String(s)) if s == "one"));
    assert!(matches!(back.field("unit"), Some(DescriptorField::UnitFloat(UnitFloatStructure::Angle(bits))) if f64::from_bits(*bits) == 3.0));
    assert_eq!(cursor.position(), bytes.len());
}

#[test]
fn written_class_alias_and_empty_reference_read_back() {
    let d = DescriptorStructure {
        name: String::from("d"),
        class_id: b"null".to_vec(),
        fields: vec![
            (
                String::from("Clss"),
                DescriptorField::Class(ClassStructure { name: String::from("ab"), class_id: b"Lyr ".to_vec() }),
            ),
            (String::from("Als "), DescriptorField::Alias(AliasStructure { data: vec![1, 2, 3] })),
            (String::from("Rfr "), DescriptorField::Reference(Vec::new())),
        ],
    };
    let mut buffer = PsdBuffer::new(Vec::new());
    d.write(&mut buffer);
    let bytes = buffer.into_bytes();
    let mut cursor = PsdCursor::new(&bytes);
    let back = DescriptorStructure::read_descriptor_structure(&mut cursor).unwrap();
    assert_eq!(cursor.position(), bytes.len());
    assert_eq!(back.fields.len(), 3);
    assert!(matches!(back.field("Clss"), Some(DescriptorField::Class(c)) if c.name == "ab" && c.class_id == b"Lyr ".to_vec()));
    assert!(matches!(back.field("Als "), Some(DescriptorField::Alias(a)) if a.data == vec![1, 2, 3]));
    assert!(matches!(back.field("Rfr "), Some(DescriptorField::Reference(v)) if v.is_empty()));
}
