use psd::buffer::{PsdBuffer, PsdSerialize};
use psd::descriptor::{DescriptorField, DescriptorStructure};
use psd::image_resources::{ImageResource, ImageResourcesSection, ImageResourcesSectionError};
use psd::slices::{
    SlicesImageResource, SlicesImageResourceV6, SlicesImageResourceV7_8, SlicesResourceBlock,
};

fn create_example_descriptor() -> DescriptorStructure {
    let bounds = DescriptorStructure {
        name: String::from("example_bounds"),
        class_id: vec![0, 0, 0, 0],
        fields: vec![
            (String::from("Rght"), DescriptorField::Integer(100)),
            (String::from("Btom"), DescriptorField::Integer(200)),
        ],
    };
    DescriptorStructure {
        name: String::from("example_descriptor"),
        fields: vec![(String::from("bounds"), DescriptorField::Descriptor(bounds))],
        class_id: vec![1, 2, 3, 4],
    }
}

fn make_image_resources_section() -> ImageResourcesSection {
    let slice = SlicesImageResource::V7_8(SlicesImageResourceV7_8::new(create_example_descriptor()));
    ImageResourcesSection::new(vec![ImageResource::Slices(slice)])
}

#[test]
fn write_read_round_trip_image_resources() {
    let initial = make_image_resources_section();
    let mut buffer = PsdBuffer::new(Vec::new());

    initial.write(&mut buffer);
    let bytes = buffer.into_bytes();

    let _result = ImageResourcesSection::from_bytes(&bytes).unwrap();
}

#[test]
fn round_trip_keeps_the_descriptor_fields() {
    let initial = make_image_resources_section();
    let mut buffer = PsdBuffer::new(Vec::new());
    initial.write(&mut buffer);
    let bytes = buffer.into_bytes();

    let result = ImageResourcesSection::from_bytes(&bytes).unwrap();
    assert_eq!(result.resources().len(), 1);
    let ImageResource::Slices(slices) = &result.resources()[0];
    assert_eq!(slices.name(), "example_descriptor");
    let descriptors = slices.descriptors();
    assert_eq!(descriptors.len(), 1);
    let descriptor = descriptors[0];
    assert_eq!(descriptor.class_id, vec![1, 2, 3, 4]);
    match descriptor.field("bounds").unwrap() {
        DescriptorField::Descriptor(d) => {
            assert_eq!(d.name, "example_bounds");
            assert_eq!(d.class_id, vec![0, 0, 0, 0]);
            assert!(matches!(d.field("Rght"), Some(DescriptorField::Integer(100))));
            assert!(matches!(d.field("Btom"), Some(DescriptorField::Integer(200))));
        }
        _ => panic!("expected a descriptor"),
    }
}

#[test]
fn section_bytes_start_with_their_length_then_8bim() {
    let initial = make_image_resources_section();
    let mut buffer = PsdBuffer::new(Vec::new());
    initial.write(&mut buffer);
    let bytes = buffer.into_bytes();

    let length = u32::from_be_bytes([bytes[0], bytes[1], bytes[2], bytes[3]]) as usize;
    assert_eq!(length + 4, bytes.len());
    assert_eq!(&bytes[4..8], b"8BIM");
    assert_eq!(&bytes[8..10], &[4, 26]);
    assert_eq!(&bytes[10..12], &[0, 0]);
    let data_len = u32::from_be_bytes([bytes[12], bytes[13], bytes[14], bytes[15]]) as usize;
    assert_eq!(data_len % 2, 0);
    assert_eq!(16 + data_len, bytes.len());
}

#[test]
fn empty_section_reads_as_no_resources() {
    let bytes = [0u8, 0, 0, 0];
    let section = ImageResourcesSection::from_bytes(&bytes).unwrap();
    assert_eq!(section.resources().len(), 0);
}

#[test]
fn block_without_8bim_is_an_invalid_signature() {
    let mut bytes = vec![0u8, 0, 0, 12];
    bytes.extend_from_slice(b"8BPS");
    bytes.extend_from_slice(&[0, 0, 0, 0, 0, 0, 0, 0]);
    let err = ImageResourcesSection::from_bytes(&bytes).err().unwrap();
    assert_eq!(err, ImageResourcesSectionError::InvalidSignature {});
}

#[test]
fn other_resources_are_skipped() {
    // One block of resource 1005 with two bytes of data.
    let mut bytes = vec![0u8, 0, 0, 14];
    bytes.extend_from_slice(b"8BIM");
    bytes.extend_from_slice(&[0x03, 0xED, 0, 0, 0, 0, 0, 2, 7, 7]);
    let section = ImageResourcesSection::from_bytes(&bytes).unwrap();
    assert_eq!(section.resources().len(), 0);
}

#[test]
fn version_6_slices_without_descriptors_round_trip() {
    let blocks = vec![SlicesResourceBlock::new(None), SlicesResourceBlock::new(None)];
    let slice = SlicesImageResource::V6(SlicesImageResourceV6::new(String::from("slices"), blocks));
    let initial = ImageResourcesSection::new(vec![ImageResource::Slices(slice)]);
    let mut buffer = PsdBuffer::new(Vec::new());
    initial.write(&mut buffer);
    let bytes = buffer.into_bytes();

    let result = ImageResourcesSection::from_bytes(&bytes).unwrap();
    assert_eq!(result.resources().len(), 1);
    let ImageResource::Slices(slices) = &result.resources()[0];
    assert!(matches!(slices, SlicesImageResource::V6(_)));
    assert_eq!(slices.name(), "slices");
    assert!(slices.descriptors().is_empty());
}
