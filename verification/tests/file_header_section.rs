use psd::file_header::{
    ChannelCount, ChannelCountError, FileHeaderSection, FileHeaderSectionError, EXPECTED_PSD_SIGNATURE,
};

const EXPECTED_VERSION: [u8; 2] = [0, 1];

// >= 1, <= 56
#[test]
fn file_header_section_valid_channel_count() {
    for channel_count in 1..=56 {
        assert!(ChannelCount::new(channel_count).is_ok());
    }
}

// < 1, > 56
#[test]
fn file_header_section_invalid_channel_count() {
    assert!(ChannelCount::new(0).is_err());
    assert!(ChannelCount::new(57).is_err());
}

// We're passing in 25 bytes even though we're supposed to pass in 26 bytes
#[test]
fn incorrect_file_header_section_length() {
    let too_short = [0; 25];

    match error_from_bytes(&too_short) {
        FileHeaderSectionError::IncorrectLength { length } => assert_eq!(length, 25),
        _ => panic!("Should have returned incorrect length error"),
    };
}

#[test]
fn first_four_bytes_incorrect() {
    let bytes = make_bytes();

    let error = error_from_bytes(&bytes);

    match error {
        FileHeaderSectionError::InvalidSignature {} => {}
        _ => panic!("Should have returned invalid signature error"),
    };
}

#[test]
fn version_incorrect() {
    let mut bytes = make_bytes();
    bytes[0..4].copy_from_slice(&EXPECTED_PSD_SIGNATURE);

    match error_from_bytes(&bytes) {
        FileHeaderSectionError::InvalidVersion {} => {}
        _ => panic!("Should have returned invalid version error"),
    };
}

#[test]
fn invalid_reserved_section() {
    let mut bytes = make_bytes();
    bytes[0..4].copy_from_slice(&EXPECTED_PSD_SIGNATURE);
    bytes[4..6].copy_from_slice(&EXPECTED_VERSION);

    match error_from_bytes(&bytes) {
        FileHeaderSectionError::InvalidReserved {} => {}
        _ => panic!("Should have returned reserved section error"),
    };
}

fn error_from_bytes(bytes: &[u8]) -> FileHeaderSectionError {
    FileHeaderSection::from_bytes(bytes).err().unwrap()
}

// [0, 1, 2, ..., 25]
fn make_bytes() -> [u8; 26] {
    let mut bytes = [0; 26];
    for i in 0..26 {
        bytes[i] = i as u8;
    }

    bytes
}

#[test]
fn channel_count_is_read_as_two_bytes() {
    let bytes = [
        56, 66, 80, 83, 0, 1, 0, 0, 0, 0, 0, 0, 1, 1, 0, 0, 0, 1, 0, 0, 0, 1, 0, 8, 0, 3,
    ];
    match FileHeaderSection::from_bytes(&bytes) {
        Err(FileHeaderSectionError::ChannelCount(ChannelCountError::OutOfRange { channel_count })) => {
            assert_eq!(channel_count, 257)
        }
        _ => panic!("Should have returned a channel count error"),
    }
    let mut one = bytes;
    one[12] = 0;
    assert!(FileHeaderSection::from_bytes(&one).is_ok());
}
