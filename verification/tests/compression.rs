use psd::compression::RLECompressed;

fn decode_all(bytes: &[u8]) -> Vec<u8> {
    let mut decoder = RLECompressed::new(bytes);
    let mut out = Vec::new();
    while let Some(b) = decoder.next() {
        out.push(b);
    }
    out
}

#[test]
fn test_empty() {
    let empty: Vec<u8> = vec![];
    assert_eq!(decode_all(&empty), empty);
}

#[test]
fn test_literal() {
    let value = vec![0, 1, 0, 2, 0, 3, 0, 4];
    assert_eq!(decode_all(&value), vec![1, 2, 3, 4]);
}

#[test]
fn test_repeat() {
    let value = vec![253, 1];
    assert_eq!(decode_all(&value), vec![1, 1, 1, 1]);
}
