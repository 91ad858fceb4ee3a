use format_galaxy::catalog::FormatId;
use format_galaxy::container::{classify, decode_container, encode_container, save_in_container, FileType};
use format_galaxy::errors::HostError;

#[test]
fn container_round_trip_literal() {
    let bytes: Vec<u8> = vec![
        0x46, 0x4D, 0x54, 0x47, 0x41, 0x4C, 0x76, 0x31, 0x2A, 0x00, 0x00, 0x00, 0x00, 0x00, 0x00,
        0x00, 0xDE, 0xAD, 0xBE, 0xEF,
    ];
    let (fid, payload) = decode_container(&bytes).unwrap();
    assert_eq!(fid, FormatId(42));
    assert_eq!(payload, vec![0xDE, 0xAD, 0xBE, 0xEF]);
    let again = encode_container(fid, &payload);
    assert_eq!(again, bytes);
}

#[test]
fn malformed_container_short_zeroes() {
    let bytes: Vec<u8> = vec![0x00; 8];
    assert_eq!(decode_container(&bytes), Err(HostError::MalformedContainer));
}

#[test]
fn malformed_container_bad_magic() {
    let mut bytes: Vec<u8> = vec![0x00; 20];
    bytes[0] = 0x46;
    assert_eq!(decode_container(&bytes), Err(HostError::MalformedContainer));
}

#[test]
fn truncated_container_with_magic_is_malformed() {
    let bytes: Vec<u8> = vec![0x46, 0x4D, 0x54, 0x47, 0x41, 0x4C, 0x76, 0x31, 0x2A];
    assert_eq!(decode_container(&bytes), Err(HostError::MalformedContainer));
    match classify(&bytes, Some("fg".to_string())) {
        Err(HostError::MalformedContainer) => {}
        other => panic!("classification accepted a truncated container: {:?}", other),
    }
}

#[test]
fn encode_then_decode_various() {
    let cases: Vec<(u64, Vec<u8>)> = vec![
        (0, vec![]),
        (1, vec![7]),
        (u64::MAX, vec![0, 1, 2, 3, 255]),
    ];
    for (id, payload) in cases {
        let bytes = encode_container(FormatId(id), &payload);
        let (fid, p) = decode_container(&bytes).unwrap();
        assert_eq!(fid, FormatId(id));
        assert_eq!(p, payload);
    }
}

#[test]
fn classify_untagged_keeps_extension_hint() {
    match classify(&[1, 2, 3], Some("txt".to_string())) {
        Ok(FileType::Ext(Some(e))) => assert_eq!(e, "txt"),
        other => panic!("unexpected classification: {:?}", other),
    }
    match classify(&[], None) {
        Ok(FileType::Ext(None)) => {}
        other => panic!("unexpected classification: {:?}", other),
    }
}

#[test]
fn classify_tagged_reads_format_id() {
    let bytes = encode_container(FormatId(9), &vec![1, 2]);
    match classify(&bytes, None) {
        Ok(FileType::FormatId(fid)) => assert_eq!(fid, FormatId(9)),
        other => panic!("unexpected classification: {:?}", other),
    }
}

#[test]
fn save_mode_policy() {
    let tagged = FileType::FormatId(FormatId(1));
    let hinted = FileType::Ext(Some("txt".to_string()));
    let bare = FileType::Ext(None);
    assert!(save_in_container(&tagged, false));
    assert!(save_in_container(&tagged, true));
    assert!(save_in_container(&hinted, true));
    assert!(!save_in_container(&hinted, false));
    assert!(save_in_container(&bare, true));
    assert!(!save_in_container(&bare, false));
}
