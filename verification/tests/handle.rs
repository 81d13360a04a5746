use greppy::base64url;
use greppy::hash::sha256_hex;
use greppy::handle::{EditHandle, HandleError, HANDLE_PREFIX};

fn handle(content: &[u8]) -> EditHandle {
    EditHandle::for_range("/ws", "src/a.rs", content, 3, 8).unwrap()
}

#[test]
fn roundtrip_encode_decode() {
    let payload = br#"{"workspace_root":"/ws","path":"src/a.rs"}"#;
    let token = EditHandle::encode(payload);
    assert!(token.starts_with(HANDLE_PREFIX));
    assert_eq!(EditHandle::decode_payload(&token).unwrap(), payload.to_vec());
}

#[test]
fn verify_accepts_unchanged_file() {
    let content = b"fn main() {}\n";
    assert_eq!(handle(content).verify(content).unwrap(), (3, 8));
}

#[test]
fn verify_rejects_any_byte_change() {
    let content = b"fn main() {}\n";
    let h = handle(content);
    let mut mutated = content.to_vec();
    mutated[0] = b'F';
    assert!(h.verify(&mutated).is_err());
}

#[test]
fn decode_rejects_garbage() {
    assert_eq!(EditHandle::decode_payload("geh1:!!!!"), Err(HandleError::InvalidBase64));
    assert_eq!(EditHandle::decode_payload("nope"), Err(HandleError::NotAHandle));
}

#[test]
fn range_outside_file_is_refused() {
    assert_eq!(
        EditHandle::for_range("/ws", "a", b"abc", 2, 4).unwrap_err(),
        HandleError::RangeOutsideFile { byte_start: 2, byte_end: 4, file_len: 3 }
    );
    assert!(EditHandle::for_range("/ws", "a", b"abc", 3, 2).is_err());
}

#[test]
fn handle_records_file_and_target_hashes() {
    let content = b"fn main() {}\n";
    let h = handle(content);
    assert_eq!(h.file_sha256, sha256_hex(content));
    assert_eq!(h.target_sha256, sha256_hex(b"main("));
    assert_eq!(
        sha256_hex(b""),
        "e3b0c44298fc1c149afbf4c8996fb92427ae41e4649b934ca495991b7852b855"
    );
}

#[test]
fn stale_target_and_range_are_distinguished() {
    let content = b"fn main() {}\n";
    let mut h = handle(content);
    h.target_sha256 = sha256_hex(b"other");
    assert_eq!(h.verify(content), Err(HandleError::StaleTarget));
    let mut h = handle(content);
    h.byte_end = 100;
    assert_eq!(h.verify(content), Err(HandleError::StaleRange));
    let mut h = handle(content);
    h.byte_start = 9;
    h.byte_end = 4;
    assert_eq!(h.verify(content), Err(HandleError::StaleRange));
}

#[test]
fn base64url_known_vectors_and_round_trip() {
    assert_eq!(base64url::encode(b"hello"), "aGVsbG8");
    assert_eq!(base64url::encode(b"\xfb\xff"), "-_8");
    assert_eq!(base64url::decode("aGVsbG8").unwrap(), b"hello".to_vec());
    assert_eq!(base64url::decode("a"), None);
    assert_eq!(base64url::decode(""), Some(vec![]));
    for len in 0..40u8 {
        let data: Vec<u8> = (0..len).map(|i| i.wrapping_mul(37).wrapping_add(200)).collect();
        assert_eq!(base64url::decode(&base64url::encode(&data)), Some(data));
    }
}
