use resource_sync::hashing::{
    content_hash_hex, file_fingerprint_matches, hash_matches, to_hex_string, ContentHasher,
};

#[test]
fn hex_of_empty_is_empty() {
    assert_eq!(to_hex_string(&Vec::new()), "");
}

#[test]
fn hex_of_bytes_exact() {
    assert_eq!(to_hex_string(&vec![0x00u8]), "00");
    assert_eq!(to_hex_string(&vec![0xabu8, 0x01, 0xff]), "ab01ff");
    assert_eq!(to_hex_string(&vec![0x0fu8, 0xf0]), "0ff0");
}

#[test]
fn sha256_of_empty_input() {
    assert_eq!(
        content_hash_hex(&Vec::new()),
        "e3b0c44298fc1c149afbf4c8996fb92427ae41e4649b934ca495991b7852b855"
    );
}

#[test]
fn sha256_of_abc() {
    assert_eq!(
        content_hash_hex(&b"abc".to_vec()),
        "ba7816bf8f01cfea414140de5dae2223b00361a396177a9cb410ff61f20015ad"
    );
}

#[test]
fn chunked_hashing_equals_one_shot() {
    let mut h = ContentHasher::new();
    h.absorb(b"ab");
    h.absorb(b"c");
    assert_eq!(
        h.finish_hex(),
        "ba7816bf8f01cfea414140de5dae2223b00361a396177a9cb410ff61f20015ad"
    );
}

#[test]
fn chunked_hashing_of_nothing() {
    let h = ContentHasher::new();
    assert_eq!(
        h.finish_hex(),
        "e3b0c44298fc1c149afbf4c8996fb92427ae41e4649b934ca495991b7852b855"
    );
}

#[test]
fn hash_matches_accepts_exact_rendering() {
    let digest = vec![0xabu8, 0x01];
    assert!(hash_matches(&digest, "ab01"));
}

#[test]
fn hash_matches_rejects_wrong_length_case_and_digits() {
    let digest = vec![0xabu8, 0x01];
    assert!(!hash_matches(&digest, "ab0"));
    assert!(!hash_matches(&digest, "ab012"));
    assert!(!hash_matches(&digest, "AB01"));
    assert!(!hash_matches(&digest, "ab02"));
    assert!(!hash_matches(&digest, ""));
}

#[test]
fn fingerprint_matches_real_content() {
    let content = b"abc".to_vec();
    let expected =
        String::from("ba7816bf8f01cfea414140de5dae2223b00361a396177a9cb410ff61f20015ad");
    assert!(file_fingerprint_matches(&content, &expected));
    let wrong =
        String::from("e3b0c44298fc1c149afbf4c8996fb92427ae41e4649b934ca495991b7852b855");
    assert!(!file_fingerprint_matches(&content, &wrong));
}
