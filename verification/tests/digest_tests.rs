use updatekit::digest::{digest_hex, verify_payload};

const ABC_SHA256: &str = "ba7816bf8f01cfea414140de5dae2223b00361a396177a9cb410ff61f20015ad";

#[test]
fn digest_hex_matches_known_vector() {
    assert_eq!(digest_hex(b"abc"), ABC_SHA256);
}

#[test]
fn digest_hex_of_empty_input() {
    assert_eq!(
        digest_hex(b""),
        "e3b0c44298fc1c149afbf4c8996fb92427ae41e4649b934ca495991b7852b855"
    );
}

#[test]
fn verify_payload_accepts_matching_digest() {
    assert!(verify_payload(b"abc", ABC_SHA256));
}

#[test]
fn verify_payload_is_case_insensitive() {
    let upper = ABC_SHA256.to_uppercase();
    assert!(verify_payload(b"abc", upper.as_str()));
}

#[test]
fn verify_payload_rejects_wrong_digest() {
    assert!(!verify_payload(
        b"abc",
        "0000000000000000000000000000000000000000000000000000000000000000"
    ));
    assert!(!verify_payload(b"abc", ""));
    assert!(!verify_payload(b"abcd", ABC_SHA256));
}
