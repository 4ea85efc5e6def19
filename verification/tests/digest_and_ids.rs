use agent_api::digest::{build_replay_manifest, digest_sha256_hex, hex_encode, hmac_sha256_hex, normalize_signing_key};
use agent_api::ids::uuid_to_text;
use agent_api::text::{trim_non_empty, trim_string};

#[test]
fn hex_encode_writes_two_lower_case_digits_per_byte() {
    assert_eq!(hex_encode(&[0x00, 0x0f, 0xa5, 0xff]), "000fa5ff");
    assert_eq!(hex_encode(&[]), "");
}

#[test]
fn sha256_digest_of_abc_matches_the_standard_vector() {
    assert_eq!(
        digest_sha256_hex(b"abc"),
        "ba7816bf8f01cfea414140de5dae2223b00361a396177a9cb410ff61f20015ad"
    );
}

#[test]
fn sha256_digest_of_empty_input() {
    assert_eq!(
        digest_sha256_hex(b""),
        "e3b0c44298fc1c149afbf4c8996fb92427ae41e4649b934ca495991b7852b855"
    );
}

#[test]
fn hmac_sha256_matches_the_known_vector() {
    assert_eq!(
        hmac_sha256_hex(b"key", b"The quick brown fox jumps over the lazy dog"),
        "f7bc83f430538424b13298e6aa6fb143ef4d59a14946175997479dbc2d1a3cd8"
    );
}

#[test]
fn hmac_sha256_hashes_keys_longer_than_a_block() {
    // RFC 4231 test case 6: a 131-byte key of 0xaa.
    let key = vec![0xaau8; 131];
    assert_eq!(
        hmac_sha256_hex(&key, b"Test Using Larger Than Block-Size Key - Hash Key First"),
        "60e431591ee0b67f0d8a26aacbf5b77f8e0bc6213728c5140546040f0ee37f54"
    );
}

#[test]
fn replay_manifest_is_unsigned_without_a_key() {
    let m = build_replay_manifest(b"abc", None);
    assert_eq!(m.version, "v1");
    assert_eq!(m.signing_mode, "unsigned");
    assert!(m.signature.is_none());
    assert_eq!(
        m.digest_sha256,
        "ba7816bf8f01cfea414140de5dae2223b00361a396177a9cb410ff61f20015ad"
    );
}

#[test]
fn replay_manifest_is_signed_with_a_key() {
    let m = build_replay_manifest(b"The quick brown fox jumps over the lazy dog", Some("key"));
    assert_eq!(m.signing_mode, "hmac-sha256");
    assert_eq!(
        m.signature.as_deref(),
        Some("f7bc83f430538424b13298e6aa6fb143ef4d59a14946175997479dbc2d1a3cd8")
    );
}

#[test]
fn signing_key_is_trimmed_and_blank_is_none() {
    assert_eq!(normalize_signing_key(Some("  secret \n")), Some("secret".to_string()));
    assert_eq!(normalize_signing_key(Some("   ")), None);
    assert_eq!(normalize_signing_key(None), None);
}

#[test]
fn uuid_text_is_hyphenated_lower_case() {
    assert_eq!(
        uuid_to_text(0x0123_4567_89ab_cdef_0123_4567_89ab_cdef),
        "01234567-89ab-cdef-0123-456789abcdef"
    );
    assert_eq!(uuid_to_text(0), "00000000-0000-0000-0000-000000000000");
}

#[test]
fn trim_non_empty_trims_and_drops_blank() {
    assert_eq!(trim_non_empty(Some("  a b  ")), Some("a b".to_string()));
    assert_eq!(trim_non_empty(Some("\t\n ")), None);
    assert_eq!(trim_non_empty(None), None);
    assert_eq!(trim_string("\u{2003}x\u{3000}"), "x");
}
