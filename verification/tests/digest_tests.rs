use dragonfly_client::digest::{digest_of, hex_encode, sha256_hex, Algorithm, Digest};

#[test]
fn hex_encode_writes_two_lower_case_digits_per_byte() {
    assert_eq!(hex_encode(&[0x00, 0x0f, 0xa5, 0xff]), "000fa5ff");
    assert_eq!(hex_encode(&[]), "");
}

#[test]
fn sha256_hex_of_empty_input() {
    assert_eq!(
        sha256_hex(b""),
        "e3b0c44298fc1c149afbf4c8996fb92427ae41e4649b934ca495991b7852b855"
    );
}

#[test]
fn sha256_hex_of_abc() {
    assert_eq!(
        sha256_hex(b"abc"),
        "ba7816bf8f01cfea414140de5dae2223b00361a396177a9cb410ff61f20015ad"
    );
}

#[test]
fn digest_string_names_the_algorithm() {
    let d = Digest::new(Algorithm::Sha256, "abcd".to_string());
    assert_eq!(d.to_string(), "sha256:abcd");
    assert_eq!(d.encoded(), "abcd");
    assert_eq!(d.algorithm(), Algorithm::Sha256);
    assert_eq!(
        digest_of(b"abc"),
        "sha256:ba7816bf8f01cfea414140de5dae2223b00361a396177a9cb410ff61f20015ad"
    );
}
