use marchiver::digest::{hex_digest, hex_sha256, validate_hash, FileHasher};

#[test]
fn digest_of_nothing() {
    assert_eq!(
        hex_sha256(&Vec::new()),
        "e3b0c44298fc1c149afbf4c8996fb92427ae41e4649b934ca495991b7852b855"
    );
}

#[test]
fn digest_of_a_short_message() {
    assert_eq!(
        hex_sha256(&b"abc".to_vec()),
        "ba7816bf8f01cfea414140de5dae2223b00361a396177a9cb410ff61f20015ad"
    );
}

#[test]
fn digest_does_not_depend_on_how_the_file_is_read() {
    let message: Vec<u8> = (0..1000_u32).map(|n| n as u8).collect();
    let whole = hex_sha256(&message);
    for size in [1, 7, 64, 999, 1000] {
        let mut hasher = FileHasher::new();
        for part in message.chunks(size) {
            assert!(hasher.has_room(part.len()));
            hasher.update(part);
        }
        assert_eq!(hasher.finish(), whole);
    }
}

#[test]
fn hexadecimal_has_two_lower_case_digits_for_each_byte() {
    assert_eq!(hex_digest(&[]), "");
    assert_eq!(hex_digest(&[0, 1, 0x0f, 0x10, 0xab, 0xff]), "00010f10abff");
    let bytes: Vec<u8> = (0..=255).collect();
    let expected: String = bytes.iter().map(|byte| format!("{byte:02x}")).collect();
    assert_eq!(hex_digest(&bytes), expected);
}

#[test]
fn hashes_have_sixty_four_hexadecimal_characters() {
    let message = "SHA-256 value must contain 64 hexadecimal characters".to_owned();
    assert_eq!(validate_hash(&"0aF".repeat(21)), Err(message.clone()));
    assert_eq!(validate_hash(&"a".repeat(64)), Ok(()));
    assert_eq!(validate_hash(&"0123456789abcdefABCDEF".repeat(3)[..64]), Ok(()));
    assert_eq!(validate_hash(&"a".repeat(65)), Err(message.clone()));
    assert_eq!(validate_hash(&"g".repeat(64)), Err(message.clone()));
    assert_eq!(validate_hash(""), Err(message.clone()));
    assert_eq!(validate_hash(&"\u{e9}".repeat(32)), Err(message.clone()));
    assert_eq!(validate_hash(&"\u{ff11}".repeat(64)), Err(message));
}
