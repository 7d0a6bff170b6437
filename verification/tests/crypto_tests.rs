use cliphop::crypto::{
    decrypt, encrypt, generate_key, hex_decode_32, key_from_secret, CryptoError, HexKeyError,
};

fn test_key() -> [u8; 32] {
    [42u8; 32]
}

#[test]
fn encrypt_decrypt_round_trip() {
    let key = test_key();
    let plaintext = b"hello clipboard";
    let (nonce, ciphertext) = encrypt(&key, plaintext).expect("encrypt failed");
    let recovered = decrypt(&key, &nonce, &ciphertext).expect("decrypt failed");
    assert_eq!(recovered, plaintext);
}

#[test]
fn encrypt_produces_unique_nonces() {
    let key = test_key();
    let (nonce1, _) = encrypt(&key, b"same text").unwrap();
    let (nonce2, _) = encrypt(&key, b"same text").unwrap();
    assert_ne!(nonce1, nonce2, "nonces must be unique per call");
}

#[test]
fn decrypt_corrupt_ciphertext_returns_err() {
    let key = test_key();
    let nonce = [0u8; 12];
    let bad_ciphertext = vec![0u8; 32];
    let result = decrypt(&key, &nonce, &bad_ciphertext);
    assert!(matches!(result, Err(CryptoError::Decrypt)));
}

// ── Further cases ────────────────────────────────────────────────────

#[test]
fn ciphertext_is_plaintext_plus_tag_and_differs_from_it() {
    let key = test_key();
    let (_, ct) = encrypt(&key, b"abcdef").unwrap();
    assert_eq!(ct.len(), 6 + 16);
    assert_ne!(&ct[..6], b"abcdef");
}

#[test]
fn decrypt_with_wrong_key_fails() {
    let (nonce, ct) = encrypt(&[1u8; 32], b"secret").unwrap();
    assert!(matches!(decrypt(&[2u8; 32], &nonce, &ct), Err(CryptoError::Decrypt)));
}

#[test]
fn decrypt_short_ciphertext_fails() {
    assert!(matches!(decrypt(&test_key(), &[0u8; 12], &[1u8; 15]), Err(CryptoError::Decrypt)));
}

#[test]
fn hex_key_decodes() {
    let hex = "00112233445566778899aabbccddeeffFFEEDDCCBBAA99887766554433221100";
    let key = hex_decode_32(hex).unwrap();
    assert_eq!(key[0], 0x00);
    assert_eq!(key[1], 0x11);
    assert_eq!(key[15], 0xff);
    assert_eq!(key[16], 0xff);
    assert_eq!(key[31], 0x00);
}

#[test]
fn hex_key_accepts_plus_sign_as_parse_does() {
    let mut hex = "+f".to_string();
    hex.push_str(&"0".repeat(62));
    let key = hex_decode_32(&hex).unwrap();
    assert_eq!(key[0], 0x0f);
    assert_eq!(key[1], 0x00);
}

#[test]
fn hex_key_errors() {
    assert_eq!(hex_decode_32("abcd"), Err(HexKeyError::WrongLength(4)));
    let bad = format!("zz{}", "0".repeat(62));
    assert_eq!(hex_decode_32(&bad), Err(HexKeyError::InvalidDigit));
    let minus = format!("-1{}", "0".repeat(62));
    assert_eq!(hex_decode_32(&minus), Err(HexKeyError::InvalidDigit));
}

#[test]
fn stored_key_needs_32_bytes() {
    assert_eq!(key_from_secret(&[7u8; 32]), Some([7u8; 32]));
    assert_eq!(key_from_secret(&[7u8; 31]), None);
    assert_eq!(key_from_secret(&[]), None);
}

#[test]
fn generated_keys_differ() {
    assert_ne!(generate_key(), generate_key());
}

#[test]
fn hex_key_group_splitting_a_character_is_not_utf8() {
    // "é" is two bytes; starting at an odd offset it straddles two groups.
    let misaligned = format!("0{}{}", "\u{e9}", "0".repeat(61));
    assert_eq!(misaligned.len(), 64);
    // The group is "0" and the first byte of "é": the input ends inside a
    // character after one valid byte.
    assert_eq!(
        hex_decode_32(&misaligned),
        Err(HexKeyError::InvalidUtf8 { valid_up_to: 1, error_len: None })
    );
    // A three-byte character at a group's start: the group ends inside it.
    let euro = format!("{}{}", "\u{20ac}", "0".repeat(61));
    assert_eq!(euro.len(), 64);
    assert_eq!(
        hex_decode_32(&euro),
        Err(HexKeyError::InvalidUtf8 { valid_up_to: 0, error_len: None })
    );
    // Aligned, it is one group of valid UTF-8 that is no hex number.
    let aligned = format!("{}{}", "\u{e9}", "0".repeat(62));
    assert_eq!(hex_decode_32(&aligned), Err(HexKeyError::InvalidDigit));
    // The first refused group decides the error.
    let first_digit = format!("zz0{}{}", "\u{e9}", "0".repeat(59));
    assert_eq!(hex_decode_32(&first_digit), Err(HexKeyError::InvalidDigit));
}
