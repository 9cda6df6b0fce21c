use base64::engine::general_purpose::STANDARD_NO_PAD;
use base64::Engine;
use savi::cipher::{AES, CryptoError};

#[test]
fn generated_key_is_base64_of_32_bytes() {
    let cipher = AES::new(None);
    let key = cipher.get_key().clone();
    assert_eq!(key.len(), 43);
    assert!(!key.contains('='));
    let raw = STANDARD_NO_PAD.decode(&key).unwrap();
    assert_eq!(raw.len(), 32);
}

#[test]
fn given_key_is_kept() {
    let cipher = AES::new(Some(String::from("abc")));
    assert_eq!(cipher.get_key(), "abc");
}

#[test]
fn encrypt_then_decrypt_returns_plaintext() {
    let cipher = AES::new(None);
    for msg in ["", "hello world", "id\u{AC}0\n", "h\u{E9}llo \u{4E16}\u{754C}"] {
        let blob = cipher.encrypt(String::from(msg)).unwrap();
        assert_ne!(blob, msg);
        assert_eq!(cipher.decrypt(blob).unwrap(), msg);
    }
}

#[test]
fn blob_is_one_line_unpadded_base64_of_nonce_and_ciphertext() {
    let cipher = AES::new(None);
    let blob = cipher.encrypt(String::from("abcdef")).unwrap();
    assert!(!blob.contains('\n'));
    assert!(!blob.contains('='));
    let raw = STANDARD_NO_PAD.decode(&blob).unwrap();
    // 12-byte nonce, 6 bytes of ciphertext, 16-byte tag
    assert_eq!(raw.len(), 12 + 6 + 16);
}

#[test]
fn two_encryptions_of_one_message_differ() {
    // a fresh random nonce each time
    let cipher = AES::new(None);
    let a = cipher.encrypt(String::from("same")).unwrap();
    let b = cipher.encrypt(String::from("same")).unwrap();
    assert_ne!(a, b);
    assert_eq!(cipher.decrypt(a).unwrap(), "same");
    assert_eq!(cipher.decrypt(b).unwrap(), "same");
}

#[test]
fn decrypting_with_a_different_key_fails_without_panic() {
    let hosting = AES::new(None);
    let other = AES::new(None);
    let blob = hosting.encrypt(String::from("secret")).unwrap();
    assert_eq!(other.decrypt(blob), Err(CryptoError));
}

#[test]
fn tampered_blob_is_rejected() {
    let cipher = AES::new(None);
    let blob = cipher.encrypt(String::from("payload")).unwrap();
    let mut tampered: Vec<char> = blob.chars().collect();
    let flip = tampered.len() - 1;
    tampered[flip] = if tampered[flip] == 'A' { 'B' } else { 'A' };
    let tampered: String = tampered.into_iter().collect();
    assert_eq!(cipher.decrypt(tampered), Err(CryptoError));
}

#[test]
fn garbage_blob_is_rejected() {
    let cipher = AES::new(None);
    assert_eq!(cipher.decrypt(String::from("!!! not base64 !!!")), Err(CryptoError));
    // valid base64 but shorter than a nonce
    assert_eq!(cipher.decrypt(String::from("AAAA")), Err(CryptoError));
}

#[test]
fn malformed_key_errors_instead_of_panicking() {
    let cipher = AES::new(Some(String::from("not a key")));
    assert_eq!(cipher.encrypt(String::from("x")), Err(CryptoError));
    assert_eq!(cipher.decrypt(String::from("AAAAAAAAAAAAAAAAAAAAAA")), Err(CryptoError));
    // base64 of fewer than 32 bytes is no key either
    let short = STANDARD_NO_PAD.encode([7u8; 16]);
    let cipher = AES::new(Some(short));
    assert_eq!(cipher.encrypt(String::from("x")), Err(CryptoError));
}
