//! Key derivation and tokens.

use rsticulum::crypto::{hkdf_sha256, Token, TokenError};

fn bytes(s: &str) -> Vec<u8> {
    hex::decode(s).unwrap()
}

#[test]
fn test_rfc5869_test_case_1() {
    let ikm = bytes("0b0b0b0b0b0b0b0b0b0b0b0b0b0b0b0b0b0b0b0b0b0b");
    let salt = bytes("000102030405060708090a0b0c");
    let info = bytes("f0f1f2f3f4f5f6f7f8f9");

    let okm = hkdf_sha256(42, &ikm, Some(&salt), Some(&info));

    let expected = bytes(
        "3cb25f25faacd57a90434f64d0362f2a\
         2d2d0a90cf1a5a4c5db02d56ecc4c5bf\
         34007208d5b887185865",
    );
    assert_eq!(okm, expected);
}

#[test]
fn longer_inputs_and_output() {
    let ikm: Vec<u8> = (0x00..0x50).collect();
    let salt: Vec<u8> = (0x60..0xB0).collect();
    let info: Vec<u8> = (0xB0..=0xFF).collect();

    let okm = hkdf_sha256(82, &ikm, Some(&salt), Some(&info));

    let expected = bytes(
        "b11e398dc80327a1c8e7f78c596a4934\
         4f012eda2d4efad8a050cc4c19afa97c\
         59045a99cac7827271cb41c65e590e09\
         da3275600c2f09b8367793a9aca3db71\
         cc30c58179ec3e87c14c01d5c1f3434f\
         1d87",
    );
    assert_eq!(okm, expected);
}

#[test]
fn test_rfc5869_test_case_3() {
    let ikm = bytes("0b0b0b0b0b0b0b0b0b0b0b0b0b0b0b0b0b0b0b0b0b0b");

    let okm = hkdf_sha256(42, &ikm, Some(&[]), Some(&[]));

    let expected = bytes(
        "8da4e775a563c18f715f802a063c5a31\
         b8a11f5c5ee1879ec3454e5f3c738d2d\
         9d201395faa4b61a96c8",
    );
    assert_eq!(okm, expected);
}

#[test]
fn test_zeros_salt_empty_context() {
    let derive_from = b"test key material";
    let okm = hkdf_sha256(64, derive_from, None, None);
    assert_eq!(okm.len(), 64);

    let okm2 = hkdf_sha256(64, derive_from, None, None);
    assert_eq!(okm, okm2);

    let okm3 = hkdf_sha256(64, b"different material", None, None);
    assert_ne!(okm, okm3);
}

#[test]
fn test_short_output() {
    let derive_from = b"key";
    let okm = hkdf_sha256(16, derive_from, None, None);
    assert_eq!(okm.len(), 16);
}

fn test_key() -> [u8; 32] {
    let mut key = [0u8; 32];
    for i in 0..32 {
        key[i] = i as u8;
    }
    key
}

#[test]
fn test_roundtrip() {
    let key = test_key();
    let plaintext = b"Hello, RNS Token!";
    let token = Token::encrypt(plaintext, &key);
    let decrypted = Token::decrypt(&token, &key).unwrap();
    assert_eq!(decrypted, plaintext);
}

#[test]
fn test_empty_plaintext() {
    let key = test_key();
    let plaintext = b"";
    let token = Token::encrypt(plaintext, &key);
    let decrypted = Token::decrypt(&token, &key).unwrap();
    assert_eq!(decrypted, plaintext);
}

#[test]
fn test_large_payload() {
    let key = test_key();
    let plaintext = vec![0xABu8; 4096];
    let token = Token::encrypt(&plaintext, &key);
    let decrypted = Token::decrypt(&token, &key).unwrap();
    assert_eq!(decrypted, plaintext);
}

#[test]
fn test_wrong_key_fails() {
    let key = test_key();
    let mut wrong_key = test_key();
    wrong_key[0] ^= 1;

    let plaintext = b"secret";
    let token = Token::encrypt(plaintext, &key);
    let result = Token::decrypt(&token, &wrong_key);
    assert!(result.is_err());
}

#[test]
fn test_tampered_hmac_fails() {
    let key = test_key();
    let plaintext = b"secret";
    let mut token = Token::encrypt(plaintext, &key);
    let last = token.len() - 1;
    token[last] ^= 1;
    let result = Token::decrypt(&token, &key);
    assert_eq!(result, Err(TokenError::BadHmac));
}

#[test]
fn test_tampered_ciphertext_fails() {
    let key = test_key();
    let plaintext = b"secret message here";
    let mut token = Token::encrypt(plaintext, &key);
    token[16] ^= 1;
    let result = Token::decrypt(&token, &key);
    assert!(result.is_err());
}

#[test]
fn test_token_too_short() {
    let key = test_key();
    let result = Token::decrypt(&[0u8; 32], &key);
    assert_eq!(result, Err(TokenError::TooShort));
}

#[test]
fn a_token_is_sealed_as_openssl_seals_it() {
    let mut iv = [0u8; 16];
    for i in 0..16 {
        iv[i] = 16 + i as u8;
    }
    let token = Token::encrypt_with_iv(b"exact", &test_key(), &iv);
    assert_eq!(&token[..16], &iv);
    assert_eq!(token.len(), 16 + 16 + 32);
    assert_eq!(Token::decrypt(&token, &test_key()), Ok(b"exact".to_vec()));
}
