use bifrost::crypto::{counter_of_nonce, decrypt, encrypt, parse_bundle, Error, NonceCounter};
use bifrost::hexcode::{hex_decode, hex_encode};
use bifrost::ids::new_id;

fn key_a() -> Vec<u8> {
    b"0123456789abcdef0123456789abcdef".to_vec()
}

fn key_b() -> Vec<u8> {
    b"fedcba9876543210fedcba9876543210".to_vec()
}

#[test]
fn encrypt_decrypt_round_trip() {
    let key = key_a();
    let mut nonces = NonceCounter::new(0);
    let blob = encrypt("hello-world", &key, &mut nonces).unwrap();
    let back = decrypt(blob.as_str(), &key).unwrap();
    assert_eq!(back, "hello-world");
}

#[test]
fn encrypt_decrypt_empty_payload() {
    let key = key_a();
    let mut nonces = NonceCounter::new(7);
    let blob = encrypt("", &key, &mut nonces).unwrap();
    let back = decrypt(blob.as_str(), &key).unwrap();
    assert_eq!(back, "");
}

#[test]
fn encrypt_decrypt_unicode_payload() {
    let key = key_a();
    let mut nonces = NonceCounter::new(0);
    let blob = encrypt("s\u{00e9}cr\u{00e8}t \u{2713}", &key, &mut nonces).unwrap();
    let back = decrypt(blob.as_str(), &key).unwrap();
    assert_eq!(back, "s\u{00e9}cr\u{00e8}t \u{2713}");
}

#[test]
fn decrypt_with_wrong_key_fails() {
    let key = key_a();
    let other = key_b();
    let mut nonces = NonceCounter::new(0);
    let blob = encrypt("hello-world", &key, &mut nonces).unwrap();
    assert_eq!(decrypt(blob.as_str(), &other), Err(Error::CryptoError));
}

#[test]
fn encrypt_rejects_short_key() {
    let key = b"too-short".to_vec();
    let mut nonces = NonceCounter::new(0);
    assert_eq!(encrypt("x", &key, &mut nonces), Err(Error::CryptoError));
}

#[test]
fn decrypt_rejects_short_key() {
    let key = b"too-short".to_vec();
    assert_eq!(decrypt("anything", &key), Err(Error::CryptoError));
}

/// Altering any single position of the stored blob — in the nonce, the
/// separator, the ciphertext or the tag — makes decryption fail; it
/// never succeeds with altered plaintext.
#[test]
fn tampered_blob_fails() {
    let key = key_a();
    let mut nonces = NonceCounter::new(0);
    let blob = encrypt("hello-world", &key, &mut nonces).unwrap();
    let chars: Vec<char> = blob.chars().collect();
    for pos in 0..chars.len() {
        let mut tampered = chars.clone();
        tampered[pos] = if tampered[pos] == '0' { '1' } else { '0' };
        let tampered: String = tampered.into_iter().collect();
        assert_ne!(tampered, blob);
        assert_eq!(decrypt(tampered.as_str(), &key), Err(Error::CryptoError));
    }
}

#[test]
fn decrypt_rejects_malformed_blobs() {
    let key = key_a();
    assert_eq!(decrypt("", &key), Err(Error::CryptoError));
    assert_eq!(decrypt("not a bundle", &key), Err(Error::CryptoError));
    let no_colon = "0".repeat(80);
    assert_eq!(decrypt(no_colon.as_str(), &key), Err(Error::CryptoError));
    let bad_hex = format!("{}:{}", "z".repeat(24), "0".repeat(32));
    assert_eq!(decrypt(bad_hex.as_str(), &key), Err(Error::CryptoError));
}

#[test]
fn blob_has_nonce_colon_ciphertext_shape() {
    let key = key_a();
    let mut nonces = NonceCounter::new(5);
    let blob = encrypt("abc", &key, &mut nonces).unwrap();
    let chars: Vec<char> = blob.chars().collect();
    assert_eq!(chars[24], ':');
    // 24 hex chars of nonce, a colon, then (3 + 16) bytes of sealed text.
    assert_eq!(chars.len(), 24 + 1 + 2 * (3 + 16));
    let parts = parse_bundle(blob.as_str()).unwrap();
    assert_eq!(parts.0.len(), 12);
    assert_eq!(parts.1.len(), 3 + 16);
    // The counter value 5 sits in the last nonce byte.
    assert_eq!(parts.0, vec![0, 0, 0, 0, 0, 0, 0, 0, 0, 0, 0, 5]);
}

#[test]
fn counter_recovered_from_nonce() {
    assert_eq!(
        counter_of_nonce(&vec![0, 0, 0, 0, 0, 0, 0, 0, 0, 0, 1, 2]),
        Some(258)
    );
    assert_eq!(counter_of_nonce(&vec![0, 0, 0]), None);
    assert_eq!(
        counter_of_nonce(&vec![9, 0, 0, 0, 0, 0, 0, 0, 0, 0, 0, 0]),
        None
    );
    let mut nonces = NonceCounter::new(77);
    let nonce = nonces.advance();
    assert_eq!(counter_of_nonce(&nonce), Some(77));
}

#[test]
fn nonce_counter_never_repeats() {
    let mut nonces = NonceCounter::new(0);
    let n1 = nonces.advance();
    let n2 = nonces.advance();
    assert_ne!(n1, n2);
    assert_eq!(nonces.count(), 2);
}

#[test]
fn two_encryptions_use_distinct_nonces() {
    let key = key_a();
    let mut nonces = NonceCounter::new(0);
    let blob1 = encrypt("same payload", &key, &mut nonces).unwrap();
    let blob2 = encrypt("same payload", &key, &mut nonces).unwrap();
    let p1 = parse_bundle(blob1.as_str()).unwrap();
    let p2 = parse_bundle(blob2.as_str()).unwrap();
    assert_ne!(p1.0, p2.0);
    assert_ne!(blob1, blob2);
}

#[test]
fn hex_encode_exact_values() {
    assert_eq!(hex_encode(&vec![0xbe, 0xef]), "beef");
    assert_eq!(hex_encode(&vec![]), "");
    assert_eq!(hex_encode(&vec![0x00, 0x0f, 0xa0]), "000fa0");
}

#[test]
fn hex_decode_exact_values() {
    assert_eq!(hex_decode("beef"), Some(vec![0xbe, 0xef]));
    assert_eq!(hex_decode(""), Some(vec![]));
    assert_eq!(hex_decode("000fa0"), Some(vec![0x00, 0x0f, 0xa0]));
    assert_eq!(hex_decode("BEEF"), None);
    assert_eq!(hex_decode("abc"), None);
    assert_eq!(hex_decode("zz"), None);
}

#[test]
fn hex_round_trip() {
    let bytes: Vec<u8> = (0u8..=255).collect();
    let text = hex_encode(&bytes);
    assert_eq!(hex_decode(text.as_str()), Some(bytes));
}

#[test]
fn new_id_shape() {
    let id = new_id("sk");
    let chars: Vec<char> = id.chars().collect();
    assert_eq!(chars.len(), 2 + 1 + 28);
    assert_eq!(&id[0..3], "sk_");
    assert!(chars[3..].iter().all(|c| c.is_ascii_alphanumeric()));
    let other = new_id("sk");
    assert_ne!(id, other);
}
