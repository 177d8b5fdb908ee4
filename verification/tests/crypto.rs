use sspm::codec::{decode_base64, encode_base64, try_decode_base64};
use sspm::model::{File, VaultError};
use sspm::secrets::{
    check_master_password, decrypt, decryptable, encrypt, gen_salt, master_hash, try_decrypt,
};
use sspm::vault::{new_entry, new_user};

fn key() -> Vec<u8> {
    (0u8..32).collect()
}

fn key_text() -> String {
    encode_base64(key())
}

#[test]
fn base64_known_values() {
    assert_eq!(encode_base64(b"hello".to_vec()), "aGVsbG8=");
    assert_eq!(encode_base64(Vec::new()), "");
    assert_eq!(encode_base64(vec![0xff, 0xfe]), "//4=");
    assert_eq!(encode_base64(b"abc".to_vec()), "YWJj");
    assert_eq!(encode_base64(b"a".to_vec()), "YQ==");
}

#[test]
fn base64_round_trip() {
    for bytes in [vec![], vec![0u8], vec![1, 2], vec![250, 251, 252, 253], (0u8..=255).collect()] {
        let text = encode_base64(bytes.clone());
        assert_eq!(decode_base64(&text), bytes);
        assert_eq!(try_decode_base64(&text), Some(bytes));
    }
}

#[test]
fn base64_rejects_non_canonical_text() {
    for bad in ["abc", "a===", "aGVsbG9=", "aGVsbG8", "aGV sbG8=", "####"] {
        assert_eq!(try_decode_base64(&bad.to_string()), None, "{bad}");
    }
}

#[test]
fn salt_is_22_salt_characters() {
    let a = gen_salt();
    let b = gen_salt();
    assert_eq!(a.chars().count(), 22);
    assert!(a.chars().all(|c| c.is_ascii_alphanumeric() || c == '+' || c == '/'));
    assert_ne!(a, b);
}

#[test]
fn master_hash_is_deterministic_and_separates_keys() {
    let salt = "c29tZXNhbHRzb21lc2FsdA".to_string();
    let (enc1, auth1) = master_hash(&"correct horse".to_string(), &salt);
    let (enc2, auth2) = master_hash(&"correct horse".to_string(), &salt);
    assert_eq!(enc1, enc2);
    assert_eq!(auth1, auth2);
    assert_ne!(enc1, auth1);
    assert_eq!(enc1.len(), 44);
    assert_eq!(decode_base64(&enc1).len(), 32);
    assert_eq!(decode_base64(&auth1).len(), 32);
    let (enc3, auth3) = master_hash(&"correct horsf".to_string(), &salt);
    assert_ne!(enc1, enc3);
    assert_ne!(auth1, auth3);
    let (enc4, _) = master_hash(&"correct horse".to_string(), &"b3RoZXJzYWx0b3RoZXJzYQ".to_string());
    assert_ne!(enc1, enc4);
}

#[test]
fn owner_password_opens_new_vault() {
    let f = new_user(&"s3cret-pass".to_string(), "alice".to_string());
    assert_eq!(f.user, "alice");
    assert!(f.vault.is_empty());
    assert_eq!(f.salt.len(), 22);
    let (enc, auth) = master_hash(&"s3cret-pass".to_string(), &f.salt);
    assert_eq!(f.master_password, auth);
    assert_eq!(check_master_password(&"s3cret-pass".to_string(), &f), Ok(enc));
}

#[test]
fn wrong_master_password_is_rejected() {
    let f = new_user(&"s3cret-pass".to_string(), "alice".to_string());
    assert_eq!(
        check_master_password(&"s3cret-pasS".to_string(), &f),
        Err(VaultError::IncorrectPassword)
    );
}

#[test]
fn invalid_salt_is_rejected() {
    let f = File {
        master_password: "x".to_string(),
        user: "bob".to_string(),
        salt: "bad salt!".to_string(),
        vault: Vec::new(),
    };
    assert_eq!(check_master_password(&"anything".to_string(), &f), Err(VaultError::InvalidSalt));
}

#[test]
fn encrypt_then_decrypt_gives_password_back() {
    let (cipher, nonce) = encrypt(&key(), "hunter2 ünïcödé".to_string()).unwrap();
    assert_eq!(nonce.len(), 12);
    assert_eq!(cipher.len(), "hunter2 ünïcödé".len() + 16);
    assert_ne!(&cipher[..cipher.len() - 16], "hunter2 ünïcödé".as_bytes());
    let nonce_text = encode_base64(nonce);
    let cipher_text = encode_base64(cipher);
    assert!(decryptable(&key(), &nonce_text, &cipher_text));
    assert_eq!(decrypt(&key(), &nonce_text, &cipher_text), Ok("hunter2 ünïcödé".to_string()));
}

#[test]
fn encryption_uses_fresh_nonces() {
    let (c1, n1) = encrypt(&key(), "same".to_string()).unwrap();
    let (c2, n2) = encrypt(&key(), "same".to_string()).unwrap();
    assert_ne!(n1, n2);
    assert_ne!(c1, c2);
}

#[test]
fn decrypt_with_wrong_key_fails() {
    let (cipher, nonce) = encrypt(&key(), "pw".to_string()).unwrap();
    let other: Vec<u8> = vec![7u8; 32];
    assert_eq!(
        decrypt(&other, &encode_base64(nonce), &encode_base64(cipher)),
        Err(VaultError::Decryption)
    );
}

#[test]
fn decrypt_of_tampered_ciphertext_fails() {
    let (mut cipher, nonce) = encrypt(&key(), "pw".to_string()).unwrap();
    cipher[0] ^= 1;
    assert_eq!(
        try_decrypt(&key(), &encode_base64(nonce), &encode_base64(cipher)),
        Some(Err(VaultError::Decryption))
    );
}

#[test]
fn try_decrypt_refuses_malformed_input() {
    let (cipher, nonce) = encrypt(&key(), "pw".to_string()).unwrap();
    let cipher_text = encode_base64(cipher);
    assert_eq!(try_decrypt(&key(), &"not base64!".to_string(), &cipher_text), None);
    assert_eq!(try_decrypt(&key(), &encode_base64(vec![1, 2, 3]), &cipher_text), None);
    assert_eq!(try_decrypt(&key(), &encode_base64(nonce.clone()), &"%%%".to_string()), None);
    assert_eq!(try_decrypt(&vec![1u8; 31], &encode_base64(nonce), &cipher_text), None);
}

#[test]
fn new_entry_stores_service_user_and_password() {
    let e = new_entry(&key_text(), Some("github".to_string()), Some("alice".to_string()), "pw1".to_string())
        .unwrap();
    assert_eq!(e.service_name, "github");
    assert_eq!(e.service_username, "alice");
    assert_eq!(decrypt(&key(), &e.service_nonce, &e.service_cipher), Ok("pw1".to_string()));
}

#[test]
fn new_entry_defaults_to_empty_names() {
    let e = new_entry(&key_text(), None, None, "pw1".to_string()).unwrap();
    assert_eq!(e.service_name, "");
    assert_eq!(e.service_username, "");
    assert_eq!(decrypt(&key(), &e.service_nonce, &e.service_cipher), Ok("pw1".to_string()));
}
