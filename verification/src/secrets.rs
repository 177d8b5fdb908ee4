use aes_gcm::aead::generic_array::GenericArray;
use aes_gcm::aead::{Aead, AeadCore, KeyInit};
use aes_gcm::{Aes256Gcm, Key};
use argon2::password_hash::{PasswordHasher, SaltString};
use argon2::Argon2;
use hkdf::Hkdf;
use rand::rngs::OsRng;
use sha2::Sha256;
use vstd::prelude::*;
use vstd::utf8::{decode_utf8, encode_utf8, valid_utf8};

use crate::codec::{
    b64_decodable, b64_decode, b64_encode, decode_base64, encode_base64, lemma_b64_len,
    lemma_b64_round_trip, string_from_utf8, try_decode_base64,
};
use crate::model::{result_view, File, VaultError};

verus! {

/// A character allowed in a salt string: `[a-zA-Z0-9/+.-]`.
pub open spec fn salt_char(c: char) -> bool {
    let v = c as u32;
    ||| 97 <= v <= 122
    ||| 65 <= v <= 90
    ||| 48 <= v <= 57
    ||| c == '/'
    ||| c == '+'
    ||| c == '.'
    ||| c == '-'
}

/// A salt string as the password hasher accepts it: 4 to 64 characters, each
/// a salt character.
pub open spec fn salt_valid(s: Seq<char>) -> bool {
    &&& 4 <= s.len() <= 64
    &&& forall|i: int| 0 <= i < s.len() ==> salt_char(#[trigger] s[i])
}

/// A salt string that Argon2 can hash with: valid, and the unpadded base64
/// encoding of at least 8 bytes.
pub open spec fn salt_hashable(s: Seq<char>) -> bool {
    &&& salt_valid(s)
    &&& exists|b: Seq<u8>| 8 <= b.len() && #[trigger] b64_encode(b, false) == s
}

/// The unpadded base64 encoding of some 16 bytes.
pub open spec fn encodes_16_bytes(s: Seq<char>) -> bool {
    exists|b: Seq<u8>| b.len() == 16 && #[trigger] b64_encode(b, false) == s
}

/// The largest password, in bytes, that Argon2 hashes.
pub open spec fn max_password_bytes() -> nat {
    0xFFFF_FFFF
}

/// The largest plaintext, in bytes, that AES-256-GCM encrypts.
pub open spec fn max_plaintext_bytes() -> nat {
    0x10_0000_0000
}

/// The Argon2 hash (default algorithm and parameters) of a password with a
/// salt string.
pub uninterp spec fn argon2_default_hash(password: Seq<char>, salt: Seq<char>) -> Seq<u8>;

/// The 32 bytes that HKDF-SHA256 expands from a pseudorandom key and an info
/// string.
pub uninterp spec fn hkdf_sha256_okm32(prk: Seq<u8>, info: Seq<u8>) -> Seq<u8>;

/// AES-256-GCM ciphertext (with the tag appended) of a plaintext under a key
/// and nonce, without associated data.
pub uninterp spec fn aes256gcm_sealed(key: Seq<u8>, nonce: Seq<u8>, plaintext: Seq<u8>) -> Seq<u8>;

/// AES-256-GCM decryption of a ciphertext (tag appended) under a key and
/// nonce, without associated data: the plaintext, or `None` when it does not
/// authenticate.
pub uninterp spec fn aes256gcm_opened(key: Seq<u8>, nonce: Seq<u8>, ciphertext: Seq<u8>) -> Option<Seq<u8>>;

/// The error type of AES-GCM encryption and decryption, carried through
/// opaquely.
#[verifier::external_type_specification]
#[verifier::external_body]
pub struct ExAeadError(aes_gcm::Error);

/// `SaltString::from_b64` of the password-hash crate, told apart by success:
/// it accepts 4 to 64 bytes of `[a-zA-Z0-9/+.-]`.
#[verifier::external_body]
fn salt_accepted(s: &str) -> (res: bool)
    ensures
        res == salt_valid(s@),
{
    SaltString::from_b64(s).is_ok()
}

/// `SaltString::generate` of the password-hash crate with the OS random
/// generator: 16 random bytes in unpadded base64. Which bytes is left open.
#[verifier::external_body]
fn random_salt() -> (res: String)
    ensures
        encodes_16_bytes(res@),
{
    SaltString::generate(&mut OsRng).as_str().to_string()
}

/// `PasswordHasher::hash_password` of `Argon2::default()` on the password's
/// bytes and the salt, taking the raw hash output. The output has the default
/// length of 32 bytes. It panics when the salt is not the unpadded base64 of at
/// least 8 bytes or the password is longer than `0xFFFFFFFF` bytes; `requires`
/// leaves those out.
#[verifier::external_body]
fn argon2_hash(password: &str, salt: &str) -> (res: Vec<u8>)
    requires
        salt_hashable(salt@),
        encode_utf8(password@).len() <= max_password_bytes(),
    ensures
        res@ == argon2_default_hash(password@, salt@),
        res@.len() == 32,
{
    let salt = SaltString::from_b64(salt).expect("salt checked");
    let hash = Argon2::default().hash_password(password.as_bytes(), salt.as_salt()).expect("hash");
    hash.hash.expect("hash output").as_bytes().to_vec()
}

/// `Hkdf::<Sha256>::from_prk` followed by `expand` into 32 bytes. `from_prk`
/// fails on a key shorter than the 32-byte hash output; `requires` leaves that
/// out. Expanding 32 bytes cannot fail.
#[verifier::external_body]
fn hkdf_expand32(prk: &[u8], info: &[u8]) -> (res: Vec<u8>)
    requires
        prk@.len() >= 32,
    ensures
        res@ == hkdf_sha256_okm32(prk@, info@),
        res@.len() == 32,
{
    let hk = Hkdf::<Sha256>::from_prk(prk).expect("prk length checked");
    let mut okm = [0u8; 32];
    hk.expand(info, &mut okm).expect("32 bytes");
    okm.to_vec()
}

/// `AeadCore::generate_nonce` of `Aes256Gcm` with the OS random generator: 12
/// random bytes. Which bytes is left open.
#[verifier::external_body]
fn random_nonce() -> (res: Vec<u8>)
    ensures
        res@.len() == 12,
{
    Aes256Gcm::generate_nonce(&mut OsRng).to_vec()
}

/// `Aead::encrypt` of `Aes256Gcm` with the given key and nonce and no
/// associated data. It fails exactly when the plaintext is longer than 2^36
/// bytes; the ciphertext is as long as the plaintext plus the 16-byte tag, and
/// decrypting it under the same key and nonce gives the plaintext back.
#[verifier::external_body]
fn aes256gcm_seal(key: &[u8], nonce: &[u8], plaintext: &[u8]) -> (res: Result<Vec<u8>, aes_gcm::Error>)
    requires
        key@.len() == 32,
        nonce@.len() == 12,
    ensures
        res is Ok <==> plaintext@.len() <= max_plaintext_bytes(),
        res matches Ok(c) ==> {
            &&& c@ == aes256gcm_sealed(key@, nonce@, plaintext@)
            &&& c@.len() == plaintext@.len() + 16
            &&& aes256gcm_opened(key@, nonce@, c@) == Some(plaintext@)
        },
{
    let cipher = Aes256Gcm::new(Key::<Aes256Gcm>::from_slice(key));
    cipher.encrypt(GenericArray::from_slice(nonce), plaintext)
}

/// `Aead::decrypt` of `Aes256Gcm` with the given key and nonce and no
/// associated data.
#[verifier::external_body]
fn aes256gcm_open(key: &[u8], nonce: &[u8], ciphertext: &[u8]) -> (res: Result<Vec<u8>, aes_gcm::Error>)
    requires
        key@.len() == 32,
        nonce@.len() == 12,
    ensures
        match res {
            Ok(p) => aes256gcm_opened(key@, nonce@, ciphertext@) == Some(p@),
            Err(_) => aes256gcm_opened(key@, nonce@, ciphertext@) is None,
        },
{
    let cipher = Aes256Gcm::new(Key::<Aes256Gcm>::from_slice(key));
    cipher.decrypt(GenericArray::from_slice(nonce), ciphertext)
}


/// Law: the unpadded base64 encoding of 16 bytes is a salt Argon2 can hash
/// with.
pub proof fn lemma_16_byte_salt_hashable(s: Seq<char>)
    requires
        encodes_16_bytes(s),
    ensures
        salt_hashable(s),
{
    let b = choose|b: Seq<u8>| b.len() == 16 && #[trigger] b64_encode(b, false) == s;
    lemma_b64_len(b, false);
    crate::codec::lemma_b64_unpadded_alphabet(b);
    assert forall|i: int| 0 <= i < s.len() implies salt_char(#[trigger] s[i]) by {
        assert(crate::codec::b64_alphabet(b64_encode(b, false)[i]));
    }
    assert(8 <= b.len() && b64_encode(b, false) == s);
}

/// Tells whether Argon2 can hash with a salt string.
pub fn salt_hashable_text(s: &String) -> (res: bool)
    ensures
        res == salt_hashable(s@),
{
    if !salt_accepted(s.as_str()) {
        return false;
    }
    match crate::codec::try_decode_unpadded_base64(s.as_str()) {
        Some(b) => {
            proof {
                if salt_hashable(s@) {
                    let c = choose|c: Seq<u8>| 8 <= c.len() && #[trigger] b64_encode(c, false) == s@;
                    crate::codec::lemma_b64_injective(b@, c, false);
                }
            }
            b.len() >= 8
        },
        None => false,
    }
}

/// Generates a fresh random salt for hashing the master password.
pub fn gen_salt() -> (res: String)
    ensures
        encodes_16_bytes(res@),
        salt_hashable(res@),
{
    let s = random_salt();
    proof {
        lemma_16_byte_salt_hashable(s@);
    }
    s
}

/// The info string under which the encryption key is expanded.
pub open spec fn encryption_info() -> Seq<u8> {
    encode_utf8("YourApp v1 Encryption Key"@)
}

/// The info string under which the authentication hash is expanded.
pub open spec fn authentication_info() -> Seq<u8> {
    encode_utf8("YourApp v1 Authentication Key"@)
}

/// The encryption key and the authentication hash derived from a master
/// password and salt, both in base64: Argon2 turns the password into a
/// pseudorandom key, and HKDF-SHA256 expands that under two different info
/// strings into two independent 32-byte keys.
pub open spec fn master_keys(password: Seq<char>, salt: Seq<char>) -> (Seq<char>, Seq<char>) {
    let prk = argon2_default_hash(password, salt);
    (
        b64_encode(hkdf_sha256_okm32(prk, encryption_info()), true),
        b64_encode(hkdf_sha256_okm32(prk, authentication_info()), true),
    )
}

/// Law: the encryption key is the base64 of the 32 bytes HKDF-SHA256
/// expands from the Argon2 hash under "YourApp v1 Encryption Key", and the
/// authentication hash the same under "YourApp v1 Authentication Key".
pub proof fn lemma_master_keys_derivation(password: Seq<char>, salt: Seq<char>)
    ensures
        master_keys(password, salt).0 == b64_encode(
            hkdf_sha256_okm32(
                argon2_default_hash(password, salt),
                encode_utf8("YourApp v1 Encryption Key"@),
            ),
            true,
        ),
        master_keys(password, salt).1 == b64_encode(
            hkdf_sha256_okm32(
                argon2_default_hash(password, salt),
                encode_utf8("YourApp v1 Authentication Key"@),
            ),
            true,
        ),
{
}

/// A key in base64 that decodes to the 32 bytes of an AES-256 key.
pub open spec fn key_text_valid(enc: Seq<char>) -> bool {
    b64_decodable(enc, true) && b64_decode(enc, true).len() == 32
}

/// Derives an encryption key and an authentication hash from the master password and salt.
pub fn master_hash(p: &String, s: &String) -> (res: (String, String))
    requires
        salt_hashable(s@),
        encode_utf8(p@).len() <= max_password_bytes(),
    ensures
        res.0@ == master_keys(p@, s@).0,
        res.1@ == master_keys(p@, s@).1,
        res.0@ == b64_encode(
            hkdf_sha256_okm32(argon2_default_hash(p@, s@), encode_utf8("YourApp v1 Encryption Key"@)),
            true,
        ),
        res.1@ == b64_encode(
            hkdf_sha256_okm32(
                argon2_default_hash(p@, s@),
                encode_utf8("YourApp v1 Authentication Key"@),
            ),
            true,
        ),
        key_text_valid(res.0@),
        key_text_valid(res.1@),
{
    let output = argon2_hash(p.as_str(), s.as_str());
    let enc_label: &str = "YourApp v1 Encryption Key";
    let auth_label: &str = "YourApp v1 Authentication Key";
    let encryption_key = hkdf_expand32(output.as_slice(), enc_label.as_bytes());
    let auth_key = hkdf_expand32(output.as_slice(), auth_label.as_bytes());
    proof {
        lemma_b64_round_trip(encryption_key@, true);
        lemma_b64_round_trip(auth_key@, true);
    }
    (encode_base64(encryption_key), encode_base64(auth_key))
}

/// What checking a master password against a vault file gives: an error for
/// an invalid salt, the encryption key when the authentication hash of the
/// password matches the stored one, and an error otherwise.
pub open spec fn check_outcome(input: Seq<char>, master_password: Seq<char>, salt: Seq<char>) -> Result<Seq<char>, VaultError> {
    if !salt_valid(salt) {
        Err(VaultError::InvalidSalt)
    } else if master_keys(input, salt).1 == master_password {
        Ok(master_keys(input, salt).0)
    } else {
        Err(VaultError::IncorrectPassword)
    }
}

/// Checks user input against the stored master password hash, returning the encryption key on success.
pub fn check_master_password(input: &String, f: &File) -> (res: Result<String, VaultError>)
    requires
        salt_valid(f.salt@) ==> (salt_hashable(f.salt@) && encode_utf8(input@).len()
            <= max_password_bytes()),
    ensures
        result_view(res) == check_outcome(input@, f.master_password@, f.salt@),
        res matches Ok(k) ==> key_text_valid(k@),
{
    if !salt_accepted(f.salt.as_str()) {
        return Err(VaultError::InvalidSalt);
    }
    let (u_enc, u_pass) = master_hash(input, &f.salt);
    if u_pass == f.master_password {
        Ok(u_enc)
    } else {
        Err(VaultError::IncorrectPassword)
    }
}

/// Law: the master password a vault was created with opens it: checked
/// against the authentication hash it produced under a valid salt, it gives
/// the encryption key derived from it.
pub proof fn lemma_owner_password_accepted(p: Seq<char>, salt: Seq<char>)
    requires
        salt_valid(salt),
    ensures
        check_outcome(p, master_keys(p, salt).1, salt) == Ok::<Seq<char>, VaultError>(master_keys(p, salt).0),
{
}

/// Tells whether `check_master_password` can run on these arguments: when
/// the hasher accepts the salt, it can hash with it and the password fits
/// Argon2.
pub fn can_check_master_password(input: &String, f: &File) -> (res: bool)
    ensures
        res == (salt_valid(f.salt@) ==> (salt_hashable(f.salt@) && encode_utf8(input@).len()
            <= max_password_bytes())),
{
    if !salt_accepted(f.salt.as_str()) {
        return true;
    }
    let bytes = input.as_str().as_bytes().len();
    bytes <= 0xFFFF_FFFF && salt_hashable_text(&f.salt)
}

/// `c` and `n` are a ciphertext and nonce that encrypt the password `p` under
/// `key`: a 12-byte nonce, the AES-256-GCM ciphertext of the UTF-8 bytes of
/// `p`, which decrypts back to them.
pub open spec fn encrypts(key: Seq<u8>, p: Seq<char>, c: Seq<u8>, n: Seq<u8>) -> bool {
    &&& n.len() == 12
    &&& c == aes256gcm_sealed(key, n, encode_utf8(p))
    &&& c.len() == encode_utf8(p).len() + 16
    &&& aes256gcm_opened(key, n, c) == Some(encode_utf8(p))
}

/// Encrypts a plaintext password with AES-256-GCM, returning the ciphertext and nonce.
pub fn encrypt(key_bytes: &Vec<u8>, pass: String) -> (res: Result<(Vec<u8>, Vec<u8>), VaultError>)
    requires
        key_bytes@.len() == 32,
    ensures
        res is Ok <==> encode_utf8(pass@).len() <= max_plaintext_bytes(),
        res matches Err(e) ==> e == VaultError::Encryption,
        res matches Ok((c, n)) ==> encrypts(key_bytes@, pass@, c@, n@),
{
    let nonce = random_nonce();
    match aes256gcm_seal(key_bytes.as_slice(), nonce.as_slice(), pass.as_str().as_bytes()) {
        Ok(ciphertext) => Ok((ciphertext, nonce)),
        Err(_) => Err(VaultError::Encryption),
    }
}

/// Whether `decrypt` can run on these arguments: a 32-byte key, a nonce that is
/// the base64 of 12 bytes, a ciphertext in base64, and, when the ciphertext
/// authenticates, a plaintext that is valid UTF-8.
pub open spec fn decrypt_defined(key: Seq<u8>, nonce: Seq<char>, ciphertext: Seq<char>) -> bool {
    &&& key.len() == 32
    &&& b64_decodable(nonce, true)
    &&& b64_decode(nonce, true).len() == 12
    &&& b64_decodable(ciphertext, true)
    &&& aes256gcm_opened(key, b64_decode(nonce, true), b64_decode(ciphertext, true)) matches Some(
        p,
    ) ==> valid_utf8(p)
}

/// What decrypting gives: the password when the ciphertext authenticates under
/// the key and nonce, an error otherwise.
pub open spec fn decrypt_outcome(key: Seq<u8>, nonce: Seq<char>, ciphertext: Seq<char>) -> Result<Seq<char>, VaultError> {
    match aes256gcm_opened(key, b64_decode(nonce, true), b64_decode(ciphertext, true)) {
        Some(p) => Ok(decode_utf8(p)),
        None => Err(VaultError::Decryption),
    }
}

/// Law: what `encrypt` produces, stored in base64, decrypts back to the
/// password it encrypted.
pub proof fn lemma_decrypt_inverts_encrypt(key: Seq<u8>, p: Seq<char>, c: Seq<u8>, n: Seq<u8>)
    requires
        key.len() == 32,
        encrypts(key, p, c, n),
    ensures
        decrypt_defined(key, b64_encode(n, true), b64_encode(c, true)),
        decrypt_outcome(key, b64_encode(n, true), b64_encode(c, true)) == Ok::<Seq<char>, VaultError>(p),
{
    lemma_b64_round_trip(n, true);
    lemma_b64_round_trip(c, true);
    vstd::utf8::encode_utf8_valid_utf8(p);
    vstd::utf8::encode_utf8_decode_utf8(p);
}

/// Decrypts an AES-256-GCM ciphertext back into the plaintext password.
pub fn decrypt(key_bytes: &Vec<u8>, nonce: &String, ciphertext: &String) -> (res: Result<String, VaultError>)
    requires
        decrypt_defined(key_bytes@, nonce@, ciphertext@),
    ensures
        result_view(res) == decrypt_outcome(key_bytes@, nonce@, ciphertext@),
{
    let nonce_bytes = decode_base64(nonce);
    let cipher_bytes = decode_base64(ciphertext);
    match aes256gcm_open(key_bytes.as_slice(), nonce_bytes.as_slice(), cipher_bytes.as_slice()) {
        Ok(plaintext_bytes) => match string_from_utf8(plaintext_bytes) {
            Some(plaintext) => Ok(plaintext),
            None => Err(VaultError::Decryption),
        },
        Err(_) => Err(VaultError::Decryption),
    }
}

/// Tells whether `decrypt` can run on these arguments.
pub fn decryptable(key_bytes: &Vec<u8>, nonce: &String, ciphertext: &String) -> (res: bool)
    ensures
        res == decrypt_defined(key_bytes@, nonce@, ciphertext@),
{
    if key_bytes.len() != 32 {
        return false;
    }
    let nonce_bytes = match try_decode_base64(nonce) {
        Some(b) => b,
        None => return false,
    };
    if nonce_bytes.len() != 12 {
        return false;
    }
    let cipher_bytes = match try_decode_base64(ciphertext) {
        Some(b) => b,
        None => return false,
    };
    match aes256gcm_open(key_bytes.as_slice(), nonce_bytes.as_slice(), cipher_bytes.as_slice()) {
        Ok(plaintext_bytes) => string_from_utf8(plaintext_bytes).is_some(),
        Err(_) => true,
    }
}

/// Decrypts like `decrypt` where it can run, and gives `None` on the arguments
/// it cannot take (a key of the wrong length, text that is not base64, a nonce
/// of the wrong length, or a plaintext that is not UTF-8).
pub fn try_decrypt(key_bytes: &Vec<u8>, nonce: &String, ciphertext: &String) -> (res: Option<Result<String, VaultError>>)
    ensures
        res is Some <==> decrypt_defined(key_bytes@, nonce@, ciphertext@),
        res matches Some(r) ==> result_view(r) == decrypt_outcome(key_bytes@, nonce@, ciphertext@),
{
    if decryptable(key_bytes, nonce, ciphertext) {
        Some(decrypt(key_bytes, nonce, ciphertext))
    } else {
        None
    }
}

} // verus!
