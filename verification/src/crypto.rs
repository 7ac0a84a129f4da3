//! Cryptographic primitives: authenticated encryption, keyless hashing,
//! password hashing, message authentication and randomness.
//!
//! The primitives themselves come from an outside library; each call
//! stands behind a trusted wrapper whose contract names or bounds its
//! result. Everything layered on top of the wrappers is verified.
//!
//! The password hash runs with the interactive parameter profile,
//! which suits debug and test builds; production use needs the
//! moderate profile in [`pwhash32`]'s configuration instead.

use vstd::prelude::*;

use crate::types::{EncryptedBox, is_key, is_nonce, is_salt};
use crate::VaultError;

verus! {

/// What authenticated decryption returns for a ciphertext (tag
/// included), nonce and key: the plaintext, or nothing when the tag
/// does not match.
pub uninterp spec fn dec_of(ct: Seq<u8>, nonce: Seq<u8>, key: Seq<u8>) -> Option<Seq<u8>>;

/// The 32-byte keyless digest of a byte string.
pub uninterp spec fn hash_of(m: Seq<u8>) -> Seq<u8>;

/// The 32-byte password hash of a password and a 16-byte salt, under
/// the library's fixed parameter profile.
pub uninterp spec fn kdf_of(password: Seq<u8>, salt: Seq<u8>) -> Seq<u8>;

/// The 32-byte message authentication code of a message under a
/// 32-byte key.
pub uninterp spec fn mac_of(key: Seq<u8>, msg: Seq<u8>) -> Seq<u8>;

/// Relies on dryoc's `randombytes_buf`: a fresh buffer of `n` random
/// bytes.
#[verifier::external_body]
fn randombytes(n: usize) -> (r: Vec<u8>)
    ensures
        r@.len() == n,
{
    dryoc::rng::randombytes_buf(n)
}

/// Relies on dryoc's `DryocSecretBox` (XSalsa20-Poly1305):
/// `encrypt_to_vecbox` followed by `into_vec` yields `tag || ciphertext`,
/// 16 bytes longer than the message, and decrypting it with the same
/// nonce and key yields the message back.
#[verifier::external_body]
fn secretbox_seal(m: &Vec<u8>, nonce: &Vec<u8>, key: &Vec<u8>) -> (r: Vec<u8>)
    requires
        is_nonce(nonce@),
        is_key(key@),
        m@.len() <= usize::MAX - 16,
    ensures
        r@.len() == m@.len() + 16,
        dec_of(r@, nonce@, key@) == Some(m@),
{
    let n: [u8; 24] = nonce.as_slice().try_into().expect("nonce width");
    let k: [u8; 32] = key.as_slice().try_into().expect("key width");
    let sealed = dryoc::dryocsecretbox::DryocSecretBox::encrypt_to_vecbox(m, &n, &k)
        .expect("secretbox encrypt");
    sealed.into_vec()
}

/// Relies on dryoc's `DryocSecretBox`: `from_bytes` splits
/// `tag || ciphertext`, and `decrypt_to_vec` returns the plaintext
/// exactly when key, nonce, tag and ciphertext match an encryption.
#[verifier::external_body]
fn secretbox_open(ct: &Vec<u8>, nonce: &Vec<u8>, key: &Vec<u8>) -> (r: Option<Vec<u8>>)
    requires
        ct@.len() >= 16,
        is_nonce(nonce@),
        is_key(key@),
    ensures
        match r {
            Some(m) => dec_of(ct@, nonce@, key@) == Some(m@) && m@.len() + 16 == ct@.len(),
            None => dec_of(ct@, nonce@, key@) is None,
        },
{
    let n: [u8; 24] = nonce.as_slice().try_into().expect("nonce width");
    let k: [u8; 32] = key.as_slice().try_into().expect("key width");
    match dryoc::dryocsecretbox::VecBox::from_bytes(ct.as_slice()) {
        Ok(parsed) => match parsed.decrypt_to_vec(&n, &k) {
            Ok(m) => Some(m),
            Err(_) => None,
        },
        Err(_) => None,
    }
}

/// Relies on dryoc's `GenericHash` (BLAKE2b-256): the keyless 32-byte
/// digest depends on the input alone.
#[verifier::external_body]
fn generichash32(m: &Vec<u8>) -> (r: Vec<u8>)
    ensures
        r@ == hash_of(m@),
        r@.len() == 32,
{
    dryoc::generichash::GenericHash::<0, 32>::hash_to_vec(m, None::<&[u8; 0]>).expect("hash")
}

/// Relies on dryoc's `PwHash` (Argon2id, the interactive parameter
/// profile, 32-byte output): the hash depends on the password and the
/// salt alone.
#[verifier::external_body]
fn pwhash32(password: &Vec<u8>, salt: &Vec<u8>) -> (r: Vec<u8>)
    requires
        is_salt(salt@),
        password@.len() <= 4294967295,
    ensures
        r@ == kdf_of(password@, salt@),
        r@.len() == 32,
{
    let hashed = dryoc::pwhash::PwHash::<Vec<u8>, Vec<u8>>::hash_with_salt(
        password,
        salt.clone(),
        dryoc::pwhash::Config::interactive(),
    ).expect("pwhash");
    hashed.into_parts().0
}

/// Relies on dryoc's `Auth` (HMAC-SHA512-256): the 32-byte code
/// depends on the key and the message alone.
#[verifier::external_body]
fn auth_compute(key: &Vec<u8>, msg: &Vec<u8>) -> (r: Vec<u8>)
    requires
        is_key(key@),
    ensures
        r@ == mac_of(key@, msg@),
        r@.len() == 32,
{
    let k: [u8; 32] = key.as_slice().try_into().expect("key width");
    dryoc::auth::Auth::compute_to_vec(&k, msg)
}

/// Relies on dryoc's `Auth::compute_and_verify`: it accepts exactly
/// the code computed from this key and message, and compares in
/// constant time.
#[verifier::external_body]
fn auth_verify(tag: &Vec<u8>, key: &Vec<u8>, msg: &Vec<u8>) -> (r: bool)
    requires
        tag@.len() == 32,
        is_key(key@),
    ensures
        r == (tag@ == mac_of(key@, msg@)),
{
    let t: [u8; 32] = tag.as_slice().try_into().expect("tag width");
    let k: [u8; 32] = key.as_slice().try_into().expect("key width");
    dryoc::auth::Auth::compute_and_verify(&t, &k, msg).is_ok()
}

/// `n` freshly random bytes.
pub fn random(n: usize) -> (r: Vec<u8>)
    ensures
        r@.len() == n,
{
    randombytes(n)
}

/// A freshly random 32-byte symmetric key.
pub fn random_key() -> (r: Vec<u8>)
    ensures
        is_key(r@),
{
    randombytes(32)
}

/// Encrypts `data` under `key` with a fresh random nonce.
///
/// The resulting envelope always decrypts back to `data` under the
/// same key.
pub fn encrypt(data: &Vec<u8>, key: &Vec<u8>) -> (r: EncryptedBox)
    requires
        is_key(key@),
        data@.len() <= usize::MAX - 16,
    ensures
        r@.wf(),
        r@.ct.len() == data@.len() + 16,
        dec_of(r@.ct, r@.nonce, key@) == Some(data@),
{
    let nonce = randombytes(24);
    let ct = secretbox_seal(data, &nonce, key);
    EncryptedBox { ct, nonce }
}

/// Opens an envelope under `key`; any tag mismatch is an
/// authentication failure.
pub fn decrypt(b: &EncryptedBox, key: &Vec<u8>) -> (r: Result<Vec<u8>, VaultError>)
    requires
        b@.wf(),
        is_key(key@),
    ensures
        match r {
            Ok(m) => dec_of(b@.ct, b@.nonce, key@) == Some(m@) && m@.len() + 16 == b@.ct.len(),
            Err(e) => e == VaultError::AuthFail && dec_of(b@.ct, b@.nonce, key@) is None,
        },
{
    match secretbox_open(&b.ct, &b.nonce, key) {
        Some(m) => Ok(m),
        None => Err(VaultError::AuthFail),
    }
}

/// The keyless 32-byte digest of `data`, used to turn the grouped
/// shards into the group key.
pub fn hash64(data: &Vec<u8>) -> (r: Vec<u8>)
    ensures
        r@ == hash_of(data@),
        is_key(r@),
{
    generichash32(data)
}

/// Derives a user's key-encryption key from a password and a salt.
pub fn key_derivation(password: &Vec<u8>, salt: &Vec<u8>) -> (r: Vec<u8>)
    requires
        is_salt(salt@),
        password@.len() <= 4294967295,
    ensures
        r@ == kdf_of(password@, salt@),
        is_key(r@),
{
    pwhash32(password, salt)
}

/// Derives the group key from the 64-byte grouped shards.
pub fn generate_group_key(grouped_shards: &Vec<u8>) -> (r: Vec<u8>)
    requires
        grouped_shards@.len() == 64,
    ensures
        r@ == hash_of(grouped_shards@),
        is_key(r@),
{
    hash64(grouped_shards)
}

/// Computes the 32-byte authentication code of `msg` under `key`.
pub fn mac_compute(key: &Vec<u8>, msg: &Vec<u8>) -> (r: Vec<u8>)
    requires
        is_key(key@),
    ensures
        r@ == mac_of(key@, msg@),
        r@.len() == 32,
{
    auth_compute(key, msg)
}

/// Verifies an authentication code in constant time: it succeeds
/// exactly when `tag` is the code of `msg` under `key`.
pub fn mac_verify(tag: &Vec<u8>, key: &Vec<u8>, msg: &Vec<u8>) -> (r: Result<(), VaultError>)
    requires
        tag@.len() == 32,
        is_key(key@),
    ensures
        match r {
            Ok(()) => tag@ == mac_of(key@, msg@),
            Err(e) => e == VaultError::AuthFail && tag@ != mac_of(key@, msg@),
        },
{
    if auth_verify(tag, key, msg) {
        Ok(())
    } else {
        Err(VaultError::AuthFail)
    }
}

} // verus!
