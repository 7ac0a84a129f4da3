//! 2-of-N secret sharing of the 64-byte grouped-shards secret, and the
//! password-wrapping of individual shards.

use vstd::prelude::*;

use crate::crypto::{decrypt, dec_of, encrypt, kdf_of, key_derivation, random};
use crate::types::{EncryptedBox, is_key, is_salt};
use crate::VaultError;

verus! {

/// The views of a vector of byte vectors.
pub open spec fn views_of(shares: Seq<Vec<u8>>) -> Seq<Seq<u8>> {
    shares.map_values(|s: Vec<u8>| s@)
}

/// What combining a set of shares restores: the original 64-byte
/// secret when at least two consistent 113-byte shares of one split
/// are present, and nothing otherwise.
pub uninterp spec fn combined_of(shares: Seq<Seq<u8>>) -> Option<Seq<u8>>;

/// Whether every share has the fixed share width.
pub open spec fn all_share_width(shares: Seq<Seq<u8>>) -> bool {
    forall|i: int| 0 <= i < shares.len() ==> (#[trigger] shares[i]).len() == 113
}

/// Relies on shamirsecretsharing's `create_shares` with threshold 2:
/// it returns `n` shares of 113 bytes each, and combining any two
/// distinct shares of one call restores the 64-byte input.
#[verifier::external_body]
fn sss_create_shares(data: &Vec<u8>, n: u8) -> (r: Vec<Vec<u8>>)
    requires
        data@.len() == 64,
        2 <= n,
    ensures
        r@.len() == n,
        all_share_width(views_of(r@)),
        forall|i: int, j: int|
            0 <= i < r@.len() && 0 <= j < r@.len() && i != j ==> combined_of(
                seq![views_of(r@)[i], views_of(r@)[j]],
            ) == Some(data@),
{
    shamirsecretsharing::create_shares(data.as_slice(), n, 2).expect("share split")
}

/// Relies on shamirsecretsharing's `combine_shares`: with 113-byte
/// shares it restores the 64-byte secret or reports failure; with any
/// other share width it only reports failure.
#[verifier::external_body]
fn sss_combine_shares(shares: &Vec<Vec<u8>>) -> (r: Option<Vec<u8>>)
    ensures
        all_share_width(views_of(shares@)) ==> match r {
            Some(s) => combined_of(views_of(shares@)) == Some(s@) && s@.len() == 64,
            None => combined_of(views_of(shares@)) is None,
        },
        !all_share_width(views_of(shares@)) ==> r is None,
{
    match shamirsecretsharing::combine_shares(shares.as_slice()) {
        Ok(restored) => restored,
        Err(_) => None,
    }
}

/// Splits the 64-byte grouped shards into `nb_users` shards, any two
/// of which restore it.
pub fn create_shards(grouped_shards: &Vec<u8>, nb_users: u8) -> (r: Vec<Vec<u8>>)
    requires
        grouped_shards@.len() == 64,
        2 <= nb_users,
    ensures
        r@.len() == nb_users,
        all_share_width(views_of(r@)),
        forall|i: int, j: int|
            0 <= i < r@.len() && 0 <= j < r@.len() && i != j ==> combined_of(
                seq![views_of(r@)[i], views_of(r@)[j]],
            ) == Some(grouped_shards@),
{
    sss_create_shares(grouped_shards, nb_users)
}

/// Combines decrypted shards back into the 64-byte grouped shards;
/// inconsistent, tampered or too few shards give `None`.
pub fn rebuild_grouped_shards(shards: &Vec<Vec<u8>>) -> (r: Option<Vec<u8>>)
    ensures
        match r {
            Some(s) => all_share_width(views_of(shards@)) && combined_of(views_of(shards@))
                == Some(s@) && s@.len() == 64,
            None => !all_share_width(views_of(shards@)) || combined_of(views_of(shards@))
                is None,
        },
{
    sss_combine_shares(shards)
}

/// Encrypts one shard under a key derived from `password` and a fresh
/// random salt; returns the envelope and the salt.
pub fn encrypt_shard(password: &Vec<u8>, shard: &Vec<u8>) -> (r: (EncryptedBox, Vec<u8>))
    requires
        password@.len() <= 4294967295,
        shard@.len() <= usize::MAX - 16,
    ensures
        r.0@.wf(),
        is_salt(r.1@),
        dec_of(r.0@.ct, r.0@.nonce, kdf_of(password@, r.1@)) == Some(shard@),
{
    let salt = random(16);
    let secret_key = key_derivation(password, &salt);
    (encrypt(shard, &secret_key), salt)
}

/// Decrypts one shard with the key derived from `password` and
/// `salt`; a wrong password or a tampered shard fails authentication.
pub fn decrypt_shard(password: &Vec<u8>, encrypted_shard: &EncryptedBox, salt: &Vec<u8>) -> (r:
    Result<Vec<u8>, VaultError>)
    requires
        password@.len() <= 4294967295,
        encrypted_shard@.wf(),
        is_salt(salt@),
    ensures
        match r {
            Ok(s) => dec_of(encrypted_shard@.ct, encrypted_shard@.nonce, kdf_of(password@, salt@))
                == Some(s@),
            Err(e) => e == VaultError::AuthFail && dec_of(
                encrypted_shard@.ct,
                encrypted_shard@.nonce,
                kdf_of(password@, salt@),
            ) is None,
        },
{
    let secret_key = key_derivation(password, salt);
    decrypt(encrypted_shard, &secret_key)
}

} // verus!
