//! Group-key recovery: any two users who can decrypt their shards
//! jointly restore the grouped shards and hash them to the group key.
//!
//! This is the single authentication gate: every failure path returns
//! the same `None`, so a wrong password, a wrong user record and a
//! tampered shard are indistinguishable to the caller.

use vstd::prelude::*;

use crate::crypto::{dec_of, generate_group_key, hash_of, kdf_of};
use crate::shamir::{all_share_width, combined_of, rebuild_grouped_shards, views_of};
use crate::shamir::decrypt_shard;
use crate::types::{User, UserView, is_key};

verus! {

/// The shard a credential yields: the user's encrypted shard opened
/// under the password-derived key.
pub open spec fn spec_shard_of(u: UserView, password: Seq<u8>) -> Option<Seq<u8>> {
    dec_of(u.encrypted_shard.ct, u.encrypted_shard.nonce, kdf_of(password, u.salt))
}

/// The views of a credential list.
pub open spec fn cred_views(creds: Seq<(User, Vec<u8>)>) -> Seq<(UserView, Seq<u8>)> {
    creds.map_values(|c: (User, Vec<u8>)| (c.0@, c.1@))
}

/// Whether every credential's shard decrypts.
pub open spec fn shards_ok(creds: Seq<(UserView, Seq<u8>)>) -> bool {
    forall|i: int|
        0 <= i < creds.len() ==> (#[trigger] spec_shard_of(creds[i].0, creds[i].1)) is Some
}

/// The decrypted shards of a credential list (meaningful when they
/// all decrypt).
pub open spec fn shards_of(creds: Seq<(UserView, Seq<u8>)>) -> Seq<Seq<u8>> {
    creds.map_values(|c: (UserView, Seq<u8>)| spec_shard_of(c.0, c.1)->Some_0)
}

/// Whether a credential list's shards all decrypt, have the share
/// width, and combine to the grouped secret `s`.
pub open spec fn creds_combine_to(creds: Seq<(UserView, Seq<u8>)>, s: Seq<u8>) -> bool {
    &&& shards_ok(creds)
    &&& all_share_width(shards_of(creds))
    &&& combined_of(shards_of(creds)) == Some(s)
}

/// The group key a credential list recovers, if any: the digest of
/// the combined shards.
pub open spec fn spec_groupkey(creds: Seq<(UserView, Seq<u8>)>) -> Option<Seq<u8>> {
    if shards_ok(creds) && all_share_width(shards_of(creds)) {
        match combined_of(shards_of(creds)) {
            Some(s) => Some(hash_of(s)),
            None => None,
        }
    } else {
        None
    }
}

/// Recovers the group key from a list of `(user record, password)`
/// credentials: decrypt every shard, combine, hash.
///
/// Every failure (any shard that does not decrypt, inconsistent or
/// too few shards) yields the same `None`.
pub fn build_groupkey(creds: &Vec<(User, Vec<u8>)>) -> (r: Option<Vec<u8>>)
    requires
        forall|i: int| 0 <= i < creds@.len() ==> (#[trigger] creds@[i].0)@.wf(),
        forall|i: int| 0 <= i < creds@.len() ==> (#[trigger] creds@[i].1)@.len() <= 4294967295,
    ensures
        match r {
            Some(k) => spec_groupkey(cred_views(creds@)) == Some(k@) && is_key(k@),
            None => spec_groupkey(cred_views(creds@)) is None,
        },
{
    let ghost cv = cred_views(creds@);
    let mut shards: Vec<Vec<u8>> = Vec::new();
    let n = creds.len();
    let mut i: usize = 0;
    while i < n
        invariant
            n == creds@.len(),
            0 <= i <= n,
            cv == cred_views(creds@),
            forall|k: int| 0 <= k < creds@.len() ==> (#[trigger] creds@[k].0)@.wf(),
            forall|k: int| 0 <= k < creds@.len() ==> (#[trigger] creds@[k].1)@.len()
                <= 4294967295,
            shards@.len() == i,
            forall|k: int| 0 <= k < i ==> spec_shard_of(cv[k].0, cv[k].1) == Some(
                (#[trigger] shards@[k])@,
            ),
        decreases n - i,
    {
        let cred = &creds[i];
        match decrypt_shard(&cred.1, &cred.0.encrypted_shard, &cred.0.salt) {
            Ok(shard) => {
                shards.push(shard);
            },
            Err(_) => {
                proof {
                    assert(spec_shard_of(cv[i as int].0, cv[i as int].1) is None);
                    assert(!shards_ok(cv));
                }
                return None;
            },
        }
        i += 1;
    }
    proof {
        assert forall|k: int| 0 <= k < cv.len() implies (#[trigger] spec_shard_of(
            cv[k].0,
            cv[k].1,
        )) is Some by {
            assert(spec_shard_of(cv[k].0, cv[k].1) == Some(shards@[k]@));
        }
        assert(shards_ok(cv));
        assert forall|k: int| 0 <= k < cv.len() implies shards_of(cv)[k] == views_of(shards@)[k]
            by {
            assert(spec_shard_of(cv[k].0, cv[k].1) == Some(shards@[k]@));
        }
        assert(shards_of(cv) =~= views_of(shards@));
    }
    match rebuild_grouped_shards(&shards) {
        Some(grouped) => {
            let key = generate_group_key(&grouped);
            Some(key)
        },
        None => None,
    }
}

/// Group-key agreement: two credential lists whose shards combine to
/// the same grouped secret recover the same group key. For a freshly
/// keyed company this means the group key does not depend on which
/// two users authenticate.
pub proof fn lemma_groupkey_agreement(
    c1: Seq<(UserView, Seq<u8>)>,
    c2: Seq<(UserView, Seq<u8>)>,
    s: Seq<u8>,
)
    requires
        creds_combine_to(c1, s),
        creds_combine_to(c2, s),
    ensures
        spec_groupkey(c1) == Some(hash_of(s)),
        spec_groupkey(c1) == spec_groupkey(c2),
{
}

} // verus!
