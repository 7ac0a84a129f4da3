//! Company creation and re-keying: split fresh grouped shards among
//! the users, wrap each shard under its user's password, and wrap the
//! master and HMAC keys under the group key.

use vstd::prelude::*;

use crate::authentication::{creds_combine_to, spec_groupkey, spec_shard_of};
use crate::crypto::{dec_of, encrypt, generate_group_key, hash_of, random, random_key};
use crate::shamir::{all_share_width, create_shards, encrypt_shard, views_of};
use crate::types::{bytes_eq, clone_bytes, Company, CompanyView, User, UserView, is_key};

verus! {

/// The password views of a `(username, password)` credential list.
pub open spec fn pwd_views(creds: Seq<(Vec<u8>, Vec<u8>)>) -> Seq<Seq<u8>> {
    creds.map_values(|c: (Vec<u8>, Vec<u8>)| c.1@)
}

/// Whether two credential entries share a username.
pub open spec fn has_duplicate_name(creds: Seq<(Vec<u8>, Vec<u8>)>) -> bool {
    exists|i: int, j: int|
        0 <= i < j < creds.len() && (#[trigger] creds[i].0)@ == (#[trigger] creds[j].0)@
}

/// The keying invariant of a company: under some group key `gk`, any
/// two distinct users' credentials recover exactly `gk`, and `gk`
/// unwraps the company's envelopes to the master key `mk` and the
/// HMAC key `hk`.
pub open spec fn company_keyed_with(
    c: CompanyView,
    pwds: Seq<Seq<u8>>,
    mk: Seq<u8>,
    hk: Seq<u8>,
    gk: Seq<u8>,
) -> bool {
    &&& pwds.len() == c.users.len()
    &&& forall|i: int, j: int|
        #![trigger c.users[i], c.users[j]]
        0 <= i < c.users.len() && 0 <= j < c.users.len() && i != j ==> spec_groupkey(
            seq![(c.users[i], pwds[i]), (c.users[j], pwds[j])],
        ) == Some(gk)
    &&& dec_of(c.masterkey_encrypted.ct, c.masterkey_encrypted.nonce, gk) == Some(mk)
    &&& dec_of(c.hmackey_encrypted.ct, c.hmackey_encrypted.nonce, gk) == Some(hk)
}

/// Builds the user records for one keying: one shard per user,
/// encrypted under the user's password. Fails exactly when two
/// credentials share a username.
pub fn create_users(grouped_shards: &Vec<u8>, creds: &Vec<(Vec<u8>, Vec<u8>)>) -> (r: Option<
    Vec<User>,
>)
    requires
        grouped_shards@.len() == 64,
        2 <= creds@.len() <= 255,
        forall|i: int| 0 <= i < creds@.len() ==> (#[trigger] creds@[i].1)@.len() <= 4294967295,
    ensures
        match r {
            Some(users) => {
                &&& users@.len() == creds@.len()
                &&& forall|i: int|
                    0 <= i < users@.len() ==> (#[trigger] users@[i])@.wf() && users@[i]@.username
                        == creds@[i].0@
                &&& forall|i: int, j: int|
                    #![trigger users@[i], users@[j]]
                    0 <= i < users@.len() && 0 <= j < users@.len() && i != j
                        ==> creds_combine_to(
                        seq![(users@[i]@, creds@[i].1@), (users@[j]@, creds@[j].1@)],
                        grouped_shards@,
                    )
                &&& !has_duplicate_name(creds@)
            },
            None => has_duplicate_name(creds@),
        },
{
    let n = creds.len();
    let mut i: usize = 0;
    while i < n
        invariant
            n == creds@.len(),
            0 <= i <= n,
            forall|a: int, b: int| 0 <= a < b < i ==> (#[trigger] creds@[a].0)@ != (
            #[trigger] creds@[b].0)@,
        decreases n - i,
    {
        let mut j: usize = 0;
        while j < i
            invariant
                n == creds@.len(),
                0 <= j <= i < n,
                forall|b: int| 0 <= b < j ==> (#[trigger] creds@[b].0)@ != creds@[i as int].0@,
            decreases i - j,
        {
            if bytes_eq(&creds[j].0, &creds[i].0) {
                return None;
            }
            j += 1;
        }
        i += 1;
    }

    let shards = create_shards(grouped_shards, n as u8);
    let mut users: Vec<User> = Vec::new();
    let mut i: usize = 0;
    while i < n
        invariant
            n == creds@.len(),
            n == shards@.len(),
            all_share_width(views_of(shards@)),
            forall|k: int| 0 <= k < creds@.len() ==> (#[trigger] creds@[k].1)@.len()
                <= 4294967295,
            0 <= i <= n,
            users@.len() == i,
            forall|k: int|
                0 <= k < i ==> (#[trigger] users@[k])@.wf() && users@[k]@.username
                    == creds@[k].0@ && spec_shard_of(users@[k]@, creds@[k].1@) == Some(
                    views_of(shards@)[k],
                ),
        decreases n - i,
    {
        let cred = &creds[i];
        proof {
            assert(views_of(shards@)[i as int].len() == 113);
        }
        let (encrypted_shard, salt) = encrypt_shard(&cred.1, &shards[i]);
        users.push(User { username: clone_bytes(&cred.0), encrypted_shard, salt });
        i += 1;
    }

    proof {
        assert forall|i: int, j: int|
            #![trigger users@[i], users@[j]]
            0 <= i < users@.len() && 0 <= j < users@.len() && i != j implies creds_combine_to(
            seq![(users@[i]@, creds@[i].1@), (users@[j]@, creds@[j].1@)],
            grouped_shards@,
        ) by {
            let pair = seq![(users@[i]@, creds@[i].1@), (users@[j]@, creds@[j].1@)];
            assert(spec_shard_of(pair[0].0, pair[0].1) == Some(views_of(shards@)[i]));
            assert(spec_shard_of(pair[1].0, pair[1].1) == Some(views_of(shards@)[j]));
            let ps = crate::authentication::shards_of(pair);
            assert(ps =~= seq![views_of(shards@)[i], views_of(shards@)[j]]);
            assert(views_of(shards@)[i].len() == 113);
            assert(views_of(shards@)[j].len() == 113);
            assert(forall|k: int| 0 <= k < ps.len() ==> (#[trigger] ps[k]).len() == 113);
        }
    }
    Some(users)
}

/// Keys (or re-keys) a company: fresh grouped shards, fresh salts and
/// shard wrappings, with the given master and HMAC keys wrapped under
/// the new group key.
///
/// Re-keying with the master key a session holds preserves every
/// stored file: the wrapped file keys stay decryptable.
pub fn rekey_company(
    masterkey: &Vec<u8>,
    hmackey: &Vec<u8>,
    company_name: &Vec<u8>,
    creds: &Vec<(Vec<u8>, Vec<u8>)>,
) -> (r: Option<Company>)
    requires
        is_key(masterkey@),
        is_key(hmackey@),
        2 <= creds@.len() <= 255,
        forall|i: int| 0 <= i < creds@.len() ==> (#[trigger] creds@[i].1)@.len() <= 4294967295,
    ensures
        match r {
            Some(c) => {
                &&& c@.wf()
                &&& c@.name == company_name@
                &&& c@.hmackey == hmackey@
                &&& c@.users.len() == creds@.len()
                &&& forall|i: int|
                    0 <= i < c@.users.len() ==> (#[trigger] c@.users[i]).username
                        == creds@[i].0@
                &&& exists|gk: Seq<u8>|
                    #[trigger] company_keyed_with(
                        c@,
                        pwd_views(creds@),
                        masterkey@,
                        hmackey@,
                        gk,
                    )
                &&& !has_duplicate_name(creds@)
            },
            None => has_duplicate_name(creds@),
        },
{
    let grouped_shards = random(64);
    let group_key = generate_group_key(&grouped_shards);
    let hmackey_encrypted = encrypt(hmackey, &group_key);
    let users = match create_users(&grouped_shards, creds) {
        Some(users) => users,
        None => {
            return None;
        },
    };
    let masterkey_encrypted = encrypt(masterkey, &group_key);
    let c = Company {
        name: clone_bytes(company_name),
        users,
        masterkey_encrypted,
        hmackey: clone_bytes(hmackey),
        hmackey_encrypted,
    };
    proof {
        let gk = hash_of(grouped_shards@);
        let pwds = pwd_views(creds@);
        assert forall|i: int, j: int|
            #![trigger c@.users[i], c@.users[j]]
            0 <= i < c@.users.len() && 0 <= j < c@.users.len() && i != j
            implies spec_groupkey(seq![(c@.users[i], pwds[i]), (c@.users[j], pwds[j])])
            == Some(gk) by {
            assert(c@.users[i] == c.users@[i]@);
            assert(c@.users[j] == c.users@[j]@);
            assert(seq![(c@.users[i], pwds[i]), (c@.users[j], pwds[j])] =~= seq![
                (c.users@[i]@, creds@[i].1@),
                (c.users@[j]@, creds@[j].1@),
            ]);
            assert(creds_combine_to(
                seq![(c.users@[i]@, creds@[i].1@), (c.users@[j]@, creds@[j].1@)],
                grouped_shards@,
            ));
        }
        assert(company_keyed_with(c@, pwds, masterkey@, hmackey@, gk));
    }
    Some(c)
}

/// Creates a brand-new company: a fresh random master key and HMAC
/// key, keyed for the given credentials.
pub fn create_company(company_name: &Vec<u8>, creds: &Vec<(Vec<u8>, Vec<u8>)>) -> (r: Option<
    Company,
>)
    requires
        2 <= creds@.len() <= 255,
        forall|i: int| 0 <= i < creds@.len() ==> (#[trigger] creds@[i].1)@.len() <= 4294967295,
    ensures
        match r {
            Some(c) => {
                &&& c@.wf()
                &&& c@.name == company_name@
                &&& c@.users.len() == creds@.len()
                &&& forall|i: int|
                    0 <= i < c@.users.len() ==> (#[trigger] c@.users[i]).username
                        == creds@[i].0@
                &&& exists|mk: Seq<u8>, gk: Seq<u8>|
                    is_key(mk) && #[trigger] company_keyed_with(
                        c@,
                        pwd_views(creds@),
                        mk,
                        c@.hmackey,
                        gk,
                    )
                &&& is_key(c@.hmackey)
                &&& !has_duplicate_name(creds@)
            },
            None => has_duplicate_name(creds@),
        },
{
    let master_key = random_key();
    let hmackey = random_key();
    rekey_company(&master_key, &hmackey, company_name, creds)
}

} // verus!
