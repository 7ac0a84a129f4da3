use secure_cloud::authentication::build_groupkey;
use secure_cloud::creation::{create_company, create_users, rekey_company};
use secure_cloud::crypto::{generate_group_key, random};
use secure_cloud::types::{Company, User};

fn creds(pairs: &[(&[u8], &[u8])]) -> Vec<(Vec<u8>, Vec<u8>)> {
    pairs.iter().map(|(u, p)| (u.to_vec(), p.to_vec())).collect()
}

fn pair(company: &Company, i: usize, j: usize, pi: &[u8], pj: &[u8]) -> Vec<(User, Vec<u8>)> {
    vec![
        (company.users[i].clone(), pi.to_vec()),
        (company.users[j].clone(), pj.to_vec()),
    ]
}

fn user_pair(users: &[User], i: usize, j: usize, pi: &[u8], pj: &[u8]) -> Vec<(User, Vec<u8>)> {
    vec![(users[i].clone(), pi.to_vec()), (users[j].clone(), pj.to_vec())]
}

#[test]
fn created_company_has_the_requested_users() {
    let company = create_company(
        &b"acme".to_vec(),
        &creds(&[
            (b"alice", b"P@ssw0rd!longX"),
            (b"bob", b"AnotherStrong#1234"),
            (b"carol", b"thirdUserKey!2024"),
        ]),
    )
    .expect("create");
    assert_eq!(company.name, b"acme".to_vec());
    assert_eq!(company.users.len(), 3);
    assert_eq!(company.users[0].username, b"alice".to_vec());
    assert_eq!(company.users[1].username, b"bob".to_vec());
    assert_eq!(company.users[2].username, b"carol".to_vec());
    assert_eq!(company.hmackey.len(), 32);
    assert_eq!(company.users[0].salt.len(), 16);
    assert_ne!(company.users[0].salt, company.users[1].salt);
}

#[test]
fn duplicate_usernames_are_refused() {
    let result = create_company(
        &b"acme".to_vec(),
        &creds(&[(b"alice", b"P@ssw0rd!longX"), (b"alice", b"AnotherStrong#1234")]),
    );
    assert!(result.is_none());

    let users = create_users(
        &random(64),
        &creds(&[(b"bob", b"pw-one-123456"), (b"bob", b"pw-two-123456")]),
    );
    assert!(users.is_none());
}

// The recovered group key is the digest of the grouped shards, so every
// distinct user pair recovers the same key: each of the next two tests
// checks one pair against that same anchor.
#[test]
fn first_user_pair_recovers_the_creation_group_key() {
    let grouped = random(64);
    let users = create_users(
        &grouped,
        &creds(&[(b"alice", b"P@ssw0rd!longX"), (b"bob", b"AnotherStrong#1234")]),
    )
    .expect("users");
    let recovered = build_groupkey(&user_pair(&users, 0, 1, b"P@ssw0rd!longX", b"AnotherStrong#1234"))
        .expect("alice+bob");
    assert_eq!(recovered, generate_group_key(&grouped));
}

#[test]
fn reversed_user_pair_recovers_the_creation_group_key() {
    let grouped = random(64);
    let users = create_users(
        &grouped,
        &creds(&[(b"alice", b"P@ssw0rd!longX"), (b"bob", b"AnotherStrong#1234")]),
    )
    .expect("users");
    let recovered = build_groupkey(&user_pair(&users, 1, 0, b"AnotherStrong#1234", b"P@ssw0rd!longX"))
        .expect("bob+alice");
    assert_eq!(recovered, generate_group_key(&grouped));
}

#[test]
fn wrong_password_gives_the_same_silent_failure() {
    let company = create_company(
        &b"acme".to_vec(),
        &creds(&[(b"alice", b"P@ssw0rd!longX"), (b"bob", b"AnotherStrong#1234")]),
    )
    .expect("create");
    assert!(build_groupkey(&pair(&company, 0, 1, b"wrong-password", b"AnotherStrong#1234"))
        .is_none());
}

#[test]
fn the_same_user_twice_cannot_recover_the_group_key() {
    let grouped = random(64);
    let users = create_users(
        &grouped,
        &creds(&[(b"alice", b"P@ssw0rd!longX"), (b"bob", b"AnotherStrong#1234")]),
    )
    .expect("users");
    assert!(build_groupkey(&user_pair(&users, 0, 0, b"P@ssw0rd!longX", b"P@ssw0rd!longX"))
        .is_none());
}

#[test]
fn rekey_keeps_name_and_hmac_key() {
    let masterkey = random(32);
    let hmackey = random(32);
    let company = rekey_company(
        &masterkey,
        &hmackey,
        &b"acme".to_vec(),
        &creds(&[(b"alice", b"P@ssw0rd!longX"), (b"dave", b"fourthKey!2024x")]),
    )
    .expect("rekey");
    assert_eq!(company.name, b"acme".to_vec());
    assert_eq!(company.hmackey, hmackey);
    assert_eq!(company.users.len(), 2);
    assert_eq!(company.users[1].username, b"dave".to_vec());
}
