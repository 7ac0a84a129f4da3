use secure_cloud::files::get_filename;
use secure_cloud::inputs::{check_password_strength, password_acceptable};
use secure_cloud::store::{append_filename_index, empty_index, escape_company_name};
use secure_cloud::codec::decode_index;
use secure_cloud::types::{bytes_eq, zero_bytes, Company, EncryptedBox};

#[test]
fn filename_is_the_last_path_component() {
    assert_eq!(get_filename(&b"hello.txt".to_vec()), b"hello.txt".to_vec());
    assert_eq!(get_filename(&b"/tmp/files/hello.txt".to_vec()), b"hello.txt".to_vec());
    assert_eq!(get_filename(&b"a/b/c".to_vec()), b"c".to_vec());
    assert_eq!(get_filename(&b"dir/".to_vec()), Vec::<u8>::new());
    assert_eq!(get_filename(&Vec::new()), Vec::<u8>::new());
}

#[test]
fn company_names_escape_to_safe_directories() {
    assert_eq!(escape_company_name(&b"acme".to_vec()), b"acme".to_vec());
    assert_eq!(escape_company_name(&b"Acme Corp/2024".to_vec()), b"Acme-Corp-2024".to_vec());
    let folded = escape_company_name(&"héllo".as_bytes().to_vec());
    assert_eq!(folded, b"hello".to_vec());
    for b in escape_company_name(&"a/b c…".as_bytes().to_vec()) {
        assert!(b < 128 && b != b'/' && b != b' ');
    }
}

#[test]
fn password_strength_floor() {
    assert!(check_password_strength(&b"correct horse battery staple".to_vec()));
    assert!(!check_password_strength(&b"short".to_vec()));
    assert!(!check_password_strength(&b"aaaaaaaaaaaaaaaa".to_vec()));
    assert!(!check_password_strength(&vec![b'x'; 65]));
    assert!(!check_password_strength(&Vec::new()));
}

#[test]
fn password_acceptance_rule_is_exact() {
    assert!(password_acceptable(&vec![b'x'; 12], 3));
    assert!(password_acceptable(&vec![b'x'; 64], 4));
    assert!(!password_acceptable(&vec![b'x'; 12], 2));
    assert!(!password_acceptable(&vec![b'x'; 11], 4));
    assert!(!password_acceptable(&vec![b'x'; 65], 4));
}

#[test]
fn filename_index_appends_in_order() {
    let name = EncryptedBox { ct: vec![1; 20], nonce: vec![2; 24] };
    let index = empty_index();
    let index = append_filename_index(&index, &b"uuid-1".to_vec(), &name).expect("append");
    let index = append_filename_index(&index, &b"uuid-2".to_vec(), &name).expect("append");
    let records = decode_index(&index).expect("decode");
    assert_eq!(records.len(), 2);
    assert_eq!(records[0].uuid, b"uuid-1".to_vec());
    assert_eq!(records[1].uuid, b"uuid-2".to_vec());

    assert!(append_filename_index(&vec![1, 2, 3], &b"u".to_vec(), &name).is_none());
}

#[test]
fn fresh_uuids_are_well_formed_and_distinct() {
    let a = secure_cloud::store::fresh_uuid();
    let b = secure_cloud::store::fresh_uuid();
    assert_eq!(a.len(), 36);
    assert_ne!(a, b);
    for c in &a {
        assert!(*c == b'-' || c.is_ascii_digit() || (b'a'..=b'f').contains(c));
    }
}

#[test]
fn byte_helpers_behave() {
    assert!(bytes_eq(&b"abc".to_vec(), &b"abc".to_vec()));
    assert!(!bytes_eq(&b"abc".to_vec(), &b"abd".to_vec()));
    assert!(!bytes_eq(&b"abc".to_vec(), &b"ab".to_vec()));
    assert_eq!(zero_bytes(4), vec![0, 0, 0, 0]);
}

#[test]
fn empty_company_is_blank() {
    let c = Company::empty_company();
    assert!(c.name.is_empty());
    assert!(c.users.is_empty());
    assert_eq!(c.hmackey, vec![0u8; 32]);
    assert_eq!(c.masterkey_encrypted.ct, vec![0u8; 16]);
    assert_eq!(c.masterkey_encrypted.nonce, vec![0u8; 24]);
    assert_eq!(c.hmackey_encrypted.ct, vec![0u8; 16]);
    assert_eq!(c.hmackey_encrypted.nonce, vec![0u8; 24]);
    let found = c.find_user(&b"alice".to_vec());
    assert!(found.is_none());
}

#[test]
fn find_user_returns_the_first_match() {
    let mut c = Company::empty_company();
    c.users.push(secure_cloud::types::User {
        username: b"alice".to_vec(),
        encrypted_shard: EncryptedBox { ct: vec![1; 16], nonce: vec![0; 24] },
        salt: vec![0; 16],
    });
    c.users.push(secure_cloud::types::User {
        username: b"bob".to_vec(),
        encrypted_shard: EncryptedBox { ct: vec![2; 16], nonce: vec![0; 24] },
        salt: vec![1; 16],
    });
    let found = c.find_user(&b"bob".to_vec()).expect("bob exists");
    assert_eq!(found.salt, vec![1; 16]);
    assert!(c.find_user(&b"carol".to_vec()).is_none());
}
