use secure_cloud::codec::{
    decode_auth_request, decode_box_msg, decode_challenge, decode_company, decode_file_response,
    decode_index, decode_upload, encode_auth_request, encode_box_msg, encode_challenge,
    encode_company, encode_file_response, encode_index, encode_upload, frame_request,
    parse_request, push_u64_le, read_u64,
};
use secure_cloud::types::{Company, EncryptedBox, FileNameBox, RequestType, User};

fn sample_box(fill: u8) -> EncryptedBox {
    EncryptedBox { ct: vec![fill; 20], nonce: vec![fill.wrapping_add(1); 24] }
}

fn sample_user(name: &[u8], fill: u8) -> User {
    User { username: name.to_vec(), encrypted_shard: sample_box(fill), salt: vec![fill; 16] }
}

fn sample_company() -> Company {
    Company {
        name: b"acme".to_vec(),
        users: vec![sample_user(b"alice", 3), sample_user(b"bob", 7)],
        masterkey_encrypted: sample_box(11),
        hmackey: vec![9; 32],
        hmackey_encrypted: sample_box(13),
    }
}

fn assert_company_eq(a: &Company, b: &Company) {
    assert_eq!(a.name, b.name);
    assert_eq!(a.users.len(), b.users.len());
    for (x, y) in a.users.iter().zip(b.users.iter()) {
        assert_eq!(x.username, y.username);
        assert_eq!(x.encrypted_shard.ct, y.encrypted_shard.ct);
        assert_eq!(x.encrypted_shard.nonce, y.encrypted_shard.nonce);
        assert_eq!(x.salt, y.salt);
    }
    assert_eq!(a.masterkey_encrypted.ct, b.masterkey_encrypted.ct);
    assert_eq!(a.hmackey, b.hmackey);
    assert_eq!(a.hmackey_encrypted.ct, b.hmackey_encrypted.ct);
}

#[test]
fn u64_little_endian_roundtrip() {
    for value in [0u64, 1, 255, 256, 0xDEAD_BEEF, u64::MAX] {
        let bytes = push_u64_le(Vec::new(), value);
        assert_eq!(bytes.len(), 8);
        assert_eq!(read_u64(&bytes, 0), Some((value, 8)));
    }
    let bytes = push_u64_le(Vec::new(), 0x0102_0304_0506_0708);
    assert_eq!(bytes, vec![8, 7, 6, 5, 4, 3, 2, 1]);
    assert_eq!(read_u64(&vec![1, 2, 3], 0), None);
}

#[test]
fn company_codec_roundtrip() {
    let company = sample_company();
    let encoded = encode_company(&company);
    let decoded = decode_company(&encoded).expect("decode");
    assert_company_eq(&company, &decoded);
}

#[test]
fn company_codec_rejects_trailing_bytes_and_truncation() {
    let company = sample_company();
    let mut encoded = encode_company(&company);
    encoded.push(0);
    assert!(decode_company(&encoded).is_none());
    encoded.pop();
    encoded.pop();
    assert!(decode_company(&encoded).is_none());
    assert!(decode_company(&Vec::new()).is_none());
}

#[test]
fn company_codec_rejects_malformed_widths() {
    let mut company = sample_company();
    company.hmackey = vec![9; 31];
    let encoded = encode_company(&company);
    assert!(decode_company(&encoded).is_none());

    let mut company = sample_company();
    company.users[0].salt = vec![1; 15];
    let encoded = encode_company(&company);
    assert!(decode_company(&encoded).is_none());
}

#[test]
fn auth_request_codec_roundtrip() {
    let encoded = encode_auth_request(&b"acme".to_vec(), &b"alice".to_vec(), &b"bob".to_vec());
    let (name, u1, u2) = decode_auth_request(&encoded).expect("decode");
    assert_eq!(name, b"acme".to_vec());
    assert_eq!(u1, b"alice".to_vec());
    assert_eq!(u2, b"bob".to_vec());
}

#[test]
fn challenge_codec_roundtrip() {
    let a = sample_user(b"alice", 3);
    let b = sample_user(b"bob", 7);
    let random = vec![42u8; 64];
    let hm = sample_box(11);
    let encoded = encode_challenge(&a, &b, &random, &hm);
    let (da, db, dr, dhm) = decode_challenge(&encoded).expect("decode");
    assert_eq!(da.username, a.username);
    assert_eq!(db.username, b.username);
    assert_eq!(dr, random);
    assert_eq!(dhm.ct, hm.ct);
    assert_eq!(dhm.nonce, hm.nonce);
}

#[test]
fn challenge_codec_rejects_short_random() {
    let a = sample_user(b"alice", 3);
    let b = sample_user(b"bob", 7);
    let encoded = encode_challenge(&a, &b, &vec![42u8; 63], &sample_box(11));
    assert!(decode_challenge(&encoded).is_none());
}

#[test]
fn upload_and_file_response_codec_roundtrip() {
    let (f, n, k) = (sample_box(1), sample_box(2), sample_box(3));
    let encoded = encode_upload(&f, &n, &k);
    let (df, dn, dk) = decode_upload(&encoded).expect("decode");
    assert_eq!((df.ct, dn.ct, dk.ct), (f.ct.clone(), n.ct.clone(), k.ct.clone()));

    let encoded = encode_file_response(&f, &k);
    let (df, dk) = decode_file_response(&encoded).expect("decode");
    assert_eq!((df.ct, dk.ct), (f.ct.clone(), k.ct.clone()));

    let encoded = encode_box_msg(&f);
    let db = decode_box_msg(&encoded).expect("decode");
    assert_eq!(db.ct, f.ct);
    assert_eq!(db.nonce, f.nonce);
}

#[test]
fn index_codec_roundtrip() {
    let records = vec![
        FileNameBox { uuid: b"0001".to_vec(), encrypted_name: sample_box(1) },
        FileNameBox { uuid: b"0002".to_vec(), encrypted_name: sample_box(2) },
    ];
    let encoded = encode_index(&records);
    let decoded = decode_index(&encoded).expect("decode");
    assert_eq!(decoded.len(), 2);
    assert_eq!(decoded[0].uuid, b"0001".to_vec());
    assert_eq!(decoded[1].uuid, b"0002".to_vec());

    let empty = encode_index(&Vec::new());
    assert_eq!(decode_index(&empty).expect("decode").len(), 0);
}

#[test]
fn frame_roundtrip_and_tag_bytes() {
    let payload = b"payload".to_vec();
    let framed = frame_request(payload.clone(), RequestType::UploadFile);
    assert_eq!(framed.last(), Some(&3u8));
    let (t, p) = parse_request(&framed).expect("parse");
    assert_eq!(t, RequestType::UploadFile);
    assert_eq!(p, payload);

    assert!(parse_request(&Vec::new()).is_none());
    assert!(parse_request(&vec![1, 2, 7]).is_none());

    assert_eq!(RequestType::from_byte(0), Some(RequestType::CloseConnection));
    assert_eq!(RequestType::from_byte(6), Some(RequestType::RegenerateKey));
    assert_eq!(RequestType::from_byte(7), None);
    for t in [
        RequestType::CloseConnection,
        RequestType::CreateCompany,
        RequestType::AuthenticateSession,
        RequestType::UploadFile,
        RequestType::GetFilenames,
        RequestType::DownloadFile,
        RequestType::RegenerateKey,
    ] {
        assert_eq!(RequestType::from_byte(t.to_byte()), Some(t));
    }
}
