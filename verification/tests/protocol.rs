use secure_cloud::codec::{decode_index, encode_box_msg, encode_company, frame_request};
use secure_cloud::creation::rekey_company;
use secure_cloud::crypto::random;
use secure_cloud::requests::{
    client_auth_request, client_download_request, client_finish_auth, client_process_challenge,
    decrypt_filenames, parse_download_reply, prepare_upload,
};
use secure_cloud::server::{
    server_on_company, server_on_frame, reply_ko, ServerAction, SessionState,
};
use secure_cloud::store::{append_filename_index, build_file_response, empty_index};
use secure_cloud::types::{Company, EncryptedBox, RequestType};
use secure_cloud::VaultError;

fn creds(pairs: &[(&[u8], &[u8])]) -> Vec<(Vec<u8>, Vec<u8>)> {
    pairs.iter().map(|(u, p)| (u.to_vec(), p.to_vec())).collect()
}

/// Runs the four-message handshake against the given stored company and
/// returns the authenticated server state with the client's recovered
/// master key, or the failure reply.
fn handshake(
    company: &Company,
    user1: &[u8],
    pass1: &[u8],
    user2: &[u8],
    pass2: &[u8],
) -> Result<(SessionState, Vec<u8>), Vec<u8>> {
    let request = client_auth_request(&company.name, &user1.to_vec(), &user2.to_vec());
    let (state, action) = server_on_frame(SessionState::Unauth, &request);
    let asked = match action {
        ServerAction::LoadCompany(name) => name,
        other => panic!("expected a company lookup, got {:?}", action_name(&other)),
    };
    assert_eq!(asked, company.name);
    let (state, action) = server_on_company(state, Some(company.clone()));
    let challenge_msg = match action {
        ServerAction::Reply(m) => m,
        other => panic!("expected a challenge reply, got {:?}", action_name(&other)),
    };
    let (mac, groupkey, _hmackey) =
        match client_process_challenge(&challenge_msg, &pass1.to_vec(), &pass2.to_vec()) {
            Some(r) => r,
            None => return Err(challenge_msg),
        };
    let (state, action) = server_on_frame(state, &mac);
    let reply = match action {
        ServerAction::Reply(m) => m,
        other => panic!("expected a reply after the MAC, got {:?}", action_name(&other)),
    };
    if reply == reply_ko() {
        return Err(reply);
    }
    let masterkey = client_finish_auth(&reply, &groupkey).expect("unwrap master key");
    Ok((state, masterkey))
}

fn action_name(action: &ServerAction) -> &'static str {
    match action {
        ServerAction::Close => "Close",
        ServerAction::Reply(_) => "Reply",
        ServerAction::LoadCompany(_) => "LoadCompany",
        ServerAction::CreateCompany(_) => "CreateCompany",
        ServerAction::SaveFile { .. } => "SaveFile",
        ServerAction::ListFiles { .. } => "ListFiles",
        ServerAction::GetFile { .. } => "GetFile",
        ServerAction::SaveCompanyData(_) => "SaveCompanyData",
    }
}

/// The stored objects of one uploaded file.
struct StoredFile {
    uuid: Vec<u8>,
    data_blob: Vec<u8>,
    key_blob: Vec<u8>,
}

/// Drives one upload through the server machine and stores the blobs
/// as the server would.
fn upload(
    state: SessionState,
    masterkey: &Vec<u8>,
    body: &[u8],
    filename: &[u8],
    uuid: &[u8],
    index: &Vec<u8>,
) -> (SessionState, StoredFile, Vec<u8>) {
    let request = prepare_upload(&body.to_vec(), &filename.to_vec(), masterkey);
    let (state, action) = server_on_frame(state, &request);
    let (file, name, key) = match action {
        ServerAction::SaveFile { file, name, key, .. } => (file, name, key),
        other => panic!("expected a file save, got {:?}", action_name(&other)),
    };
    let stored = StoredFile {
        uuid: uuid.to_vec(),
        data_blob: encode_box_msg(&file),
        key_blob: encode_box_msg(&key),
    };
    let new_index = append_filename_index(index, &uuid.to_vec(), &name).expect("index append");
    (state, stored, new_index)
}

fn company_acme() -> Company {
    rekey_company(
        &random(32),
        &random(32),
        &b"acme".to_vec(),
        &creds(&[(b"alice", b"P@ssw0rd!longX"), (b"bob", b"AnotherStrong#1234")]),
    )
    .expect("company")
}

#[test]
fn create_company_request_reaches_the_store() {
    let company = company_acme();
    let frame = frame_request(encode_company(&company), RequestType::CreateCompany);
    let (state, action) = server_on_frame(SessionState::Unauth, &frame);
    assert!(matches!(state, SessionState::Unauth));
    match action {
        ServerAction::CreateCompany(c) => {
            assert_eq!(c.name, b"acme".to_vec());
            assert_eq!(c.users.len(), 2);
        },
        other => panic!("expected a company create, got {:?}", action_name(&other)),
    }
}

#[test]
fn create_company_with_one_user_is_refused() {
    let mut company = company_acme();
    company.users.pop();
    let frame = frame_request(encode_company(&company), RequestType::CreateCompany);
    let (_, action) = server_on_frame(SessionState::Unauth, &frame);
    match action {
        ServerAction::Reply(m) => assert_eq!(m, reply_ko()),
        other => panic!("expected KO, got {:?}", action_name(&other)),
    }
}

#[test]
fn happy_handshake_recovers_the_master_key() {
    let masterkey = random(32);
    let hmackey = random(32);
    let company = rekey_company(
        &masterkey,
        &hmackey,
        &b"acme".to_vec(),
        &creds(&[(b"alice", b"P@ssw0rd!longX"), (b"bob", b"AnotherStrong#1234")]),
    )
    .expect("company");
    let (state, recovered) =
        handshake(&company, b"alice", b"P@ssw0rd!longX", b"bob", b"AnotherStrong#1234")
            .expect("handshake");
    assert!(matches!(state, SessionState::Authed { .. }));
    assert_eq!(recovered, masterkey);
}

#[test]
fn wrong_password_authenticates_nothing() {
    let company = company_acme();
    // The client's group-key recovery fails, so no MAC is ever sent.
    let result = handshake(&company, b"alice", b"wrong", b"bob", b"AnotherStrong#1234");
    assert!(result.is_err());

    // A forged MAC of the right width draws KO and leaves the session
    // unauthenticated.
    let request = client_auth_request(&company.name, &b"alice".to_vec(), &b"bob".to_vec());
    let (state, _) = server_on_frame(SessionState::Unauth, &request);
    let (state, _) = server_on_company(state, Some(company.clone()));
    let (state, action) = server_on_frame(state, &vec![0u8; 32]);
    assert!(matches!(state, SessionState::Unauth));
    match action {
        ServerAction::Reply(m) => assert_eq!(m, reply_ko()),
        other => panic!("expected KO, got {:?}", action_name(&other)),
    }
}

#[test]
fn unknown_company_or_user_is_refused() {
    let company = company_acme();
    let request = client_auth_request(&b"ghost".to_vec(), &b"alice".to_vec(), &b"bob".to_vec());
    let (state, _) = server_on_frame(SessionState::Unauth, &request);
    let (state, action) = server_on_company(state, None);
    assert!(matches!(state, SessionState::Unauth));
    match action {
        ServerAction::Reply(m) => assert_eq!(m, vec![0u8]),
        other => panic!("expected the missing-company byte, got {:?}", action_name(&other)),
    }

    let request = client_auth_request(&company.name, &b"mallory".to_vec(), &b"bob".to_vec());
    let (state, _) = server_on_frame(SessionState::Unauth, &request);
    let (state, action) = server_on_company(state, Some(company));
    assert!(matches!(state, SessionState::Unauth));
    match action {
        ServerAction::Reply(m) => assert_eq!(m, reply_ko()),
        other => panic!("expected KO, got {:?}", action_name(&other)),
    }
}

#[test]
fn upload_then_download_returns_the_same_bytes() {
    let masterkey = random(32);
    let company = rekey_company(
        &masterkey,
        &random(32),
        &b"acme".to_vec(),
        &creds(&[(b"alice", b"P@ssw0rd!longX"), (b"bob", b"AnotherStrong#1234")]),
    )
    .expect("company");
    let state = SessionState::Authed { company };
    let body = b"Hello, vault!\n";
    let (state, stored, index) =
        upload(state, &masterkey, body, b"hello.txt", b"uuid-0001", &empty_index());

    // Listing: the server sends the index; the client decrypts the names.
    let (state, action) = server_on_frame(state, &frame_request(Vec::new(), RequestType::GetFilenames));
    match action {
        ServerAction::ListFiles { company_name } => assert_eq!(company_name, b"acme".to_vec()),
        other => panic!("expected a listing, got {:?}", action_name(&other)),
    }
    let records = decode_index(&index).expect("index decodes");
    let names = decrypt_filenames(&records, &masterkey).expect("names decrypt");
    assert_eq!(names.len(), 1);
    assert_eq!(names[0].0, b"uuid-0001".to_vec());
    assert_eq!(names[0].1, b"hello.txt".to_vec());

    // Download by UUID.
    let request = client_download_request(&stored.uuid);
    let (_, action) = server_on_frame(state, &request);
    match action {
        ServerAction::GetFile { company_name, uuid } => {
            assert_eq!(company_name, b"acme".to_vec());
            assert_eq!(uuid, b"uuid-0001".to_vec());
        },
        other => panic!("expected a file fetch, got {:?}", action_name(&other)),
    }
    let reply = build_file_response(&stored.data_blob, &stored.key_blob).expect("stored blobs");
    let downloaded = parse_download_reply(&reply, &masterkey).expect("download");
    assert_eq!(downloaded, body.to_vec());
}

#[test]
fn rekey_preserves_stored_files() {
    let masterkey = random(32);
    let hmackey = random(32);
    // The session is already authenticated; only the replacement record
    // and the fresh handshake below need password hashing.
    let mut shell = secure_cloud::types::Company::empty_company();
    shell.name = b"acme".to_vec();
    shell.hmackey = hmackey.clone();
    let state = SessionState::Authed { company: shell };
    let body = b"Hello, vault!\n";
    let (state, stored, _index) =
        upload(state, &masterkey, body, b"hello.txt", b"uuid-0001", &empty_index());

    // Re-key with a new user set but the same master and HMAC keys.
    let replacement = rekey_company(
        &masterkey,
        &hmackey,
        &b"acme".to_vec(),
        &creds(&[(b"alice", b"P@ssw0rd!longX"), (b"dave", b"fourthUserKey!24")]),
    )
    .expect("rekey");
    let frame = frame_request(encode_company(&replacement), RequestType::RegenerateKey);
    let (_, action) = server_on_frame(state, &frame);
    let saved = match action {
        ServerAction::SaveCompanyData(c) => c,
        other => panic!("expected a company save, got {:?}", action_name(&other)),
    };

    // Authenticate with the new pair against the saved record.
    let (_, recovered) =
        handshake(&saved, b"alice", b"P@ssw0rd!longX", b"dave", b"fourthUserKey!24")
            .expect("handshake after re-key");
    assert_eq!(recovered, masterkey);

    // The file uploaded before the re-key still downloads byte-identical.
    let reply = build_file_response(&stored.data_blob, &stored.key_blob).expect("stored blobs");
    assert_eq!(parse_download_reply(&reply, &recovered), Ok(body.to_vec()));
}

#[test]
fn tampered_stored_file_fails_authentication() {
    let masterkey = random(32);
    let company = rekey_company(
        &masterkey,
        &random(32),
        &b"acme".to_vec(),
        &creds(&[(b"alice", b"P@ssw0rd!longX"), (b"bob", b"AnotherStrong#1234")]),
    )
    .expect("company");
    let state = SessionState::Authed { company };
    let (_, mut stored, _) = upload(
        state,
        &masterkey,
        b"Hello, vault!\n",
        b"hello.txt",
        b"uuid-0001",
        &empty_index(),
    );

    // Flip one byte inside the stored ciphertext (past the length prefix).
    stored.data_blob[12] ^= 1;
    let reply = build_file_response(&stored.data_blob, &stored.key_blob).expect("stored blobs");
    assert_eq!(parse_download_reply(&reply, &masterkey), Err(VaultError::AuthFail));
}

#[test]
fn file_operations_before_authentication_are_rejected() {
    for state in [
        SessionState::Unauth,
        SessionState::AwaitCompany { user1: b"a".to_vec(), user2: b"b".to_vec() },
    ] {
        for frame in [
            frame_request(vec![1, 2, 3], RequestType::UploadFile),
            frame_request(Vec::new(), RequestType::GetFilenames),
            frame_request(b"uuid-0001".to_vec(), RequestType::DownloadFile),
            frame_request(vec![9, 9], RequestType::RegenerateKey),
        ] {
            let (next, action) = server_on_frame(clone_state(&state), &frame);
            match action {
                ServerAction::Reply(m) => assert_eq!(m, reply_ko()),
                other => panic!("expected KO, got {:?}", action_name(&other)),
            }
            assert!(same_shape(&state, &next));
        }
    }
}

fn clone_state(state: &SessionState) -> SessionState {
    match state {
        SessionState::Unauth => SessionState::Unauth,
        SessionState::AwaitCompany { user1, user2 } => SessionState::AwaitCompany {
            user1: user1.clone(),
            user2: user2.clone(),
        },
        SessionState::AwaitMac { company, challenge } => SessionState::AwaitMac {
            company: company.clone(),
            challenge: challenge.clone(),
        },
        SessionState::Authed { company } => SessionState::Authed { company: company.clone() },
    }
}

fn same_shape(a: &SessionState, b: &SessionState) -> bool {
    matches!(
        (a, b),
        (SessionState::Unauth, SessionState::Unauth)
            | (SessionState::AwaitCompany { .. }, SessionState::AwaitCompany { .. })
            | (SessionState::AwaitMac { .. }, SessionState::AwaitMac { .. })
            | (SessionState::Authed { .. }, SessionState::Authed { .. })
    )
}

#[test]
fn malformed_requests_close_the_connection() {
    // Unknown tag byte.
    let (state, action) = server_on_frame(SessionState::Unauth, &vec![1, 2, 200]);
    assert!(matches!(state, SessionState::Unauth));
    assert!(matches!(action, ServerAction::Close));

    // Truncated company record.
    let frame = frame_request(vec![1, 2, 3], RequestType::CreateCompany);
    let (_, action) = server_on_frame(SessionState::Unauth, &frame);
    assert!(matches!(action, ServerAction::Close));

    // Empty frame: the client disconnected.
    let (_, action) = server_on_frame(SessionState::Unauth, &Vec::new());
    assert!(matches!(action, ServerAction::Close));
}

#[test]
fn stray_bytes_in_await_mac_state_close_the_connection() {
    let company = company_acme();
    let state = SessionState::AwaitMac { company, challenge: vec![7u8; 64] };
    let (state, action) = server_on_frame(state, &vec![1u8; 31]);
    assert!(matches!(state, SessionState::Unauth));
    assert!(matches!(action, ServerAction::Close));
}

#[test]
fn tampered_upload_name_fails_the_listing() {
    let masterkey = random(32);
    let company = company_acme();
    let state = SessionState::Authed { company };
    let request = prepare_upload(&b"body".to_vec(), &b"name.txt".to_vec(), &masterkey);
    let (_, action) = server_on_frame(state, &request);
    let name = match action {
        ServerAction::SaveFile { name, .. } => name,
        other => panic!("expected a file save, got {:?}", action_name(&other)),
    };
    let mut ct = name.ct.clone();
    ct[0] ^= 1;
    let tampered = EncryptedBox { ct, nonce: name.nonce.clone() };
    let records = vec![secure_cloud::types::FileNameBox {
        uuid: b"uuid-0001".to_vec(),
        encrypted_name: tampered,
    }];
    assert!(decrypt_filenames(&records, &masterkey).is_none());
}

#[test]
fn unparseable_download_reply_is_a_protocol_error() {
    let masterkey = random(32);
    assert_eq!(
        parse_download_reply(&reply_ko(), &masterkey),
        Err(VaultError::ProtocolError)
    );
    assert_eq!(
        parse_download_reply(&Vec::new(), &masterkey),
        Err(VaultError::ProtocolError)
    );
}

#[test]
fn rekey_that_changes_the_hmac_key_is_refused() {
    let company = company_acme();
    let mut replacement = company.clone();
    replacement.hmackey[0] ^= 1;
    let state = SessionState::Authed { company };
    let frame = frame_request(encode_company(&replacement), RequestType::RegenerateKey);
    let (state, action) = server_on_frame(state, &frame);
    assert!(matches!(state, SessionState::Authed { .. }));
    match action {
        ServerAction::Reply(m) => assert_eq!(m, reply_ko()),
        other => panic!("expected KO, got {:?}", action_name(&other)),
    }
}
