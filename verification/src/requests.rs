//! The client side of the protocol: building requests, processing the
//! authentication challenge, preparing uploads and opening download
//! replies. Everything here computes on plain values; the socket work
//! around it stays outside the library.

use vstd::prelude::*;

use crate::authentication::{build_groupkey, spec_groupkey};
use crate::codec::{
    decode_challenge, decode_box_msg, decode_file_response, encode_auth_request, encode_upload,
    frame_request, spec_enc_auth_request, spec_enc_file_response, spec_enc_upload, spec_frame,
    spec_parse_box_msg, spec_parse_challenge, spec_parse_file_response, spec_parse_upload,
    fits,
};
use crate::creation::company_keyed_with;
use crate::crypto::{dec_of, decrypt, encrypt, mac_compute, mac_of, random_key};
use crate::types::{
    clone_bytes, CompanyView, EncryptedBox, EncryptedBoxView, FileNameBox, RequestType, User,
    is_key,
};
use crate::VaultError;

verus! {

/// What a download reply's pair of envelopes yields under a master
/// key: unwrap the file key, then open the file body with it.
pub open spec fn download_result(
    file: EncryptedBoxView,
    key: EncryptedBoxView,
    mk: Seq<u8>,
) -> Option<Seq<u8>> {
    match dec_of(key.ct, key.nonce, mk) {
        Some(fk) => if is_key(fk) {
            dec_of(file.ct, file.nonce, fk)
        } else {
            None
        },
        None => None,
    }
}

/// What the client concludes from a whole download reply: the file
/// bytes, an authentication failure, or a protocol error on a message
/// that does not parse.
pub open spec fn spec_download_reply(d: Seq<u8>, mk: Seq<u8>) -> Result<Seq<u8>, VaultError> {
    match spec_parse_file_response(d) {
        None => Err(VaultError::ProtocolError),
        Some((file, key)) => match download_result(file, key, mk) {
            Some(m) => Ok(m),
            None => Err(VaultError::AuthFail),
        },
    }
}

/// What the client concludes from an authentication challenge: the
/// MAC to send, the group key and the HMAC key, or nothing when the
/// challenge does not parse, the credentials fail, or the unwrapped
/// HMAC key is malformed.
pub open spec fn spec_process_challenge(d: Seq<u8>, p1: Seq<u8>, p2: Seq<u8>) -> Option<
    (Seq<u8>, Seq<u8>, Seq<u8>),
> {
    match spec_parse_challenge(d) {
        Some((a, b, random, hm)) => match spec_groupkey(seq![(a, p1), (b, p2)]) {
            Some(gk) => match dec_of(hm.ct, hm.nonce, gk) {
                Some(hk) => if is_key(hk) {
                    Some((mac_of(hk, random), gk, hk))
                } else {
                    None
                },
                None => None,
            },
            None => None,
        },
        None => None,
    }
}

/// What the client concludes from the wrapped-master-key reply: the
/// master key, or nothing when the reply does not parse or does not
/// unwrap to a 32-byte key.
pub open spec fn spec_finish_auth(d: Seq<u8>, gk: Seq<u8>) -> Option<Seq<u8>> {
    match spec_parse_box_msg(d) {
        Some(b) => match dec_of(b.ct, b.nonce, gk) {
            Some(mk) => if is_key(mk) {
                Some(mk)
            } else {
                None
            },
            None => None,
        },
        None => None,
    }
}

/// Builds the framed authentication request for a company and two
/// usernames.
pub fn client_auth_request(company_name: &Vec<u8>, user1: &Vec<u8>, user2: &Vec<u8>) -> (r: Vec<
    u8,
>)
    ensures
        r@ == spec_frame(
            spec_enc_auth_request(company_name@, user1@, user2@),
            RequestType::AuthenticateSession,
        ),
{
    frame_request(
        encode_auth_request(company_name, user1, user2),
        RequestType::AuthenticateSession,
    )
}

/// Processes the server's challenge: recover the group key from the
/// two user records and passwords, unwrap the HMAC key, and compute
/// the MAC over the random challenge.
///
/// Returns `(mac, group key, HMAC key)`; every failure path yields
/// the same `None`.
pub fn client_process_challenge(data: &Vec<u8>, password1: &Vec<u8>, password2: &Vec<u8>) -> (r:
    Option<(Vec<u8>, Vec<u8>, Vec<u8>)>)
    requires
        password1@.len() <= 4294967295,
        password2@.len() <= 4294967295,
    ensures
        match r {
            Some((mac, gk, hk)) => spec_process_challenge(data@, password1@, password2@) == Some(
                (mac@, gk@, hk@),
            ) && mac@.len() == 32 && is_key(gk@) && is_key(hk@),
            None => spec_process_challenge(data@, password1@, password2@) is None,
        },
{
    let (user_a, user_b, random, hm) = match decode_challenge(data) {
        Some(c) => c,
        None => {
            return None;
        },
    };
    let ghost av = user_a@;
    let ghost bv = user_b@;
    let mut creds: Vec<(User, Vec<u8>)> = Vec::new();
    creds.push((user_a, clone_bytes(password1)));
    creds.push((user_b, clone_bytes(password2)));
    proof {
        assert(crate::authentication::cred_views(creds@) =~= seq![
            (av, password1@),
            (bv, password2@),
        ]);
    }
    let groupkey = match build_groupkey(&creds) {
        Some(k) => k,
        None => {
            return None;
        },
    };
    let hmackey = match decrypt(&hm, &groupkey) {
        Ok(k) => k,
        Err(_) => {
            return None;
        },
    };
    if hmackey.len() != 32 {
        return None;
    }
    let mac = mac_compute(&hmackey, &random);
    Some((mac, groupkey, hmackey))
}

/// Finishes authentication: unwrap the master key from the server's
/// reply with the recovered group key.
pub fn client_finish_auth(reply: &Vec<u8>, groupkey: &Vec<u8>) -> (r: Option<Vec<u8>>)
    requires
        is_key(groupkey@),
    ensures
        match r {
            Some(mk) => spec_finish_auth(reply@, groupkey@) == Some(mk@) && is_key(mk@),
            None => spec_finish_auth(reply@, groupkey@) is None,
        },
{
    let enc_masterkey = match decode_box_msg(reply) {
        Some(b) => b,
        None => {
            return None;
        },
    };
    let masterkey = match decrypt(&enc_masterkey, groupkey) {
        Ok(k) => k,
        Err(_) => {
            return None;
        },
    };
    if masterkey.len() != 32 {
        return None;
    }
    Some(masterkey)
}

/// Prepares a framed upload request: encrypt the file under a fresh
/// random file key, wrap the file key and the filename under the
/// master key.
///
/// Whatever nonces and file key were drawn, downloading the payload's
/// envelopes under the same master key returns the file bytes, and
/// the name envelope opens to the filename.
pub fn prepare_upload(file: &Vec<u8>, filename: &Vec<u8>, masterkey: &Vec<u8>) -> (r: Vec<u8>)
    requires
        is_key(masterkey@),
        file@.len() <= usize::MAX - 16,
        filename@.len() <= usize::MAX - 16,
    ensures
        exists|f: EncryptedBoxView, n: EncryptedBoxView, k: EncryptedBoxView|
            {
                &&& r@ == spec_frame(#[trigger] spec_enc_upload(f, n, k), RequestType::UploadFile)
                &&& f.wf() && fits(f.ct)
                &&& n.wf() && fits(n.ct)
                &&& k.wf() && fits(k.ct)
                &&& download_result(f, k, masterkey@) == Some(file@)
                &&& dec_of(n.ct, n.nonce, masterkey@) == Some(filename@)
            },
{
    let enc_filename = encrypt(filename, masterkey);
    let filekey = random_key();
    let enc_filekey = encrypt(&filekey, masterkey);
    let enc_file = encrypt(file, &filekey);
    let payload = encode_upload(&enc_file, &enc_filename, &enc_filekey);
    let r = frame_request(payload, RequestType::UploadFile);
    proof {
        assert(download_result(enc_file@, enc_filekey@, masterkey@) == Some(file@));
    }
    r
}

/// Opens a download reply: parse the two envelopes, unwrap the file
/// key with the master key, then open the file body.
pub fn parse_download_reply(data: &Vec<u8>, masterkey: &Vec<u8>) -> (r: Result<
    Vec<u8>,
    VaultError,
>)
    requires
        is_key(masterkey@),
    ensures
        match r {
            Ok(m) => spec_download_reply(data@, masterkey@) == Ok::<Seq<u8>, VaultError>(m@),
            Err(e) => spec_download_reply(data@, masterkey@) == Err::<Seq<u8>, VaultError>(e),
        },
{
    let (enc_file, enc_filekey) = match decode_file_response(data) {
        Some(p) => p,
        None => {
            return Err(VaultError::ProtocolError);
        },
    };
    let filekey = match decrypt(&enc_filekey, masterkey) {
        Ok(k) => k,
        Err(_) => {
            return Err(VaultError::AuthFail);
        },
    };
    if filekey.len() != 32 {
        return Err(VaultError::AuthFail);
    }
    match decrypt(&enc_file, &filekey) {
        Ok(m) => Ok(m),
        Err(_) => Err(VaultError::AuthFail),
    }
}

/// Decrypts a filename listing under the master key; returns
/// `(uuid, filename)` pairs. Any envelope that fails authentication
/// fails the whole listing.
pub fn decrypt_filenames(boxes: &Vec<FileNameBox>, masterkey: &Vec<u8>) -> (r: Option<
    Vec<(Vec<u8>, Vec<u8>)>,
>)
    requires
        is_key(masterkey@),
        forall|i: int| 0 <= i < boxes@.len() ==> (#[trigger] boxes@[i])@.wf(),
    ensures
        match r {
            Some(list) => list@.len() == boxes@.len() && forall|i: int|
                0 <= i < list@.len() ==> (#[trigger] list@[i]).0@ == boxes@[i]@.uuid && dec_of(
                    boxes@[i]@.encrypted_name.ct,
                    boxes@[i]@.encrypted_name.nonce,
                    masterkey@,
                ) == Some(list@[i].1@),
            None => exists|i: int|
                0 <= i < boxes@.len() && dec_of(
                    (#[trigger] boxes@[i])@.encrypted_name.ct,
                    boxes@[i]@.encrypted_name.nonce,
                    masterkey@,
                ) is None,
        },
{
    let mut list: Vec<(Vec<u8>, Vec<u8>)> = Vec::new();
    let n = boxes.len();
    let mut i: usize = 0;
    while i < n
        invariant
            n == boxes@.len(),
            is_key(masterkey@),
            forall|k: int| 0 <= k < boxes@.len() ==> (#[trigger] boxes@[k])@.wf(),
            0 <= i <= n,
            list@.len() == i,
            forall|k: int|
                0 <= k < i ==> (#[trigger] list@[k]).0@ == boxes@[k]@.uuid && dec_of(
                    boxes@[k]@.encrypted_name.ct,
                    boxes@[k]@.encrypted_name.nonce,
                    masterkey@,
                ) == Some(list@[k].1@),
        decreases n - i,
    {
        let b = &boxes[i];
        let name = match decrypt(&b.encrypted_name, masterkey) {
            Ok(name) => name,
            Err(_) => {
                return None;
            },
        };
        list.push((clone_bytes(&b.uuid), name));
        i += 1;
    }
    Some(list)
}

/// Builds the framed download request for one UUID.
pub fn client_download_request(uuid: &Vec<u8>) -> (r: Vec<u8>)
    ensures
        r@ == spec_frame(uuid@, RequestType::DownloadFile),
{
    frame_request(clone_bytes(uuid), RequestType::DownloadFile)
}

/// Envelope chain: a stored pair of envelopes that carries a file
/// under a master key yields exactly that file from the server's
/// download reply, whatever else is on the wire around it.
pub proof fn lemma_envelope_chain(
    file: EncryptedBoxView,
    key: EncryptedBoxView,
    mk: Seq<u8>,
    body: Seq<u8>,
)
    requires
        file.wf(),
        fits(file.ct),
        key.wf(),
        fits(key.ct),
        download_result(file, key, mk) == Some(body),
    ensures
        spec_download_reply(spec_enc_file_response(file, key), mk) == Ok::<Seq<u8>, VaultError>(
            body,
        ),
{
    crate::codec::lemma_file_response_codec_roundtrip(file, key);
}

/// Re-keying preserves files: when a replacement company wraps the
/// same master key, any two of its users still recover a group key
/// that unwraps to that master key, so every stored file still
/// downloads to the same bytes.
pub proof fn lemma_rekey_preserves_files(
    c: CompanyView,
    pwds: Seq<Seq<u8>>,
    mk: Seq<u8>,
    hk: Seq<u8>,
    gk: Seq<u8>,
    i: int,
    j: int,
    file: EncryptedBoxView,
    key: EncryptedBoxView,
    body: Seq<u8>,
)
    requires
        company_keyed_with(c, pwds, mk, hk, gk),
        0 <= i < c.users.len(),
        0 <= j < c.users.len(),
        i != j,
        fits(file.ct),
        fits(key.ct),
        file.wf(),
        key.wf(),
        download_result(file, key, mk) == Some(body),
    ensures
        spec_groupkey(seq![(c.users[i], pwds[i]), (c.users[j], pwds[j])]) == Some(gk),
        dec_of(c.masterkey_encrypted.ct, c.masterkey_encrypted.nonce, gk) == Some(mk),
        spec_download_reply(spec_enc_file_response(file, key), mk) == Ok::<Seq<u8>, VaultError>(
            body,
        ),
{
    lemma_envelope_chain(file, key, mk, body);
}

} // verus!
