//! The server side of the protocol: one connection is a state machine
//! driven by received frames and by store lookups. The machine only
//! decides; the caller performs the socket and store work its actions
//! ask for and feeds the results back in.
//!
//! File operations are reachable only in the authenticated state; in
//! every other state they draw a plain refusal.

use vstd::prelude::*;

use crate::codec::{
    decode_auth_request, decode_company, decode_upload, encode_box_msg, encode_challenge,
    parse_request, spec_enc_box, spec_enc_challenge, spec_parse_auth_request,
    spec_parse_challenge, spec_parse_company, spec_parse_request, spec_parse_upload,
};
use crate::crypto::{mac_of, mac_verify, random};
use crate::types::{
    bytes_eq, clone_bytes, lemma_find_user_is_member, spec_find_user, Company, CompanyView,
    EncryptedBox, EncryptedBoxView, RequestType,
};

verus! {

/// The two-byte success reply.
pub open spec fn spec_ok() -> Seq<u8> {
    seq![79u8, 75u8]
}

/// The two-byte failure reply.
pub open spec fn spec_ko() -> Seq<u8> {
    seq![75u8, 79u8]
}

/// The one-byte reply for a company that does not exist.
pub open spec fn spec_missing() -> Seq<u8> {
    seq![0u8]
}

/// The bytes of the success reply.
pub fn reply_ok() -> (r: Vec<u8>)
    ensures
        r@ == spec_ok(),
{
    let mut r: Vec<u8> = Vec::new();
    r.push(79u8);
    r.push(75u8);
    proof {
        assert(r@ =~= spec_ok());
    }
    r
}

/// The bytes of the failure reply.
pub fn reply_ko() -> (r: Vec<u8>)
    ensures
        r@ == spec_ko(),
{
    let mut r: Vec<u8> = Vec::new();
    r.push(75u8);
    r.push(79u8);
    proof {
        assert(r@ =~= spec_ko());
    }
    r
}

/// The bytes of the missing-company reply.
pub fn reply_missing() -> (r: Vec<u8>)
    ensures
        r@ == spec_missing(),
{
    let mut r: Vec<u8> = Vec::new();
    r.push(0u8);
    proof {
        assert(r@ =~= spec_missing());
    }
    r
}

/// The state of one server-side connection.
pub enum SessionState {
    /// Nothing proved yet.
    Unauth,
    /// An authentication request named two users; the company record
    /// is being looked up.
    AwaitCompany { user1: Vec<u8>, user2: Vec<u8> },
    /// The challenge went out; the next frame must be the MAC over it.
    AwaitMac { company: Company, challenge: Vec<u8> },
    /// The handshake succeeded; file operations are open.
    Authed { company: Company },
}

/// Mathematical model of a [`SessionState`].
pub ghost enum SessionStateView {
    Unauth,
    AwaitCompany { user1: Seq<u8>, user2: Seq<u8> },
    AwaitMac { company: CompanyView, challenge: Seq<u8> },
    Authed { company: CompanyView },
}

impl View for SessionState {
    type V = SessionStateView;

    open spec fn view(&self) -> SessionStateView {
        match self {
            SessionState::Unauth => SessionStateView::Unauth,
            SessionState::AwaitCompany { user1, user2 } => SessionStateView::AwaitCompany {
                user1: user1@,
                user2: user2@,
            },
            SessionState::AwaitMac { company, challenge } => SessionStateView::AwaitMac {
                company: company@,
                challenge: challenge@,
            },
            SessionState::Authed { company } => SessionStateView::Authed { company: company@ },
        }
    }
}

impl SessionStateView {
    /// Every company a state holds is well-formed, and a pending
    /// challenge has the fixed width.
    pub open spec fn wf(self) -> bool {
        match self {
            SessionStateView::Unauth => true,
            SessionStateView::AwaitCompany { .. } => true,
            SessionStateView::AwaitMac { company, challenge } => company.wf() && challenge.len()
                == 64,
            SessionStateView::Authed { company } => company.wf(),
        }
    }
}

/// What the connection's caller must do next.
pub enum ServerAction {
    /// Shut the connection down.
    Close,
    /// Send these bytes and keep listening.
    Reply(Vec<u8>),
    /// Look the company up and feed the result to
    /// [`server_on_company`].
    LoadCompany(Vec<u8>),
    /// Create the company if no company of that name exists yet;
    /// reply `OK` on success and `KO` otherwise.
    CreateCompany(Company),
    /// Store a file body, its encrypted name and its wrapped key
    /// under a fresh UUID; reply `OK` on success and `KO` otherwise.
    SaveFile { company_name: Vec<u8>, file: EncryptedBox, name: EncryptedBox, key: EncryptedBox },
    /// Send the company's filename index.
    ListFiles { company_name: Vec<u8> },
    /// Send the stored file and wrapped key for this UUID, or `KO`.
    GetFile { company_name: Vec<u8>, uuid: Vec<u8> },
    /// Overwrite the company record, preserving the file index;
    /// reply `OK` on success and `KO` otherwise.
    SaveCompanyData(Company),
}

/// Mathematical model of a [`ServerAction`].
pub ghost enum ServerActionView {
    Close,
    Reply(Seq<u8>),
    LoadCompany(Seq<u8>),
    CreateCompany(CompanyView),
    SaveFile {
        company_name: Seq<u8>,
        file: EncryptedBoxView,
        name: EncryptedBoxView,
        key: EncryptedBoxView,
    },
    ListFiles { company_name: Seq<u8> },
    GetFile { company_name: Seq<u8>, uuid: Seq<u8> },
    SaveCompanyData(CompanyView),
}

impl View for ServerAction {
    type V = ServerActionView;

    open spec fn view(&self) -> ServerActionView {
        match self {
            ServerAction::Close => ServerActionView::Close,
            ServerAction::Reply(m) => ServerActionView::Reply(m@),
            ServerAction::LoadCompany(n) => ServerActionView::LoadCompany(n@),
            ServerAction::CreateCompany(c) => ServerActionView::CreateCompany(c@),
            ServerAction::SaveFile { company_name, file, name, key } => ServerActionView::SaveFile {
                company_name: company_name@,
                file: file@,
                name: name@,
                key: key@,
            },
            ServerAction::ListFiles { company_name } => ServerActionView::ListFiles {
                company_name: company_name@,
            },
            ServerAction::GetFile { company_name, uuid } => ServerActionView::GetFile {
                company_name: company_name@,
                uuid: uuid@,
            },
            ServerAction::SaveCompanyData(c) => ServerActionView::SaveCompanyData(c@),
        }
    }
}

/// The transition a received frame causes.
///
/// An empty frame is a disconnect. In `AwaitMac` the frame is the
/// client's MAC: the session is authenticated exactly when it is the
/// code of the challenge under the company's HMAC key. In every other
/// state the frame's last byte selects the request; messages that do
/// not parse close the connection, and file operations outside
/// `Authed` draw `KO`. A re-key whose replacement record would change
/// the session's HMAC key is refused: one compromised session may not
/// lock the other users out.
pub open spec fn spec_server_on_frame(st: SessionStateView, f: Seq<u8>) -> (
    SessionStateView,
    ServerActionView,
) {
    if f.len() == 0 {
        (SessionStateView::Unauth, ServerActionView::Close)
    } else {
        match st {
            SessionStateView::AwaitMac { company, challenge } => {
                if f.len() != 32 {
                    (SessionStateView::Unauth, ServerActionView::Close)
                } else if f == mac_of(company.hmackey, challenge) {
                    (
                        SessionStateView::Authed { company },
                        ServerActionView::Reply(spec_enc_box(company.masterkey_encrypted)),
                    )
                } else {
                    (SessionStateView::Unauth, ServerActionView::Reply(spec_ko()))
                }
            },
            _ => match spec_parse_request(f) {
                None => (SessionStateView::Unauth, ServerActionView::Close),
                Some((t, p)) => match t {
                    RequestType::CloseConnection => (
                        SessionStateView::Unauth,
                        ServerActionView::Close,
                    ),
                    RequestType::CreateCompany => match spec_parse_company(p) {
                        None => (SessionStateView::Unauth, ServerActionView::Close),
                        Some(c) => if c.users.len() >= 2 {
                            (st, ServerActionView::CreateCompany(c))
                        } else {
                            (st, ServerActionView::Reply(spec_ko()))
                        },
                    },
                    RequestType::AuthenticateSession => match spec_parse_auth_request(p) {
                        None => (SessionStateView::Unauth, ServerActionView::Close),
                        Some((name, u1, u2)) => (
                            SessionStateView::AwaitCompany { user1: u1, user2: u2 },
                            ServerActionView::LoadCompany(name),
                        ),
                    },
                    RequestType::UploadFile => match st {
                        SessionStateView::Authed { company } => match spec_parse_upload(p) {
                            None => (SessionStateView::Unauth, ServerActionView::Close),
                            Some((file, name, key)) => (
                                st,
                                ServerActionView::SaveFile {
                                    company_name: company.name,
                                    file,
                                    name,
                                    key,
                                },
                            ),
                        },
                        _ => (st, ServerActionView::Reply(spec_ko())),
                    },
                    RequestType::GetFilenames => match st {
                        SessionStateView::Authed { company } => (
                            st,
                            ServerActionView::ListFiles { company_name: company.name },
                        ),
                        _ => (st, ServerActionView::Reply(spec_ko())),
                    },
                    RequestType::DownloadFile => match st {
                        SessionStateView::Authed { company } => (
                            st,
                            ServerActionView::GetFile { company_name: company.name, uuid: p },
                        ),
                        _ => (st, ServerActionView::Reply(spec_ko())),
                    },
                    RequestType::RegenerateKey => match st {
                        SessionStateView::Authed { company } => match spec_parse_company(p) {
                            None => (SessionStateView::Unauth, ServerActionView::Close),
                            Some(c) => if c.users.len() >= 2 && c.hmackey == company.hmackey {
                                (
                                    SessionStateView::Authed { company: c },
                                    ServerActionView::SaveCompanyData(c),
                                )
                            } else {
                                (st, ServerActionView::Reply(spec_ko()))
                            },
                        },
                        _ => (st, ServerActionView::Reply(spec_ko())),
                    },
                },
            },
        }
    }
}

/// Connection state: before a successful handshake no file operation
/// reaches the store. In the unauthenticated states an upload,
/// listing, download or re-key request only draws the `KO` reply and
/// leaves the state unchanged.
pub proof fn lemma_unauth_file_ops_rejected(st: SessionStateView, f: Seq<u8>)
    requires
        st is Unauth || st is AwaitCompany,
        spec_parse_request(f) matches Some((t, p)) && (t == RequestType::UploadFile || t
            == RequestType::GetFilenames || t == RequestType::DownloadFile || t
            == RequestType::RegenerateKey),
    ensures
        spec_server_on_frame(st, f) == (st, ServerActionView::Reply(spec_ko())),
{
    assert(f.len() > 0);
}

/// Applies one received frame to the connection state.
#[verifier::rlimit(100)]
pub fn server_on_frame(state: SessionState, frame: &Vec<u8>) -> (r: (SessionState, ServerAction))
    requires
        state@.wf(),
    ensures
        (r.0@, r.1@) == spec_server_on_frame(state@, frame@),
        r.0@.wf(),
{
    if frame.len() == 0 {
        return (SessionState::Unauth, ServerAction::Close);
    }
    match state {
        SessionState::AwaitMac { company, challenge } => {
            if frame.len() != 32 {
                return (SessionState::Unauth, ServerAction::Close);
            }
            match mac_verify(frame, &company.hmackey, &challenge) {
                Ok(()) => {
                    let reply = encode_box_msg(&company.masterkey_encrypted);
                    (SessionState::Authed { company }, ServerAction::Reply(reply))
                },
                Err(_) => (SessionState::Unauth, ServerAction::Reply(reply_ko())),
            }
        },
        state => {
            let ghost stv = state@;
            proof {
                assert(!(stv is AwaitMac));
            }
            let (t, payload) = match parse_request(frame) {
                Some(tp) => tp,
                None => {
                    return (SessionState::Unauth, ServerAction::Close);
                },
            };
            match t {
                RequestType::CloseConnection => (SessionState::Unauth, ServerAction::Close),
                RequestType::CreateCompany => match decode_company(&payload) {
                    None => (SessionState::Unauth, ServerAction::Close),
                    Some(c) => if c.users.len() >= 2 {
                        (state, ServerAction::CreateCompany(c))
                    } else {
                        (state, ServerAction::Reply(reply_ko()))
                    },
                },
                RequestType::AuthenticateSession => match decode_auth_request(&payload) {
                    None => (SessionState::Unauth, ServerAction::Close),
                    Some((name, user1, user2)) => (
                        SessionState::AwaitCompany { user1, user2 },
                        ServerAction::LoadCompany(name),
                    ),
                },
                RequestType::UploadFile => match state {
                    SessionState::Authed { company } => match decode_upload(&payload) {
                        None => (SessionState::Unauth, ServerAction::Close),
                        Some((file, name, key)) => {
                            let company_name = clone_bytes(&company.name);
                            (
                                SessionState::Authed { company },
                                ServerAction::SaveFile { company_name, file, name, key },
                            )
                        },
                    },
                    state => (state, ServerAction::Reply(reply_ko())),
                },
                RequestType::GetFilenames => match state {
                    SessionState::Authed { company } => {
                        let company_name = clone_bytes(&company.name);
                        (
                            SessionState::Authed { company },
                            ServerAction::ListFiles { company_name },
                        )
                    },
                    state => (state, ServerAction::Reply(reply_ko())),
                },
                RequestType::DownloadFile => match state {
                    SessionState::Authed { company } => {
                        let company_name = clone_bytes(&company.name);
                        (
                            SessionState::Authed { company },
                            ServerAction::GetFile { company_name, uuid: payload },
                        )
                    },
                    state => (state, ServerAction::Reply(reply_ko())),
                },
                RequestType::RegenerateKey => match state {
                    SessionState::Authed { company } => match decode_company(&payload) {
                        None => (SessionState::Unauth, ServerAction::Close),
                        Some(c) => if c.users.len() >= 2 && bytes_eq(&c.hmackey, &company.hmackey) {
                            let kept = c.clone();
                            (
                                SessionState::Authed { company: kept },
                                ServerAction::SaveCompanyData(c),
                            )
                        } else {
                            (
                                SessionState::Authed { company },
                                ServerAction::Reply(reply_ko()),
                            )
                        },
                    },
                    state => (state, ServerAction::Reply(reply_ko())),
                },
            }
        },
    }
}

/// Applies the store's answer to a company lookup: missing companies
/// and unknown usernames draw the same-shaped refusals; for two known
/// users a fresh 64-byte challenge goes out together with the user
/// records and the wrapped HMAC key.
pub fn server_on_company(state: SessionState, found: Option<Company>) -> (r: (
    SessionState,
    ServerAction,
))
    requires
        state@ is AwaitCompany,
        found matches Some(c) ==> c@.wf(),
    ensures
        r.0@.wf(),
        match found {
            None => r.0@ is Unauth && r.1@ == ServerActionView::Reply(spec_missing()),
            Some(c) => {
                let u1 = state@->AwaitCompany_user1;
                let u2 = state@->AwaitCompany_user2;
                match (spec_find_user(c@.users, u1), spec_find_user(c@.users, u2)) {
                    (Some(a), Some(b)) => {
                        &&& r.0@ matches SessionStateView::AwaitMac {
                            company,
                            challenge,
                        } && company == c@ && challenge.len() == 64 && r.1@
                            == ServerActionView::Reply(
                            spec_enc_challenge(a, b, challenge, c@.hmackey_encrypted),
                        )
                    },
                    _ => r.0@ is Unauth && r.1@ == ServerActionView::Reply(spec_ko()),
                }
            },
        },
{
    let (user1, user2) = match state {
        SessionState::AwaitCompany { user1, user2 } => (user1, user2),
        _ => {
            proof {
                assert(false);
            }
            (Vec::new(), Vec::new())
        },
    };
    let company = match found {
        Some(company) => company,
        None => {
            return (SessionState::Unauth, ServerAction::Reply(reply_missing()));
        },
    };
    let a = match company.find_user(&user1) {
        Some(a) => a,
        None => {
            return (SessionState::Unauth, ServerAction::Reply(reply_ko()));
        },
    };
    let b = match company.find_user(&user2) {
        Some(b) => b,
        None => {
            return (SessionState::Unauth, ServerAction::Reply(reply_ko()));
        },
    };
    proof {
        lemma_find_user_is_member(company@.users, user1@);
        lemma_find_user_is_member(company@.users, user2@);
    }
    let challenge = random(64);
    let reply = encode_challenge(&a, &b, &challenge, &company.hmackey_encrypted);
    (
        SessionState::AwaitMac { company, challenge },
        ServerAction::Reply(reply),
    )
}


/// Handshake correctness: for a company keyed under some group key,
/// the challenge the server builds over any two of its users leads
/// the client to exactly the MAC the server demands; the server then
/// authenticates and replies with the wrapped master key, which the
/// client unwraps to the master key the company was keyed with.
pub proof fn lemma_handshake_completes(
    c: CompanyView,
    pwds: Seq<Seq<u8>>,
    mk: Seq<u8>,
    gk: Seq<u8>,
    i: int,
    j: int,
    random: Seq<u8>,
    mac: Seq<u8>,
)
    requires
        crate::creation::company_keyed_with(c, pwds, mk, c.hmackey, gk),
        c.wf(),
        crate::codec::company_fits(c),
        crate::types::is_key(mk),
        0 <= i < c.users.len(),
        0 <= j < c.users.len(),
        i != j,
        random.len() == 64,
        mac == mac_of(c.hmackey, random),
        mac.len() == 32,
    ensures
        crate::requests::spec_process_challenge(
            spec_enc_challenge(c.users[i], c.users[j], random, c.hmackey_encrypted),
            pwds[i],
            pwds[j],
        ) == Some((mac, gk, c.hmackey)),
        spec_server_on_frame(SessionStateView::AwaitMac { company: c, challenge: random }, mac)
            == (
            SessionStateView::Authed { company: c },
            ServerActionView::Reply(spec_enc_box(c.masterkey_encrypted)),
        ),
        crate::requests::spec_finish_auth(spec_enc_box(c.masterkey_encrypted), gk) == Some(mk),
{
    crate::codec::lemma_challenge_codec_roundtrip(
        c.users[i],
        c.users[j],
        random,
        c.hmackey_encrypted,
    );
    crate::codec::lemma_box_msg_codec_roundtrip(c.masterkey_encrypted);
    assert(crate::creation::company_keyed_with(c, pwds, mk, c.hmackey, gk));
    assert(crate::authentication::spec_groupkey(
        seq![(c.users[i], pwds[i]), (c.users[j], pwds[j])],
    ) == Some(gk));
}

/// Wrong credentials authenticate nothing: when either shard in a
/// challenge fails to decrypt — as it does under a key derived from a
/// wrong password — the client recovers no group key and so builds no
/// MAC at all; and whatever bytes reach the server instead of the
/// exact MAC of its challenge under the company's HMAC key, it either
/// closes the connection or replies `KO`, never with the wrapped
/// master key, and the session stays unauthenticated.
pub proof fn lemma_wrong_password_never_authenticates(
    d: Seq<u8>,
    p1: Seq<u8>,
    p2: Seq<u8>,
    company: CompanyView,
    challenge: Seq<u8>,
    f: Seq<u8>,
)
    requires
        spec_parse_challenge(d) matches Some((a, b, _random, _hm)) && (
        crate::authentication::spec_shard_of(a, p1) is None
            || crate::authentication::spec_shard_of(b, p2) is None),
        f != mac_of(company.hmackey, challenge),
    ensures
        crate::requests::spec_process_challenge(d, p1, p2) is None,
        !(spec_server_on_frame(
            SessionStateView::AwaitMac { company, challenge },
            f,
        ).0 is Authed),
        spec_server_on_frame(SessionStateView::AwaitMac { company, challenge }, f).1
            == ServerActionView::Close || spec_server_on_frame(
            SessionStateView::AwaitMac { company, challenge },
            f,
        ).1 == ServerActionView::Reply(spec_ko()),
{
    let parsed = spec_parse_challenge(d)->Some_0;
    let pair = seq![(parsed.0, p1), (parsed.1, p2)];
    assert(pair[0] == (parsed.0, p1));
    assert(pair[1] == (parsed.1, p2));
    if crate::authentication::spec_shard_of(parsed.0, p1) is None {
        assert(crate::authentication::spec_shard_of(pair[0].0, pair[0].1) is None);
    } else {
        assert(crate::authentication::spec_shard_of(pair[1].0, pair[1].1) is None);
    }
    assert(!crate::authentication::shards_ok(pair));
    assert(crate::authentication::spec_groupkey(pair) is None);
}

} // verus!
