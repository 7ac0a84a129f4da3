//! Data model of the vault: keys, authenticated-encryption envelopes,
//! users, companies, filename records and the request tags of the wire
//! protocol.
//!
//! All text (usernames, company names, filenames, UUIDs) is carried as
//! UTF-8 bytes, so that the byte-exact wire and disk encodings can be
//! specified directly over the values.

use vstd::prelude::*;
use vstd::slice::slice_to_vec;

verus! {

/// Symmetric keys are exactly 32 bytes.
pub open spec fn is_key(b: Seq<u8>) -> bool {
    b.len() == 32
}

/// Per-user password salts are exactly 16 bytes.
pub open spec fn is_salt(b: Seq<u8>) -> bool {
    b.len() == 16
}

/// AEAD nonces are exactly 24 bytes.
pub open spec fn is_nonce(b: Seq<u8>) -> bool {
    b.len() == 24
}

/// Whether every byte of a sequence is zero.
pub open spec fn all_zero(b: Seq<u8>) -> bool {
    forall|i: int| 0 <= i < b.len() ==> b[i] == 0u8
}

/// Copy a byte vector.
pub fn clone_bytes(v: &Vec<u8>) -> (r: Vec<u8>)
    ensures
        r@ == v@,
{
    slice_to_vec(v.as_slice())
}

/// Byte-wise equality of two vectors.
pub fn bytes_eq(a: &Vec<u8>, b: &Vec<u8>) -> (r: bool)
    ensures
        r == (a@ == b@),
{
    if a.len() != b.len() {
        assert(a@ != b@);
        return false;
    }
    let n = a.len();
    let mut i: usize = 0;
    while i < n
        invariant
            n == a@.len() && n == b@.len(),
            0 <= i <= n,
            forall|k: int| 0 <= k < i ==> a@[k] == b@[k],
        decreases n - i,
    {
        if a[i] != b[i] {
            return false;
        }
        i += 1;
    }
    proof {
        assert(a@ =~= b@);
    }
    true
}

/// A vector of `n` zero bytes.
pub fn zero_bytes(n: usize) -> (r: Vec<u8>)
    ensures
        r@.len() == n,
        forall|k: int| 0 <= k < n ==> r@[k] == 0u8,
{
    let mut r: Vec<u8> = Vec::new();
    let mut i: usize = 0;
    while i < n
        invariant
            0 <= i <= n,
            r@.len() == i,
            forall|k: int| 0 <= k < i ==> r@[k] == 0u8,
        decreases n - i,
    {
        r.push(0u8);
        i += 1;
    }
    r
}

/// An authenticated-encryption envelope: ciphertext with its 16-byte tag,
/// paired with the 24-byte nonce it was produced under.
pub struct EncryptedBox {
    /// Tag followed by ciphertext; always at least 16 bytes.
    pub ct: Vec<u8>,
    /// The nonce, 24 bytes.
    pub nonce: Vec<u8>,
}

/// Mathematical model of an [`EncryptedBox`].
pub ghost struct EncryptedBoxView {
    pub ct: Seq<u8>,
    pub nonce: Seq<u8>,
}

impl View for EncryptedBox {
    type V = EncryptedBoxView;

    open spec fn view(&self) -> EncryptedBoxView {
        EncryptedBoxView { ct: self.ct@, nonce: self.nonce@ }
    }
}

impl EncryptedBoxView {
    /// The shape every well-formed envelope has: room for the tag, and a
    /// nonce of the fixed width.
    pub open spec fn wf(self) -> bool {
        &&& self.ct.len() >= 16
        &&& is_nonce(self.nonce)
    }
}

impl Clone for EncryptedBox {
    fn clone(&self) -> (r: Self)
        ensures
            r@ == self@,
    {
        EncryptedBox { ct: clone_bytes(&self.ct), nonce: clone_bytes(&self.nonce) }
    }
}

/// A vault user: a name, the user's Shamir shard encrypted under the
/// password-derived key, and the salt that derivation used.
pub struct User {
    pub username: Vec<u8>,
    pub encrypted_shard: EncryptedBox,
    pub salt: Vec<u8>,
}

/// Mathematical model of a [`User`].
pub ghost struct UserView {
    pub username: Seq<u8>,
    pub encrypted_shard: EncryptedBoxView,
    pub salt: Seq<u8>,
}

impl View for User {
    type V = UserView;

    open spec fn view(&self) -> UserView {
        UserView {
            username: self.username@,
            encrypted_shard: self.encrypted_shard@,
            salt: self.salt@,
        }
    }
}

impl UserView {
    pub open spec fn wf(self) -> bool {
        &&& self.encrypted_shard.wf()
        &&& is_salt(self.salt)
    }
}

impl Clone for User {
    fn clone(&self) -> (r: Self)
        ensures
            r@ == self@,
    {
        User {
            username: clone_bytes(&self.username),
            encrypted_shard: self.encrypted_shard.clone(),
            salt: clone_bytes(&self.salt),
        }
    }
}

/// A company record: the users, the master key and HMAC key wrapped under
/// the group key, and the plaintext HMAC key the server keeps for session
/// authentication.
pub struct Company {
    pub name: Vec<u8>,
    pub users: Vec<User>,
    pub masterkey_encrypted: EncryptedBox,
    pub hmackey: Vec<u8>,
    pub hmackey_encrypted: EncryptedBox,
}

/// Mathematical model of a [`Company`].
pub ghost struct CompanyView {
    pub name: Seq<u8>,
    pub users: Seq<UserView>,
    pub masterkey_encrypted: EncryptedBoxView,
    pub hmackey: Seq<u8>,
    pub hmackey_encrypted: EncryptedBoxView,
}

impl View for Company {
    type V = CompanyView;

    open spec fn view(&self) -> CompanyView {
        CompanyView {
            name: self.name@,
            users: self.users@.map_values(|u: User| u@),
            masterkey_encrypted: self.masterkey_encrypted@,
            hmackey: self.hmackey@,
            hmackey_encrypted: self.hmackey_encrypted@,
        }
    }
}

impl CompanyView {
    /// Field-level well-formedness: every envelope has its shape, every
    /// salt and key its width.
    pub open spec fn wf(self) -> bool {
        &&& forall|i: int| 0 <= i < self.users.len() ==> #[trigger] self.users[i].wf()
        &&& self.masterkey_encrypted.wf()
        &&& is_key(self.hmackey)
        &&& self.hmackey_encrypted.wf()
    }
}

impl Clone for Company {
    fn clone(&self) -> (r: Self)
        ensures
            r@ == self@,
    {
        let mut users: Vec<User> = Vec::new();
        let n = self.users.len();
        let mut i: usize = 0;
        while i < n
            invariant
                n == self.users@.len(),
                0 <= i <= n,
                users@.len() == i,
                forall|k: int| 0 <= k < i ==> users@[k]@ == self.users@[k]@,
            decreases n - i,
        {
            users.push(self.users[i].clone());
            i += 1;
        }
        let r = Company {
            name: clone_bytes(&self.name),
            users,
            masterkey_encrypted: self.masterkey_encrypted.clone(),
            hmackey: clone_bytes(&self.hmackey),
            hmackey_encrypted: self.hmackey_encrypted.clone(),
        };
        proof {
            assert(r@.users =~= self@.users);
        }
        r
    }
}

/// The first user in `users` with the given name, if any.
pub open spec fn spec_find_user(users: Seq<UserView>, name: Seq<u8>) -> Option<UserView>
    decreases users.len(),
{
    if users.len() == 0 {
        None
    } else if users[0].username == name {
        Some(users[0])
    } else {
        spec_find_user(users.drop_first(), name)
    }
}

/// A found user is a member of the sequence.
pub proof fn lemma_find_user_is_member(users: Seq<UserView>, name: Seq<u8>)
    requires
        spec_find_user(users, name) is Some,
    ensures
        exists|i: int|
            0 <= i < users.len() && users[i] == spec_find_user(users, name)->Some_0,
        spec_find_user(users, name)->Some_0.username == name,
    decreases users.len(),
{
    if users.len() != 0 && users[0].username != name {
        lemma_find_user_is_member(users.drop_first(), name);
        let i = choose|i: int|
            0 <= i < users.drop_first().len() && users.drop_first()[i] == spec_find_user(
                users.drop_first(),
                name,
            )->Some_0;
        assert(users[i + 1] == spec_find_user(users, name)->Some_0);
    }
}

impl Company {
    /// Finds the first user with the given name, if any.
    pub fn find_user(&self, username: &Vec<u8>) -> (r: Option<User>)
        ensures
            match r {
                Some(u) => spec_find_user(self@.users, username@) == Some(u@),
                None => spec_find_user(self@.users, username@) is None,
            },
    {
        let ghost users = self@.users;
        let n = self.users.len();
        let mut i: usize = 0;
        proof {
            assert(users.skip(0) =~= users);
        }
        while i < n
            invariant
                n == self.users@.len(),
                users == self@.users,
                0 <= i <= n,
                spec_find_user(users, username@) == spec_find_user(
                    users.skip(i as int),
                    username@,
                ),
            decreases n - i,
        {
            proof {
                assert(users.skip(i as int)[0] == users[i as int]);
            }
            if bytes_eq(&self.users[i].username, username) {
                let u = self.users[i].clone();
                return Some(u);
            }
            proof {
                assert(users.skip(i as int).drop_first() =~= users.skip(i as int + 1));
            }
            i += 1;
        }
        proof {
            assert(users.skip(n as int) =~= Seq::<UserView>::empty());
        }
        None
    }

    /// The placeholder record a connection starts with, before any
    /// company has been loaded: no name, no users, and all-zero keys
    /// and envelopes that own no stored data.
    pub fn empty_company() -> (r: Company)
        ensures
            r@.name == Seq::<u8>::empty(),
            r@.users == Seq::<UserView>::empty(),
            is_key(r@.hmackey) && all_zero(r@.hmackey),
            r@.masterkey_encrypted.ct.len() == 16 && all_zero(r@.masterkey_encrypted.ct),
            is_nonce(r@.masterkey_encrypted.nonce) && all_zero(r@.masterkey_encrypted.nonce),
            r@.hmackey_encrypted.ct.len() == 16 && all_zero(r@.hmackey_encrypted.ct),
            is_nonce(r@.hmackey_encrypted.nonce) && all_zero(r@.hmackey_encrypted.nonce),
            r@.wf(),
    {
        let r = Company {
            name: Vec::new(),
            users: Vec::new(),
            masterkey_encrypted: EncryptedBox { ct: zero_bytes(16), nonce: zero_bytes(24) },
            hmackey: zero_bytes(32),
            hmackey_encrypted: EncryptedBox { ct: zero_bytes(16), nonce: zero_bytes(24) },
        };
        proof {
            assert(r@.name =~= Seq::<u8>::empty());
            assert(r@.users =~= Seq::<UserView>::empty());
        }
        r
    }
}

/// One stored file's name record: the server-assigned UUID and the
/// filename encrypted under the company's master key.
pub struct FileNameBox {
    pub uuid: Vec<u8>,
    pub encrypted_name: EncryptedBox,
}

/// Mathematical model of a [`FileNameBox`].
pub ghost struct FileNameBoxView {
    pub uuid: Seq<u8>,
    pub encrypted_name: EncryptedBoxView,
}

impl View for FileNameBox {
    type V = FileNameBoxView;

    open spec fn view(&self) -> FileNameBoxView {
        FileNameBoxView { uuid: self.uuid@, encrypted_name: self.encrypted_name@ }
    }
}

impl FileNameBoxView {
    pub open spec fn wf(self) -> bool {
        self.encrypted_name.wf()
    }
}

impl Clone for FileNameBox {
    fn clone(&self) -> (r: Self)
        ensures
            r@ == self@,
    {
        FileNameBox { uuid: clone_bytes(&self.uuid), encrypted_name: self.encrypted_name.clone() }
    }
}

/// The request tags of the wire protocol; each request's last byte.
#[derive(Clone, Copy, Debug, PartialEq, Eq, Structural)]
pub enum RequestType {
    CloseConnection,
    CreateCompany,
    AuthenticateSession,
    UploadFile,
    GetFilenames,
    DownloadFile,
    RegenerateKey,
}

impl RequestType {
    /// The byte that stands for this tag on the wire.
    pub open spec fn spec_byte(self) -> u8 {
        match self {
            RequestType::CloseConnection => 0,
            RequestType::CreateCompany => 1,
            RequestType::AuthenticateSession => 2,
            RequestType::UploadFile => 3,
            RequestType::GetFilenames => 4,
            RequestType::DownloadFile => 5,
            RequestType::RegenerateKey => 6,
        }
    }

    pub fn to_byte(&self) -> (r: u8)
        ensures
            r == self.spec_byte(),
    {
        match self {
            RequestType::CloseConnection => 0,
            RequestType::CreateCompany => 1,
            RequestType::AuthenticateSession => 2,
            RequestType::UploadFile => 3,
            RequestType::GetFilenames => 4,
            RequestType::DownloadFile => 5,
            RequestType::RegenerateKey => 6,
        }
    }

    /// Reads a tag byte back; the inverse of [`RequestType::to_byte`] on
    /// the seven valid bytes, `None` on every other byte.
    pub fn from_byte(b: u8) -> (r: Option<RequestType>)
        ensures
            match r {
                Some(t) => t.spec_byte() == b,
                None => b >= 7,
            },
    {
        match b {
            0 => Some(RequestType::CloseConnection),
            1 => Some(RequestType::CreateCompany),
            2 => Some(RequestType::AuthenticateSession),
            3 => Some(RequestType::UploadFile),
            4 => Some(RequestType::GetFilenames),
            5 => Some(RequestType::DownloadFile),
            6 => Some(RequestType::RegenerateKey),
            _ => None,
        }
    }
}

} // verus!
