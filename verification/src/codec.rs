//! The wire and disk encoding: fixed-width little-endian integers and
//! length-prefixed byte strings, composed into the record formats that
//! the protocol and the store carry.
//!
//! Every encoder has a spec-level counterpart (`spec_enc_*`), every
//! decoder a deterministic spec counterpart (`spec_dec_*`), and for each
//! record shape a lemma shows that decoding an encoding yields the value
//! back.

use vstd::prelude::*;
use vstd::slice::{slice_subrange, slice_to_vec};

use crate::types::{
    CompanyView, EncryptedBoxView, FileNameBoxView, UserView, Company, EncryptedBox, FileNameBox,
    RequestType, User, is_key, is_salt,
};

verus! {

/// The eight little-endian bytes of `n`.
pub open spec fn spec_u64_le(n: u64) -> Seq<u8> {
    seq![
        n as u8,
        (n >> 8) as u8,
        (n >> 16) as u8,
        (n >> 24) as u8,
        (n >> 32) as u8,
        (n >> 40) as u8,
        (n >> 48) as u8,
        (n >> 56) as u8,
    ]
}

/// The value read back from eight little-endian bytes.
pub open spec fn spec_u64_of_le(s: Seq<u8>) -> u64
    recommends
        s.len() == 8,
{
    (s[0] as u64) | ((s[1] as u64) << 8) | ((s[2] as u64) << 16) | ((s[3] as u64) << 24)
        | ((s[4] as u64) << 32) | ((s[5] as u64) << 40) | ((s[6] as u64) << 48)
        | ((s[7] as u64) << 56)
}

/// Reading the eight bytes of `n` back gives `n`.
pub proof fn lemma_u64_le_roundtrip(n: u64)
    ensures
        spec_u64_of_le(spec_u64_le(n)) == n,
{
    assert(((n as u8) as u64) | ((((n >> 8) as u8) as u64) << 8) | ((((n >> 16) as u8) as u64)
        << 16) | ((((n >> 24) as u8) as u64) << 24) | ((((n >> 32) as u8) as u64) << 32) | ((((n
        >> 40) as u8) as u64) << 40) | ((((n >> 48) as u8) as u64) << 48) | ((((n >> 56) as u8)
        as u64) << 56) == n) by (bit_vector);
}

/// A byte string on the wire: its length as a little-endian `u64`,
/// then the bytes themselves.
pub open spec fn spec_enc_bytes(b: Seq<u8>) -> Seq<u8> {
    spec_u64_le(b.len() as u64) + b
}

/// Whether a byte string's length fits the length prefix.
pub open spec fn fits(b: Seq<u8>) -> bool {
    b.len() <= u64::MAX
}

/// Decodes a `u64` at `pos`; `None` when fewer than eight bytes remain.
pub open spec fn spec_dec_u64(d: Seq<u8>, pos: int) -> Option<(u64, int)> {
    if 0 <= pos && pos + 8 <= d.len() {
        Some((spec_u64_of_le(d.subrange(pos, pos + 8)), pos + 8))
    } else {
        None
    }
}

/// Decodes a length-prefixed byte string at `pos`.
pub open spec fn spec_dec_bytes(d: Seq<u8>, pos: int) -> Option<(Seq<u8>, int)> {
    match spec_dec_u64(d, pos) {
        Some((n, p)) => if p + n <= d.len() {
            Some((d.subrange(p, p + n), p + n))
        } else {
            None
        },
        None => None,
    }
}

/// A prefix of `d` starting at `pos` that reads `a + b` splits into a
/// prefix reading `a` and one reading `b`.
pub proof fn lemma_concat_prefix(d: Seq<u8>, pos: int, a: Seq<u8>, b: Seq<u8>)
    requires
        0 <= pos,
        pos + a.len() + b.len() <= d.len(),
        d.subrange(pos, pos + a.len() + b.len()) == a + b,
    ensures
        d.subrange(pos, pos + a.len()) == a,
        d.subrange(pos + a.len(), pos + a.len() + b.len()) == b,
{
    let whole = d.subrange(pos, pos + a.len() + b.len());
    assert forall|i: int| 0 <= i < a.len() implies d.subrange(pos, pos + a.len())[i] == a[i] by {
        assert(whole[i] == (a + b)[i]);
    }
    assert(d.subrange(pos, pos + a.len()) =~= a);
    assert forall|i: int| 0 <= i < b.len() implies d.subrange(
        pos + a.len(),
        pos + a.len() + b.len(),
    )[i] == b[i] by {
        assert(whole[a.len() + i] == (a + b)[a.len() + i]);
    }
    assert(d.subrange(pos + a.len(), pos + a.len() + b.len()) =~= b);
}

/// Where the bytes at `pos` are the encoding of `n`, decoding reads `n`.
pub proof fn lemma_dec_u64(d: Seq<u8>, pos: int, n: u64)
    requires
        0 <= pos,
        pos + 8 <= d.len(),
        d.subrange(pos, pos + 8) == spec_u64_le(n),
    ensures
        spec_dec_u64(d, pos) == Some((n, pos + 8)),
{
    lemma_u64_le_roundtrip(n);
}

/// Where the bytes at `pos` are the encoding of `b`, decoding reads `b`.
pub proof fn lemma_dec_bytes(d: Seq<u8>, pos: int, b: Seq<u8>)
    requires
        0 <= pos,
        fits(b),
        pos + spec_enc_bytes(b).len() <= d.len(),
        d.subrange(pos, pos + spec_enc_bytes(b).len()) == spec_enc_bytes(b),
    ensures
        spec_dec_bytes(d, pos) == Some((b, pos + spec_enc_bytes(b).len())),
{
    let n = b.len() as u64;
    lemma_concat_prefix(d, pos, spec_u64_le(n), b);
    lemma_dec_u64(d, pos, n);
    assert(d.subrange(pos + 8, pos + 8 + b.len()) == b);
}

/// Reads a `u64` at `pos`.
pub fn read_u64(d: &Vec<u8>, pos: usize) -> (r: Option<(u64, usize)>)
    ensures
        match r {
            Some((v, end)) => spec_dec_u64(d@, pos as int) == Some((v, end as int))
                && pos <= end <= d@.len(),
            None => spec_dec_u64(d@, pos as int) is None,
        },
{
    if d.len() < 8 || pos > d.len() - 8 {
        return None;
    }
    let b0 = d[pos] as u64;
    let b1 = d[pos + 1] as u64;
    let b2 = d[pos + 2] as u64;
    let b3 = d[pos + 3] as u64;
    let b4 = d[pos + 4] as u64;
    let b5 = d[pos + 5] as u64;
    let b6 = d[pos + 6] as u64;
    let b7 = d[pos + 7] as u64;
    let v = b0 | (b1 << 8) | (b2 << 16) | (b3 << 24) | (b4 << 32) | (b5 << 40) | (b6 << 48) | (b7
        << 56);
    proof {
        let s = d@.subrange(pos as int, pos as int + 8);
        assert(s[0] == d@[pos as int] && s[1] == d@[pos as int + 1] && s[2] == d@[pos as int + 2]
            && s[3] == d@[pos as int + 3] && s[4] == d@[pos as int + 4] && s[5] == d@[pos as int
            + 5] && s[6] == d@[pos as int + 6] && s[7] == d@[pos as int + 7]);
    }
    Some((v, pos + 8))
}

/// Reads a length-prefixed byte string at `pos`.
pub fn read_bytes(d: &Vec<u8>, pos: usize) -> (r: Option<(Vec<u8>, usize)>)
    ensures
        match r {
            Some((v, end)) => spec_dec_bytes(d@, pos as int) == Some((v@, end as int))
                && pos <= end <= d@.len(),
            None => spec_dec_bytes(d@, pos as int) is None,
        },
{
    match read_u64(d, pos) {
        None => None,
        Some((n, p)) => {
            let rem = (d.len() - p) as u64;
            if n > rem {
                return None;
            }
            let end = p + (n as usize);
            let v = slice_to_vec(slice_subrange(d.as_slice(), p, end));
            Some((v, end))
        },
    }
}

/// Appends the eight little-endian bytes of `n` to `out`.
pub fn push_u64_le(out: Vec<u8>, n: u64) -> (r: Vec<u8>)
    ensures
        r@ == out@ + spec_u64_le(n),
{
    let mut out = out;
    let ghost out0 = out@;
    out.push(#[verifier::truncate] (n as u8));
    out.push(#[verifier::truncate] ((n >> 8) as u8));
    out.push(#[verifier::truncate] ((n >> 16) as u8));
    out.push(#[verifier::truncate] ((n >> 24) as u8));
    out.push(#[verifier::truncate] ((n >> 32) as u8));
    out.push(#[verifier::truncate] ((n >> 40) as u8));
    out.push(#[verifier::truncate] ((n >> 48) as u8));
    out.push(#[verifier::truncate] ((n >> 56) as u8));
    proof {
        assert(out@ =~= out0 + spec_u64_le(n));
    }
    out
}

/// Appends every byte of `b` to `out`.
pub fn push_all(out: Vec<u8>, b: &Vec<u8>) -> (r: Vec<u8>)
    ensures
        r@ == out@ + b@,
{
    let mut r = out;
    let ghost r0 = r@;
    let n = b.len();
    let mut i: usize = 0;
    while i < n
        invariant
            n == b@.len(),
            0 <= i <= n,
            r@ == r0 + b@.take(i as int),
        decreases n - i,
    {
        r.push(b[i]);
        proof {
            assert(r@ =~= r0 + b@.take(i as int + 1));
        }
        i += 1;
    }
    proof {
        assert(r@ =~= r0 + b@);
    }
    r
}

/// Splits a prefix reading `a + b + c` into its three parts.
pub proof fn lemma_concat_prefix3(d: Seq<u8>, pos: int, a: Seq<u8>, b: Seq<u8>, c: Seq<u8>)
    requires
        0 <= pos,
        pos + a.len() + b.len() + c.len() <= d.len(),
        d.subrange(pos, pos + a.len() + b.len() + c.len()) == a + b + c,
    ensures
        d.subrange(pos, pos + a.len()) == a,
        d.subrange(pos + a.len(), pos + a.len() + b.len()) == b,
        d.subrange(pos + a.len() + b.len(), pos + a.len() + b.len() + c.len()) == c,
{
    assert(a + b + c =~= a + (b + c));
    lemma_concat_prefix(d, pos, a, b + c);
    lemma_concat_prefix(d, pos + a.len(), b, c);
}

/// The encoding of an envelope: its ciphertext, then its nonce.
pub open spec fn spec_enc_box(b: EncryptedBoxView) -> Seq<u8> {
    spec_enc_bytes(b.ct) + spec_enc_bytes(b.nonce)
}

/// Decodes an envelope at `pos`, refusing malformed shapes.
pub open spec fn spec_dec_box(d: Seq<u8>, pos: int) -> Option<(EncryptedBoxView, int)> {
    match spec_dec_bytes(d, pos) {
        Some((ct, p1)) => match spec_dec_bytes(d, p1) {
            Some((nonce, p2)) => {
                let b = EncryptedBoxView { ct, nonce };
                if b.wf() {
                    Some((b, p2))
                } else {
                    None
                }
            },
            None => None,
        },
        None => None,
    }
}

/// Where the bytes at `pos` encode a well-formed envelope, decoding
/// reads it back.
pub proof fn lemma_dec_box(d: Seq<u8>, pos: int, b: EncryptedBoxView)
    requires
        0 <= pos,
        b.wf(),
        fits(b.ct),
        pos + spec_enc_box(b).len() <= d.len(),
        d.subrange(pos, pos + spec_enc_box(b).len()) == spec_enc_box(b),
    ensures
        spec_dec_box(d, pos) == Some((b, pos + spec_enc_box(b).len())),
{
    lemma_concat_prefix(d, pos, spec_enc_bytes(b.ct), spec_enc_bytes(b.nonce));
    lemma_dec_bytes(d, pos, b.ct);
    lemma_dec_bytes(d, pos + spec_enc_bytes(b.ct).len(), b.nonce);
}

/// Reads an envelope at `pos`.
pub fn read_box(d: &Vec<u8>, pos: usize) -> (r: Option<(EncryptedBox, usize)>)
    ensures
        match r {
            Some((v, end)) => spec_dec_box(d@, pos as int) == Some((v@, end as int)) && v@.wf()
                && pos <= end <= d@.len(),
            None => spec_dec_box(d@, pos as int) is None,
        },
{
    match read_bytes(d, pos) {
        None => None,
        Some((ct, p1)) => match read_bytes(d, p1) {
            None => None,
            Some((nonce, p2)) => {
                if ct.len() < 16 || nonce.len() != 24 {
                    return None;
                }
                Some((EncryptedBox { ct, nonce }, p2))
            },
        },
    }
}

/// Appends the encoding of an envelope to `out`.
pub fn push_box(out: Vec<u8>, b: &EncryptedBox) -> (r: Vec<u8>)
    ensures
        r@ == out@ + spec_enc_box(b@),
{
    let ghost out0 = out@;
    let r = push_bytes(out, &b.ct);
    let r = push_bytes(r, &b.nonce);
    proof {
        assert(r@ =~= out0 + spec_enc_box(b@));
    }
    r
}

/// The encoding of a user: name, encrypted shard, salt.
pub open spec fn spec_enc_user(u: UserView) -> Seq<u8> {
    spec_enc_bytes(u.username) + spec_enc_box(u.encrypted_shard) + spec_enc_bytes(u.salt)
}

/// Decodes a user at `pos`, refusing malformed salts.
pub open spec fn spec_dec_user(d: Seq<u8>, pos: int) -> Option<(UserView, int)> {
    match spec_dec_bytes(d, pos) {
        Some((username, p1)) => match spec_dec_box(d, p1) {
            Some((encrypted_shard, p2)) => match spec_dec_bytes(d, p2) {
                Some((salt, p3)) => if is_salt(salt) {
                    Some((UserView { username, encrypted_shard, salt }, p3))
                } else {
                    None
                },
                None => None,
            },
            None => None,
        },
        None => None,
    }
}

/// Where the bytes at `pos` encode a well-formed user, decoding reads
/// the user back.
pub proof fn lemma_dec_user(d: Seq<u8>, pos: int, u: UserView)
    requires
        0 <= pos,
        u.wf(),
        fits(u.username),
        fits(u.encrypted_shard.ct),
        pos + spec_enc_user(u).len() <= d.len(),
        d.subrange(pos, pos + spec_enc_user(u).len()) == spec_enc_user(u),
    ensures
        spec_dec_user(d, pos) == Some((u, pos + spec_enc_user(u).len())),
{
    let a = spec_enc_bytes(u.username);
    let b = spec_enc_box(u.encrypted_shard);
    let c = spec_enc_bytes(u.salt);
    lemma_concat_prefix3(d, pos, a, b, c);
    lemma_dec_bytes(d, pos, u.username);
    lemma_dec_box(d, pos + a.len(), u.encrypted_shard);
    lemma_dec_bytes(d, pos + a.len() + b.len(), u.salt);
}

/// Reads a user at `pos`.
pub fn read_user(d: &Vec<u8>, pos: usize) -> (r: Option<(User, usize)>)
    ensures
        match r {
            Some((v, end)) => spec_dec_user(d@, pos as int) == Some((v@, end as int)) && v@.wf()
                && pos <= end <= d@.len(),
            None => spec_dec_user(d@, pos as int) is None,
        },
{
    match read_bytes(d, pos) {
        None => None,
        Some((username, p1)) => match read_box(d, p1) {
            None => None,
            Some((encrypted_shard, p2)) => match read_bytes(d, p2) {
                None => None,
                Some((salt, p3)) => {
                    if salt.len() != 16 {
                        return None;
                    }
                    Some((User { username, encrypted_shard, salt }, p3))
                },
            },
        },
    }
}

/// Appends the encoding of a user to `out`.
pub fn push_user(out: Vec<u8>, u: &User) -> (r: Vec<u8>)
    ensures
        r@ == out@ + spec_enc_user(u@),
{
    let ghost out0 = out@;
    let r = push_bytes(out, &u.username);
    let r = push_box(r, &u.encrypted_shard);
    let r = push_bytes(r, &u.salt);
    proof {
        assert(r@ =~= out0 + spec_enc_user(u@));
    }
    r
}

/// Appends the length-prefixed encoding of `b` to `out`.
pub fn push_bytes(out: Vec<u8>, b: &Vec<u8>) -> (r: Vec<u8>)
    ensures
        r@ == out@ + spec_enc_bytes(b@),
{
    let ghost out0 = out@;
    let r = push_u64_le(out, b.len() as u64);
    let r = push_all(r, b);
    proof {
        assert(r@ =~= out0 + spec_enc_bytes(b@));
    }
    r
}


/// Whether a user's variable-width fields fit their length prefixes.
pub open spec fn user_fits(u: UserView) -> bool {
    fits(u.username) && fits(u.encrypted_shard.ct)
}

/// Whether every user in a sequence is well-formed and fits.
pub open spec fn users_enc_wf(us: Seq<UserView>) -> bool {
    forall|i: int| 0 <= i < us.len() ==> (#[trigger] us[i]).wf() && user_fits(us[i])
}

/// The back-to-back encoding of a sequence of users.
pub open spec fn spec_enc_users(us: Seq<UserView>) -> Seq<u8>
    decreases us.len(),
{
    if us.len() == 0 {
        Seq::empty()
    } else {
        spec_enc_user(us[0]) + spec_enc_users(us.drop_first())
    }
}

/// Appending one user to a sequence appends its encoding.
pub proof fn lemma_enc_users_push(us: Seq<UserView>, u: UserView)
    ensures
        spec_enc_users(us.push(u)) == spec_enc_users(us) + spec_enc_user(u),
    decreases us.len(),
{
    if us.len() == 0 {
        assert(us.push(u)[0] == u);
        assert(us.push(u).drop_first() =~= Seq::<UserView>::empty());
        assert(spec_enc_users(Seq::<UserView>::empty()) == Seq::<u8>::empty());
        assert(spec_enc_users(us.push(u)) == spec_enc_user(u) + Seq::<u8>::empty());
        assert(spec_enc_users(us.push(u)) =~= spec_enc_users(us) + spec_enc_user(u));
    } else {
        assert(us.push(u)[0] == us[0]);
        assert(us.push(u).drop_first() =~= us.drop_first().push(u));
        lemma_enc_users_push(us.drop_first(), u);
        assert(spec_enc_user(us[0]) + (spec_enc_users(us.drop_first()) + spec_enc_user(u)) =~= (
        spec_enc_user(us[0]) + spec_enc_users(us.drop_first())) + spec_enc_user(u));
    }
}

/// Decodes `count` users back to back, starting at `pos`.
pub open spec fn spec_dec_users(d: Seq<u8>, pos: int, count: nat) -> Option<(Seq<UserView>, int)>
    decreases count,
{
    if count == 0 {
        Some((Seq::empty(), pos))
    } else {
        match spec_dec_user(d, pos) {
            Some((u, p)) => match spec_dec_users(d, p, (count - 1) as nat) {
                Some((rest, e)) => Some((seq![u] + rest, e)),
                None => None,
            },
            None => None,
        }
    }
}

/// Where the bytes at `pos` encode a sequence of well-formed users,
/// decoding that many users reads the sequence back.
pub proof fn lemma_dec_users(d: Seq<u8>, pos: int, us: Seq<UserView>)
    requires
        0 <= pos,
        users_enc_wf(us),
        pos + spec_enc_users(us).len() <= d.len(),
        d.subrange(pos, pos + spec_enc_users(us).len()) == spec_enc_users(us),
    ensures
        spec_dec_users(d, pos, us.len()) == Some((us, pos + spec_enc_users(us).len())),
    decreases us.len(),
{
    if us.len() != 0 {
        let a = spec_enc_user(us[0]);
        let b = spec_enc_users(us.drop_first());
        lemma_concat_prefix(d, pos, a, b);
        lemma_dec_user(d, pos, us[0]);
        assert(users_enc_wf(us.drop_first())) by {
            assert(forall|i: int| 0 <= i < us.drop_first().len()
                ==> us.drop_first()[i] == us[i + 1]);
        }
        lemma_dec_users(d, pos + a.len(), us.drop_first());
        assert(seq![us[0]] + us.drop_first() =~= us);
    }
}

/// Reads `count` users back to back, starting at `pos`.
pub fn read_users(d: &Vec<u8>, pos: usize, count: u64) -> (r: Option<(Vec<User>, usize)>)
    requires
        pos <= d@.len(),
    ensures
        match r {
            Some((v, end)) => spec_dec_users(d@, pos as int, count as nat) == Some(
                (v@.map_values(|u: User| u@), end as int),
            ) && pos <= end <= d@.len() && v@.len() == count && (forall|k: int|
                0 <= k < v@.len() ==> (#[trigger] v@[k])@.wf()),
            None => spec_dec_users(d@, pos as int, count as nat) is None,
        },
{
    let mut acc: Vec<User> = Vec::new();
    let mut p: usize = pos;
    let mut i: u64 = 0;
    while i < count
        invariant
            0 <= i <= count,
            pos <= p <= d@.len(),
            acc@.len() == i,
            forall|k: int| 0 <= k < acc@.len() ==> (#[trigger] acc@[k])@.wf(),
            spec_dec_users(d@, pos as int, count as nat) == (match spec_dec_users(
                d@,
                p as int,
                (count - i) as nat,
            ) {
                Some((rest, e)) => Some((acc@.map_values(|u: User| u@) + rest, e)),
                None => None::<(Seq<UserView>, int)>,
            }),
        decreases count - i,
    {
        match read_user(d, p) {
            None => {
                return None;
            },
            Some((u, p2)) => {
                let ghost acc0 = acc@;
                acc.push(u);
                proof {
                    let f = |x: User| x@;
                    assert(acc@ =~= acc0.push(u));
                    assert(acc@.map_values(f) =~= acc0.map_values(f).push(u@));
                    if spec_dec_users(d@, p2 as int, (count - i - 1) as nat) is Some {
                        let (rest, e) = spec_dec_users(
                            d@,
                            p2 as int,
                            (count - i - 1) as nat,
                        )->Some_0;
                        assert(acc0.map_values(f) + (seq![u@] + rest) =~= acc@.map_values(f)
                            + rest);
                    }
                }
                p = p2;
                i = i + 1;
            },
        }
    }
    proof {
        assert(acc@.map_values(|u: User| u@) + Seq::<UserView>::empty() =~= acc@.map_values(
            |u: User| u@,
        ));
    }
    Some((acc, p))
}

/// Appends the encodings of all users in `us` to `out`.
pub fn push_users(out: Vec<u8>, us: &Vec<User>) -> (r: Vec<u8>)
    ensures
        r@ == out@ + spec_enc_users(us@.map_values(|u: User| u@)),
{
    let mut r = out;
    let ghost r0 = r@;
    let ghost f = |u: User| u@;
    let n = us.len();
    let mut i: usize = 0;
    proof {
        assert(us@.take(0).map_values(f) =~= Seq::<UserView>::empty());
    }
    while i < n
        invariant
            n == us@.len(),
            0 <= i <= n,
            r@ == r0 + spec_enc_users(us@.take(i as int).map_values(f)),
            f == (|u: User| u@),
        decreases n - i,
    {
        r = push_user(r, &us[i]);
        proof {
            assert(us@.take(i as int + 1).map_values(f) =~= us@.take(i as int).map_values(f).push(
                us@[i as int]@,
            ));
            lemma_enc_users_push(us@.take(i as int).map_values(f), us@[i as int]@);
        }
        i += 1;
    }
    proof {
        assert(us@.take(n as int) =~= us@);
    }
    r
}


/// The encoding of a company record: name, user count, the users, the
/// wrapped master key, the plaintext HMAC key, the wrapped HMAC key.
pub open spec fn spec_enc_company(c: CompanyView) -> Seq<u8> {
    spec_enc_bytes(c.name) + spec_u64_le(c.users.len() as u64) + spec_enc_users(c.users)
        + spec_enc_box(c.masterkey_encrypted) + spec_enc_bytes(c.hmackey) + spec_enc_box(
        c.hmackey_encrypted,
    )
}

/// Whether a company's variable-width fields fit their length prefixes.
pub open spec fn company_fits(c: CompanyView) -> bool {
    &&& fits(c.name)
    &&& c.users.len() <= u64::MAX
    &&& forall|i: int| 0 <= i < c.users.len() ==> user_fits(#[trigger] c.users[i])
    &&& fits(c.masterkey_encrypted.ct)
    &&& fits(c.hmackey_encrypted.ct)
}

/// Decodes a company record at `pos`.
pub open spec fn spec_dec_company(d: Seq<u8>, pos: int) -> Option<(CompanyView, int)> {
    match spec_dec_bytes(d, pos) {
        Some((name, p1)) => match spec_dec_u64(d, p1) {
            Some((n, p2)) => match spec_dec_users(d, p2, n as nat) {
                Some((users, p3)) => match spec_dec_box(d, p3) {
                    Some((masterkey_encrypted, p4)) => match spec_dec_bytes(d, p4) {
                        Some((hmackey, p5)) => match spec_dec_box(d, p5) {
                            Some((hmackey_encrypted, p6)) => if is_key(hmackey) {
                                Some(
                                    (
                                        CompanyView {
                                            name,
                                            users,
                                            masterkey_encrypted,
                                            hmackey,
                                            hmackey_encrypted,
                                        },
                                        p6,
                                    ),
                                )
                            } else {
                                None
                            },
                            None => None,
                        },
                        None => None,
                    },
                    None => None,
                },
                None => None,
            },
            None => None,
        },
        None => None,
    }
}

/// Where the bytes at `pos` encode a well-formed company, decoding
/// reads the company back.
pub proof fn lemma_dec_company(d: Seq<u8>, pos: int, c: CompanyView)
    requires
        0 <= pos,
        c.wf(),
        company_fits(c),
        pos + spec_enc_company(c).len() <= d.len(),
        d.subrange(pos, pos + spec_enc_company(c).len()) == spec_enc_company(c),
    ensures
        spec_dec_company(d, pos) == Some((c, pos + spec_enc_company(c).len())),
{
    let a1 = spec_enc_bytes(c.name);
    let a2 = spec_u64_le(c.users.len() as u64);
    let a3 = spec_enc_users(c.users);
    let a4 = spec_enc_box(c.masterkey_encrypted);
    let a5 = spec_enc_bytes(c.hmackey);
    let a6 = spec_enc_box(c.hmackey_encrypted);
    let p1 = pos + a1.len();
    let p2 = p1 + a2.len();
    let p3 = p2 + a3.len();
    let p4 = p3 + a4.len();
    let p5 = p4 + a5.len();
    let p6 = p5 + a6.len();
    assert(spec_enc_company(c) =~= a1 + (a2 + (a3 + (a4 + (a5 + a6)))));
    lemma_concat_prefix(d, pos, a1, a2 + (a3 + (a4 + (a5 + a6))));
    lemma_concat_prefix(d, p1, a2, a3 + (a4 + (a5 + a6)));
    lemma_concat_prefix(d, p2, a3, a4 + (a5 + a6));
    lemma_concat_prefix(d, p3, a4, a5 + a6);
    lemma_concat_prefix(d, p4, a5, a6);
    lemma_dec_bytes(d, pos, c.name);
    lemma_dec_u64(d, p1, c.users.len() as u64);
    lemma_dec_users(d, p2, c.users);
    lemma_dec_box(d, p3, c.masterkey_encrypted);
    lemma_dec_bytes(d, p4, c.hmackey);
    lemma_dec_box(d, p5, c.hmackey_encrypted);
}

/// Reads a company record at `pos`.
pub fn read_company(d: &Vec<u8>, pos: usize) -> (r: Option<(Company, usize)>)
    ensures
        match r {
            Some((v, end)) => spec_dec_company(d@, pos as int) == Some((v@, end as int))
                && v@.wf() && pos <= end <= d@.len(),
            None => spec_dec_company(d@, pos as int) is None,
        },
{
    match read_bytes(d, pos) {
        None => None,
        Some((name, p1)) => match read_u64(d, p1) {
            None => None,
            Some((n, p2)) => match read_users(d, p2, n) {
                None => None,
                Some((users, p3)) => match read_box(d, p3) {
                    None => None,
                    Some((masterkey_encrypted, p4)) => match read_bytes(d, p4) {
                        None => None,
                        Some((hmackey, p5)) => match read_box(d, p5) {
                            None => None,
                            Some((hmackey_encrypted, p6)) => {
                                if hmackey.len() != 32 {
                                    return None;
                                }
                                let c = Company {
                                    name,
                                    users,
                                    masterkey_encrypted,
                                    hmackey,
                                    hmackey_encrypted,
                                };
                                Some((c, p6))
                            },
                        },
                    },
                },
            },
        },
    }
}

/// Encodes a company record.
pub fn encode_company(c: &Company) -> (r: Vec<u8>)
    ensures
        r@ == spec_enc_company(c@),
{
    let r = push_bytes(Vec::new(), &c.name);
    let r = push_u64_le(r, c.users.len() as u64);
    let r = push_users(r, &c.users);
    let r = push_box(r, &c.masterkey_encrypted);
    let r = push_bytes(r, &c.hmackey);
    let r = push_box(r, &c.hmackey_encrypted);
    proof {
        assert(r@ =~= spec_enc_company(c@));
    }
    r
}

/// Parses a whole message as a company record; trailing bytes are a
/// protocol error.
pub open spec fn spec_parse_company(d: Seq<u8>) -> Option<CompanyView> {
    match spec_dec_company(d, 0) {
        Some((c, end)) => if end == d.len() {
            Some(c)
        } else {
            None
        },
        None => None,
    }
}

/// Decodes a whole message as a company record.
pub fn decode_company(d: &Vec<u8>) -> (r: Option<Company>)
    ensures
        match r {
            Some(c) => spec_parse_company(d@) == Some(c@) && c@.wf(),
            None => spec_parse_company(d@) is None,
        },
{
    match read_company(d, 0) {
        Some((c, end)) => if end == d.len() {
            Some(c)
        } else {
            None
        },
        None => None,
    }
}

/// Decoding an encoded well-formed company gives the company back.
pub proof fn lemma_company_codec_roundtrip(c: CompanyView)
    requires
        c.wf(),
        company_fits(c),
    ensures
        spec_parse_company(spec_enc_company(c)) == Some(c),
{
    let d = spec_enc_company(c);
    assert(d.subrange(0, d.len() as int) =~= d);
    lemma_dec_company(d, 0, c);
}


/// The encoding of a filename record: the UUID text, then the
/// encrypted filename.
pub open spec fn spec_enc_fnbox(f: FileNameBoxView) -> Seq<u8> {
    spec_enc_bytes(f.uuid) + spec_enc_box(f.encrypted_name)
}

/// Whether a filename record's fields fit their length prefixes.
pub open spec fn fnbox_fits(f: FileNameBoxView) -> bool {
    fits(f.uuid) && fits(f.encrypted_name.ct)
}

/// Decodes a filename record at `pos`.
pub open spec fn spec_dec_fnbox(d: Seq<u8>, pos: int) -> Option<(FileNameBoxView, int)> {
    match spec_dec_bytes(d, pos) {
        Some((uuid, p1)) => match spec_dec_box(d, p1) {
            Some((encrypted_name, p2)) => Some((FileNameBoxView { uuid, encrypted_name }, p2)),
            None => None,
        },
        None => None,
    }
}

/// Where the bytes at `pos` encode a well-formed filename record,
/// decoding reads it back.
pub proof fn lemma_dec_fnbox(d: Seq<u8>, pos: int, f: FileNameBoxView)
    requires
        0 <= pos,
        f.wf(),
        fnbox_fits(f),
        pos + spec_enc_fnbox(f).len() <= d.len(),
        d.subrange(pos, pos + spec_enc_fnbox(f).len()) == spec_enc_fnbox(f),
    ensures
        spec_dec_fnbox(d, pos) == Some((f, pos + spec_enc_fnbox(f).len())),
{
    lemma_concat_prefix(d, pos, spec_enc_bytes(f.uuid), spec_enc_box(f.encrypted_name));
    lemma_dec_bytes(d, pos, f.uuid);
    lemma_dec_box(d, pos + spec_enc_bytes(f.uuid).len(), f.encrypted_name);
}

/// Reads a filename record at `pos`.
pub fn read_fnbox(d: &Vec<u8>, pos: usize) -> (r: Option<(FileNameBox, usize)>)
    ensures
        match r {
            Some((v, end)) => spec_dec_fnbox(d@, pos as int) == Some((v@, end as int)) && v@.wf()
                && pos <= end <= d@.len(),
            None => spec_dec_fnbox(d@, pos as int) is None,
        },
{
    match read_bytes(d, pos) {
        None => None,
        Some((uuid, p1)) => match read_box(d, p1) {
            None => None,
            Some((encrypted_name, p2)) => Some((FileNameBox { uuid, encrypted_name }, p2)),
        },
    }
}

/// Appends the encoding of a filename record to `out`.
pub fn push_fnbox(out: Vec<u8>, f: &FileNameBox) -> (r: Vec<u8>)
    ensures
        r@ == out@ + spec_enc_fnbox(f@),
{
    let ghost out0 = out@;
    let r = push_bytes(out, &f.uuid);
    let r = push_box(r, &f.encrypted_name);
    proof {
        assert(r@ =~= out0 + spec_enc_fnbox(f@));
    }
    r
}

/// Whether every filename record in a sequence is well-formed and fits.
pub open spec fn fnboxes_enc_wf(fs: Seq<FileNameBoxView>) -> bool {
    forall|i: int| 0 <= i < fs.len() ==> (#[trigger] fs[i]).wf() && fnbox_fits(fs[i])
}

/// The back-to-back encoding of a sequence of filename records.
pub open spec fn spec_enc_fnboxes(fs: Seq<FileNameBoxView>) -> Seq<u8>
    decreases fs.len(),
{
    if fs.len() == 0 {
        Seq::empty()
    } else {
        spec_enc_fnbox(fs[0]) + spec_enc_fnboxes(fs.drop_first())
    }
}

/// Appending one record to a sequence appends its encoding.
pub proof fn lemma_enc_fnboxes_push(fs: Seq<FileNameBoxView>, f: FileNameBoxView)
    ensures
        spec_enc_fnboxes(fs.push(f)) == spec_enc_fnboxes(fs) + spec_enc_fnbox(f),
    decreases fs.len(),
{
    if fs.len() == 0 {
        assert(fs.push(f)[0] == f);
        assert(fs.push(f).drop_first() =~= Seq::<FileNameBoxView>::empty());
        assert(spec_enc_fnboxes(Seq::<FileNameBoxView>::empty()) == Seq::<u8>::empty());
        assert(spec_enc_fnboxes(fs.push(f)) == spec_enc_fnbox(f) + Seq::<u8>::empty());
        assert(spec_enc_fnboxes(fs.push(f)) =~= spec_enc_fnboxes(fs) + spec_enc_fnbox(f));
    } else {
        assert(fs.push(f)[0] == fs[0]);
        assert(fs.push(f).drop_first() =~= fs.drop_first().push(f));
        lemma_enc_fnboxes_push(fs.drop_first(), f);
        assert(spec_enc_fnbox(fs[0]) + (spec_enc_fnboxes(fs.drop_first()) + spec_enc_fnbox(f)) =~= (
        spec_enc_fnbox(fs[0]) + spec_enc_fnboxes(fs.drop_first())) + spec_enc_fnbox(f));
    }
}

/// Decodes `count` filename records back to back, starting at `pos`.
pub open spec fn spec_dec_fnboxes(d: Seq<u8>, pos: int, count: nat) -> Option<
    (Seq<FileNameBoxView>, int),
>
    decreases count,
{
    if count == 0 {
        Some((Seq::empty(), pos))
    } else {
        match spec_dec_fnbox(d, pos) {
            Some((f, p)) => match spec_dec_fnboxes(d, p, (count - 1) as nat) {
                Some((rest, e)) => Some((seq![f] + rest, e)),
                None => None,
            },
            None => None,
        }
    }
}

/// Where the bytes at `pos` encode a sequence of well-formed filename
/// records, decoding that many reads the sequence back.
pub proof fn lemma_dec_fnboxes(d: Seq<u8>, pos: int, fs: Seq<FileNameBoxView>)
    requires
        0 <= pos,
        fnboxes_enc_wf(fs),
        pos + spec_enc_fnboxes(fs).len() <= d.len(),
        d.subrange(pos, pos + spec_enc_fnboxes(fs).len()) == spec_enc_fnboxes(fs),
    ensures
        spec_dec_fnboxes(d, pos, fs.len()) == Some((fs, pos + spec_enc_fnboxes(fs).len())),
    decreases fs.len(),
{
    if fs.len() != 0 {
        let a = spec_enc_fnbox(fs[0]);
        let b = spec_enc_fnboxes(fs.drop_first());
        lemma_concat_prefix(d, pos, a, b);
        lemma_dec_fnbox(d, pos, fs[0]);
        assert(fnboxes_enc_wf(fs.drop_first())) by {
            assert(forall|i: int| 0 <= i < fs.drop_first().len()
                ==> fs.drop_first()[i] == fs[i + 1]);
        }
        lemma_dec_fnboxes(d, pos + a.len(), fs.drop_first());
        assert(seq![fs[0]] + fs.drop_first() =~= fs);
    }
}

/// Reads `count` filename records back to back, starting at `pos`.
pub fn read_fnboxes(d: &Vec<u8>, pos: usize, count: u64) -> (r: Option<(Vec<FileNameBox>, usize)>)
    requires
        pos <= d@.len(),
    ensures
        match r {
            Some((v, end)) => spec_dec_fnboxes(d@, pos as int, count as nat) == Some(
                (v@.map_values(|f: FileNameBox| f@), end as int),
            ) && pos <= end <= d@.len() && v@.len() == count && (forall|k: int|
                0 <= k < v@.len() ==> (#[trigger] v@[k])@.wf()),
            None => spec_dec_fnboxes(d@, pos as int, count as nat) is None,
        },
{
    let mut acc: Vec<FileNameBox> = Vec::new();
    let mut p: usize = pos;
    let mut i: u64 = 0;
    while i < count
        invariant
            0 <= i <= count,
            pos <= p <= d@.len(),
            acc@.len() == i,
            forall|k: int| 0 <= k < acc@.len() ==> (#[trigger] acc@[k])@.wf(),
            spec_dec_fnboxes(d@, pos as int, count as nat) == (match spec_dec_fnboxes(
                d@,
                p as int,
                (count - i) as nat,
            ) {
                Some((rest, e)) => Some((acc@.map_values(|f: FileNameBox| f@) + rest, e)),
                None => None::<(Seq<FileNameBoxView>, int)>,
            }),
        decreases count - i,
    {
        match read_fnbox(d, p) {
            None => {
                return None;
            },
            Some((f, p2)) => {
                let ghost acc0 = acc@;
                acc.push(f);
                proof {
                    let g = |x: FileNameBox| x@;
                    assert(acc@ =~= acc0.push(f));
                    assert(acc@.map_values(g) =~= acc0.map_values(g).push(f@));
                    if spec_dec_fnboxes(d@, p2 as int, (count - i - 1) as nat) is Some {
                        let (rest, e) = spec_dec_fnboxes(
                            d@,
                            p2 as int,
                            (count - i - 1) as nat,
                        )->Some_0;
                        assert(acc0.map_values(g) + (seq![f@] + rest) =~= acc@.map_values(g)
                            + rest);
                    }
                }
                p = p2;
                i = i + 1;
            },
        }
    }
    proof {
        assert(acc@.map_values(|f: FileNameBox| f@) + Seq::<FileNameBoxView>::empty()
            =~= acc@.map_values(|f: FileNameBox| f@));
    }
    Some((acc, p))
}

/// The encoding of the per-company filename index: a count, then the
/// records.
pub open spec fn spec_enc_index(fs: Seq<FileNameBoxView>) -> Seq<u8> {
    spec_u64_le(fs.len() as u64) + spec_enc_fnboxes(fs)
}

/// Parses a whole message as a filename index.
pub open spec fn spec_parse_index(d: Seq<u8>) -> Option<Seq<FileNameBoxView>> {
    match spec_dec_u64(d, 0) {
        Some((n, p)) => match spec_dec_fnboxes(d, p, n as nat) {
            Some((fs, end)) => if end == d.len() {
                Some(fs)
            } else {
                None
            },
            None => None,
        },
        None => None,
    }
}

/// Encodes the filename index.
pub fn encode_index(fs: &Vec<FileNameBox>) -> (r: Vec<u8>)
    ensures
        r@ == spec_enc_index(fs@.map_values(|f: FileNameBox| f@)),
{
    let mut r = push_u64_le(Vec::new(), fs.len() as u64);
    let ghost r0 = r@;
    let ghost g = |f: FileNameBox| f@;
    let n = fs.len();
    let mut i: usize = 0;
    proof {
        assert(fs@.take(0).map_values(g) =~= Seq::<FileNameBoxView>::empty());
    }
    while i < n
        invariant
            n == fs@.len(),
            0 <= i <= n,
            r@ == r0 + spec_enc_fnboxes(fs@.take(i as int).map_values(g)),
            g == (|f: FileNameBox| f@),
        decreases n - i,
    {
        r = push_fnbox(r, &fs[i]);
        proof {
            assert(fs@.take(i as int + 1).map_values(g) =~= fs@.take(i as int).map_values(g).push(
                fs@[i as int]@,
            ));
            lemma_enc_fnboxes_push(fs@.take(i as int).map_values(g), fs@[i as int]@);
        }
        i += 1;
    }
    proof {
        assert(fs@.take(n as int) =~= fs@);
        assert(r@ =~= spec_enc_index(fs@.map_values(g)));
    }
    r
}

/// Decodes a whole message as a filename index.
pub fn decode_index(d: &Vec<u8>) -> (r: Option<Vec<FileNameBox>>)
    ensures
        match r {
            Some(fs) => spec_parse_index(d@) == Some(fs@.map_values(|f: FileNameBox| f@)) && (
            forall|k: int| 0 <= k < fs@.len() ==> (#[trigger] fs@[k])@.wf()),
            None => spec_parse_index(d@) is None,
        },
{
    match read_u64(d, 0) {
        None => None,
        Some((n, p)) => match read_fnboxes(d, p, n) {
            None => None,
            Some((fs, end)) => if end == d.len() {
                Some(fs)
            } else {
                None
            },
        },
    }
}

/// Decoding an encoded index of well-formed records gives it back.
pub proof fn lemma_index_codec_roundtrip(fs: Seq<FileNameBoxView>)
    requires
        fnboxes_enc_wf(fs),
        fs.len() <= u64::MAX,
    ensures
        spec_parse_index(spec_enc_index(fs)) == Some(fs),
{
    let d = spec_enc_index(fs);
    let a = spec_u64_le(fs.len() as u64);
    let b = spec_enc_fnboxes(fs);
    assert(d.subrange(0, d.len() as int) =~= d);
    assert(d.subrange(0, a.len() + b.len() as int) == a + b);
    lemma_concat_prefix(d, 0, a, b);
    lemma_dec_u64(d, 0, fs.len() as u64);
    lemma_dec_fnboxes(d, a.len() as int, fs);
}


/// The encoding of an authentication request: company name and the two
/// usernames.
pub open spec fn spec_enc_auth_request(name: Seq<u8>, u1: Seq<u8>, u2: Seq<u8>) -> Seq<u8> {
    spec_enc_bytes(name) + spec_enc_bytes(u1) + spec_enc_bytes(u2)
}

/// Parses a whole message as an authentication request.
pub open spec fn spec_parse_auth_request(d: Seq<u8>) -> Option<(Seq<u8>, Seq<u8>, Seq<u8>)> {
    match spec_dec_bytes(d, 0) {
        Some((name, p1)) => match spec_dec_bytes(d, p1) {
            Some((u1, p2)) => match spec_dec_bytes(d, p2) {
                Some((u2, end)) => if end == d.len() {
                    Some((name, u1, u2))
                } else {
                    None
                },
                None => None,
            },
            None => None,
        },
        None => None,
    }
}

/// Encodes an authentication request.
pub fn encode_auth_request(name: &Vec<u8>, u1: &Vec<u8>, u2: &Vec<u8>) -> (r: Vec<u8>)
    ensures
        r@ == spec_enc_auth_request(name@, u1@, u2@),
{
    let r = push_bytes(Vec::new(), name);
    let r = push_bytes(r, u1);
    let r = push_bytes(r, u2);
    proof {
        assert(r@ =~= spec_enc_auth_request(name@, u1@, u2@));
    }
    r
}

/// Decodes a whole message as an authentication request.
pub fn decode_auth_request(d: &Vec<u8>) -> (r: Option<(Vec<u8>, Vec<u8>, Vec<u8>)>)
    ensures
        match r {
            Some((name, u1, u2)) => spec_parse_auth_request(d@) == Some((name@, u1@, u2@)),
            None => spec_parse_auth_request(d@) is None,
        },
{
    match read_bytes(d, 0) {
        None => None,
        Some((name, p1)) => match read_bytes(d, p1) {
            None => None,
            Some((u1, p2)) => match read_bytes(d, p2) {
                None => None,
                Some((u2, end)) => if end == d.len() {
                    Some((name, u1, u2))
                } else {
                    None
                },
            },
        },
    }
}

/// Decoding an encoded authentication request gives it back.
pub proof fn lemma_auth_request_codec_roundtrip(name: Seq<u8>, u1: Seq<u8>, u2: Seq<u8>)
    requires
        fits(name),
        fits(u1),
        fits(u2),
    ensures
        spec_parse_auth_request(spec_enc_auth_request(name, u1, u2)) == Some((name, u1, u2)),
{
    let d = spec_enc_auth_request(name, u1, u2);
    let a = spec_enc_bytes(name);
    let b = spec_enc_bytes(u1);
    let c = spec_enc_bytes(u2);
    assert(d.subrange(0, d.len() as int) =~= d);
    lemma_concat_prefix3(d, 0, a, b, c);
    lemma_dec_bytes(d, 0, name);
    lemma_dec_bytes(d, a.len() as int, u1);
    lemma_dec_bytes(d, a.len() + b.len() as int, u2);
}

/// The encoding of the server's authentication challenge: the two user
/// records (as a counted sequence), the 64-byte random challenge, and
/// the wrapped HMAC key.
pub open spec fn spec_enc_challenge(
    a: UserView,
    b: UserView,
    random: Seq<u8>,
    hm: EncryptedBoxView,
) -> Seq<u8> {
    spec_u64_le(2) + spec_enc_user(a) + spec_enc_user(b) + spec_enc_bytes(random) + spec_enc_box(
        hm,
    )
}

/// Parses a whole message as an authentication challenge; the random
/// part must be exactly 64 bytes.
pub open spec fn spec_parse_challenge(d: Seq<u8>) -> Option<
    (UserView, UserView, Seq<u8>, EncryptedBoxView),
> {
    match spec_dec_u64(d, 0) {
        Some((n, p0)) => if n != 2 {
            None
        } else {
            match spec_dec_user(d, p0) {
                Some((a, p1)) => match spec_dec_user(d, p1) {
                    Some((b, p2)) => match spec_dec_bytes(d, p2) {
                        Some((random, p3)) => match spec_dec_box(d, p3) {
                            Some((hm, end)) => if end == d.len() && random.len() == 64 {
                                Some((a, b, random, hm))
                            } else {
                                None
                            },
                            None => None,
                        },
                        None => None,
                    },
                    None => None,
                },
                None => None,
            }
        },
        None => None,
    }
}

/// Encodes an authentication challenge.
pub fn encode_challenge(a: &User, b: &User, random: &Vec<u8>, hm: &EncryptedBox) -> (r: Vec<u8>)
    ensures
        r@ == spec_enc_challenge(a@, b@, random@, hm@),
{
    let r = push_u64_le(Vec::new(), 2);
    let r = push_user(r, a);
    let r = push_user(r, b);
    let r = push_bytes(r, random);
    let r = push_box(r, hm);
    proof {
        assert(r@ =~= spec_enc_challenge(a@, b@, random@, hm@));
    }
    r
}

/// Decodes a whole message as an authentication challenge.
pub fn decode_challenge(d: &Vec<u8>) -> (r: Option<(User, User, Vec<u8>, EncryptedBox)>)
    ensures
        match r {
            Some((a, b, random, hm)) => spec_parse_challenge(d@) == Some(
                (a@, b@, random@, hm@),
            ) && a@.wf() && b@.wf() && hm@.wf() && random@.len() == 64,
            None => spec_parse_challenge(d@) is None,
        },
{
    match read_u64(d, 0) {
        None => None,
        Some((n, p0)) => {
            if n != 2 {
                return None;
            }
            match read_user(d, p0) {
                None => None,
                Some((a, p1)) => match read_user(d, p1) {
                    None => None,
                    Some((b, p2)) => match read_bytes(d, p2) {
                        None => None,
                        Some((random, p3)) => match read_box(d, p3) {
                            None => None,
                            Some((hm, end)) => if end == d.len() && random.len() == 64 {
                                Some((a, b, random, hm))
                            } else {
                                None
                            },
                        },
                    },
                },
            }
        },
    }
}

/// Decoding an encoded challenge gives it back.
#[verifier::rlimit(60)]
pub proof fn lemma_challenge_codec_roundtrip(
    a: UserView,
    b: UserView,
    random: Seq<u8>,
    hm: EncryptedBoxView,
)
    requires
        a.wf(),
        user_fits(a),
        b.wf(),
        user_fits(b),
        random.len() == 64,
        hm.wf(),
        fits(hm.ct),
    ensures
        spec_parse_challenge(spec_enc_challenge(a, b, random, hm)) == Some((a, b, random, hm)),
{
    let d = spec_enc_challenge(a, b, random, hm);
    let a0 = spec_u64_le(2);
    let a1 = spec_enc_user(a);
    let a2 = spec_enc_user(b);
    let a3 = spec_enc_bytes(random);
    let a4 = spec_enc_box(hm);
    let p0 = 0 + a0.len() as int;
    let p1 = p0 + a1.len();
    let p2 = p1 + a2.len();
    let p3 = p2 + a3.len();
    assert(d.subrange(0, d.len() as int) =~= d);
    assert(d =~= a0 + (a1 + (a2 + (a3 + a4))));
    lemma_concat_prefix(d, 0, a0, a1 + (a2 + (a3 + a4)));
    lemma_concat_prefix(d, p0, a1, a2 + (a3 + a4));
    lemma_concat_prefix(d, p1, a2, a3 + a4);
    lemma_concat_prefix(d, p2, a3, a4);
    lemma_dec_u64(d, 0, 2);
    lemma_dec_user(d, p0, a);
    lemma_dec_user(d, p1, b);
    lemma_dec_bytes(d, p2, random);
    lemma_dec_box(d, p3, hm);
}

/// The encoding of an upload payload: the encrypted file, the encrypted
/// filename, and the wrapped file key.
pub open spec fn spec_enc_upload(
    file: EncryptedBoxView,
    name: EncryptedBoxView,
    key: EncryptedBoxView,
) -> Seq<u8> {
    spec_enc_box(file) + spec_enc_box(name) + spec_enc_box(key)
}

/// Parses a whole message as an upload payload.
pub open spec fn spec_parse_upload(d: Seq<u8>) -> Option<
    (EncryptedBoxView, EncryptedBoxView, EncryptedBoxView),
> {
    match spec_dec_box(d, 0) {
        Some((file, p1)) => match spec_dec_box(d, p1) {
            Some((name, p2)) => match spec_dec_box(d, p2) {
                Some((key, end)) => if end == d.len() {
                    Some((file, name, key))
                } else {
                    None
                },
                None => None,
            },
            None => None,
        },
        None => None,
    }
}

/// Encodes an upload payload.
pub fn encode_upload(file: &EncryptedBox, name: &EncryptedBox, key: &EncryptedBox) -> (r: Vec<u8>)
    ensures
        r@ == spec_enc_upload(file@, name@, key@),
{
    let r = push_box(Vec::new(), file);
    let r = push_box(r, name);
    let r = push_box(r, key);
    proof {
        assert(r@ =~= spec_enc_upload(file@, name@, key@));
    }
    r
}

/// Decodes a whole message as an upload payload.
pub fn decode_upload(d: &Vec<u8>) -> (r: Option<(EncryptedBox, EncryptedBox, EncryptedBox)>)
    ensures
        match r {
            Some((file, name, key)) => spec_parse_upload(d@) == Some((file@, name@, key@))
                && file@.wf() && name@.wf() && key@.wf(),
            None => spec_parse_upload(d@) is None,
        },
{
    match read_box(d, 0) {
        None => None,
        Some((file, p1)) => match read_box(d, p1) {
            None => None,
            Some((name, p2)) => match read_box(d, p2) {
                None => None,
                Some((key, end)) => if end == d.len() {
                    Some((file, name, key))
                } else {
                    None
                },
            },
        },
    }
}

/// Decoding an encoded upload payload gives it back.
pub proof fn lemma_upload_codec_roundtrip(
    file: EncryptedBoxView,
    name: EncryptedBoxView,
    key: EncryptedBoxView,
)
    requires
        file.wf() && fits(file.ct),
        name.wf() && fits(name.ct),
        key.wf() && fits(key.ct),
    ensures
        spec_parse_upload(spec_enc_upload(file, name, key)) == Some((file, name, key)),
{
    let d = spec_enc_upload(file, name, key);
    let a = spec_enc_box(file);
    let b = spec_enc_box(name);
    let c = spec_enc_box(key);
    assert(d.subrange(0, d.len() as int) =~= d);
    lemma_concat_prefix3(d, 0, a, b, c);
    lemma_dec_box(d, 0, file);
    lemma_dec_box(d, a.len() as int, name);
    lemma_dec_box(d, a.len() + b.len() as int, key);
}

/// The encoding of a download reply: the encrypted file and the wrapped
/// file key.
pub open spec fn spec_enc_file_response(file: EncryptedBoxView, key: EncryptedBoxView) -> Seq<u8> {
    spec_enc_box(file) + spec_enc_box(key)
}

/// Parses a whole message as a download reply.
pub open spec fn spec_parse_file_response(d: Seq<u8>) -> Option<
    (EncryptedBoxView, EncryptedBoxView),
> {
    match spec_dec_box(d, 0) {
        Some((file, p1)) => match spec_dec_box(d, p1) {
            Some((key, end)) => if end == d.len() {
                Some((file, key))
            } else {
                None
            },
            None => None,
        },
        None => None,
    }
}

/// Encodes a download reply.
pub fn encode_file_response(file: &EncryptedBox, key: &EncryptedBox) -> (r: Vec<u8>)
    ensures
        r@ == spec_enc_file_response(file@, key@),
{
    let r = push_box(Vec::new(), file);
    let r = push_box(r, key);
    proof {
        assert(r@ =~= spec_enc_file_response(file@, key@));
    }
    r
}

/// Decodes a whole message as a download reply.
pub fn decode_file_response(d: &Vec<u8>) -> (r: Option<(EncryptedBox, EncryptedBox)>)
    ensures
        match r {
            Some((file, key)) => spec_parse_file_response(d@) == Some((file@, key@)) && file@.wf()
                && key@.wf(),
            None => spec_parse_file_response(d@) is None,
        },
{
    match read_box(d, 0) {
        None => None,
        Some((file, p1)) => match read_box(d, p1) {
            None => None,
            Some((key, end)) => if end == d.len() {
                Some((file, key))
            } else {
                None
            },
        },
    }
}

/// Decoding an encoded download reply gives it back.
pub proof fn lemma_file_response_codec_roundtrip(file: EncryptedBoxView, key: EncryptedBoxView)
    requires
        file.wf() && fits(file.ct),
        key.wf() && fits(key.ct),
    ensures
        spec_parse_file_response(spec_enc_file_response(file, key)) == Some((file, key)),
{
    let d = spec_enc_file_response(file, key);
    let a = spec_enc_box(file);
    let b = spec_enc_box(key);
    assert(d.subrange(0, d.len() as int) =~= d);
    lemma_concat_prefix(d, 0, a, b);
    lemma_dec_box(d, 0, file);
    lemma_dec_box(d, a.len() as int, key);
}


/// The single-envelope message that carries the wrapped master key.
pub open spec fn spec_parse_box_msg(d: Seq<u8>) -> Option<EncryptedBoxView> {
    match spec_dec_box(d, 0) {
        Some((b, end)) => if end == d.len() {
            Some(b)
        } else {
            None
        },
        None => None,
    }
}

/// Encodes a single envelope as a whole message.
pub fn encode_box_msg(b: &EncryptedBox) -> (r: Vec<u8>)
    ensures
        r@ == spec_enc_box(b@),
{
    push_box(Vec::new(), b)
}

/// Decodes a whole message as a single envelope.
pub fn decode_box_msg(d: &Vec<u8>) -> (r: Option<EncryptedBox>)
    ensures
        match r {
            Some(b) => spec_parse_box_msg(d@) == Some(b@) && b@.wf(),
            None => spec_parse_box_msg(d@) is None,
        },
{
    match read_box(d, 0) {
        Some((b, end)) => if end == d.len() {
            Some(b)
        } else {
            None
        },
        None => None,
    }
}

/// Decoding an encoded envelope message gives it back.
pub proof fn lemma_box_msg_codec_roundtrip(b: EncryptedBoxView)
    requires
        b.wf(),
        fits(b.ct),
    ensures
        spec_parse_box_msg(spec_enc_box(b)) == Some(b),
{
    let d = spec_enc_box(b);
    assert(d.subrange(0, d.len() as int) =~= d);
    lemma_dec_box(d, 0, b);
}

/// A framed request: the payload followed by the request-type byte.
pub open spec fn spec_frame(payload: Seq<u8>, t: RequestType) -> Seq<u8> {
    payload + seq![t.spec_byte()]
}

/// The inverse of `RequestType::spec_byte`.
pub open spec fn spec_type_of_byte(b: u8) -> Option<RequestType> {
    if b == 0 {
        Some(RequestType::CloseConnection)
    } else if b == 1 {
        Some(RequestType::CreateCompany)
    } else if b == 2 {
        Some(RequestType::AuthenticateSession)
    } else if b == 3 {
        Some(RequestType::UploadFile)
    } else if b == 4 {
        Some(RequestType::GetFilenames)
    } else if b == 5 {
        Some(RequestType::DownloadFile)
    } else {
        if b == 6 {
            Some(RequestType::RegenerateKey)
        } else {
            None
        }
    }
}

/// Splits a non-empty frame into its request type and payload;
/// an unknown tag byte is refused.
pub open spec fn spec_parse_request(f: Seq<u8>) -> Option<(RequestType, Seq<u8>)> {
    if f.len() == 0 {
        None
    } else {
        match spec_type_of_byte(f.last()) {
            Some(t) => Some((t, f.drop_last())),
            None => None,
        }
    }
}

/// Parsing a framed request gives the type and payload back.
pub proof fn lemma_frame_roundtrip(payload: Seq<u8>, t: RequestType)
    ensures
        spec_parse_request(spec_frame(payload, t)) == Some((t, payload)),
{
    let f = spec_frame(payload, t);
    assert(f.last() == t.spec_byte());
    assert(f.drop_last() =~= payload);
}

/// Appends the request-type byte to a payload.
pub fn frame_request(payload: Vec<u8>, t: RequestType) -> (r: Vec<u8>)
    ensures
        r@ == spec_frame(payload@, t),
{
    let mut r = payload;
    let ghost p0 = r@;
    r.push(t.to_byte());
    proof {
        assert(r@ =~= spec_frame(p0, t));
    }
    r
}

/// Splits a received frame into its request type and payload.
pub fn parse_request(f: &Vec<u8>) -> (r: Option<(RequestType, Vec<u8>)>)
    ensures
        match r {
            Some((t, payload)) => spec_parse_request(f@) == Some((t, payload@)),
            None => spec_parse_request(f@) is None,
        },
{
    if f.len() == 0 {
        return None;
    }
    let tag = f[f.len() - 1];
    let t = match RequestType::from_byte(tag) {
        Some(t) => t,
        None => {
            proof {
                assert(spec_type_of_byte(f@.last()) is None);
            }
            return None;
        },
    };
    let payload = slice_to_vec(slice_subrange(f.as_slice(), 0, f.len() - 1));
    proof {
        assert(payload@ =~= f@.drop_last());
        assert(spec_type_of_byte(f@.last()) == Some(t));
    }
    Some((t, payload))
}

} // verus!
