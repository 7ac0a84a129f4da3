//! Helpers for the server's store: the escaped directory name a
//! company is filed under, the filename index kept per company, and
//! the download reply built from the two stored blobs.
//!
//! The store itself (directories and files) stays outside the
//! library; these functions do the byte-level work it needs, and hand
//! it the fresh identifier each stored file is filed under.

use vstd::prelude::*;

use crate::codec::{
    decode_box_msg, decode_index, encode_file_response, encode_index, spec_enc_file_response,
    spec_enc_index, spec_parse_box_msg, spec_parse_index,
};
use crate::types::{clone_bytes, EncryptedBox, FileNameBox, FileNameBoxView};

verus! {

/// The ASCII transliteration of a company name's UTF-8 bytes.
pub uninterp spec fn fold_of(name: Seq<u8>) -> Seq<u8>;

/// Relies on unidecode's `unidecode`: the transliteration depends on
/// the text alone, and every byte of the result is ASCII.
#[verifier::external_body]
fn ascii_fold(name: &Vec<u8>) -> (r: Vec<u8>)
    ensures
        r@ == fold_of(name@),
        forall|i: int| 0 <= i < r@.len() ==> r@[i] < 128,
{
    unidecode::unidecode(&String::from_utf8_lossy(name)).into_bytes()
}

/// The folded name with path separators and spaces replaced by dashes.
pub open spec fn spec_escaped(name: Seq<u8>) -> Seq<u8> {
    fold_of(name).map_values(
        |c: u8|
            if c == 47 || c == 32 {
                45u8
            } else {
                c
            },
    )
}

/// The directory name a company is filed under: its name folded to
/// ASCII, with `/` and spaces replaced by `-`. The result never holds
/// a path separator.
pub fn escape_company_name(name: &Vec<u8>) -> (r: Vec<u8>)
    ensures
        r@ == spec_escaped(name@),
        forall|i: int| 0 <= i < r@.len() ==> r@[i] != 47 && r@[i] != 32 && r@[i] < 128,
{
    let folded = ascii_fold(name);
    let mut r: Vec<u8> = Vec::new();
    let n = folded.len();
    let mut i: usize = 0;
    while i < n
        invariant
            n == folded@.len(),
            folded@ == fold_of(name@),
            forall|k: int| 0 <= k < folded@.len() ==> folded@[k] < 128,
            0 <= i <= n,
            r@.len() == i,
            forall|k: int| 0 <= k < i ==> r@[k] == spec_escaped(name@)[k],
            forall|k: int| 0 <= k < i ==> r@[k] != 47 && r@[k] != 32 && r@[k] < 128,
        decreases n - i,
    {
        let c = folded[i];
        if c == 47 || c == 32 {
            r.push(45u8);
        } else {
            r.push(c);
        }
        i += 1;
    }
    proof {
        assert(r@ =~= spec_escaped(name@));
    }
    r
}

/// Appends one `(uuid, encrypted name)` record to an encoded filename
/// index; an index that does not parse is refused.
pub fn append_filename_index(index: &Vec<u8>, uuid: &Vec<u8>, encrypted_name: &EncryptedBox) -> (r:
    Option<Vec<u8>>)
    ensures
        match spec_parse_index(index@) {
            Some(fs) => r matches Some(out) && out@ == spec_enc_index(
                fs.push(FileNameBoxView { uuid: uuid@, encrypted_name: encrypted_name@ }),
            ),
            None => r is None,
        },
{
    let mut records = match decode_index(index) {
        Some(records) => records,
        None => {
            return None;
        },
    };
    let ghost before = records@;
    records.push(
        FileNameBox { uuid: clone_bytes(uuid), encrypted_name: encrypted_name.clone() },
    );
    let out = encode_index(&records);
    proof {
        let g = |f: FileNameBox| f@;
        assert(records@.map_values(g) =~= before.map_values(g).push(
            FileNameBoxView { uuid: uuid@, encrypted_name: encrypted_name@ },
        ));
    }
    Some(out)
}

/// Builds the download reply from the two blobs stored for a file:
/// the encoded body envelope and the encoded wrapped-key envelope.
pub fn build_file_response(data_blob: &Vec<u8>, key_blob: &Vec<u8>) -> (r: Option<Vec<u8>>)
    ensures
        match (spec_parse_box_msg(data_blob@), spec_parse_box_msg(key_blob@)) {
            (Some(f), Some(k)) => r matches Some(out) && out@ == spec_enc_file_response(f, k),
            _ => r is None,
        },
{
    let file = match decode_box_msg(data_blob) {
        Some(file) => file,
        None => {
            return None;
        },
    };
    let key = match decode_box_msg(key_blob) {
        Some(key) => key,
        None => {
            return None;
        },
    };
    Some(encode_file_response(&file, &key))
}

/// Relies on uuid's `Uuid::new_v4` with its hyphenated lowercase text
/// form: 36 ASCII characters, each a hexadecimal digit or a dash.
#[verifier::external_body]
fn uuid_v4() -> (r: Vec<u8>)
    ensures
        r@.len() == 36,
        forall|i: int|
            0 <= i < r@.len() ==> r@[i] == 45 || (48 <= r@[i] <= 57) || (97 <= r@[i] <= 102),
{
    uuid::Uuid::new_v4().to_string().into_bytes()
}

/// A fresh random identifier for a stored file.
pub fn fresh_uuid() -> (r: Vec<u8>)
    ensures
        r@.len() == 36,
        forall|i: int|
            0 <= i < r@.len() ==> r@[i] == 45 || (48 <= r@[i] <= 57) || (97 <= r@[i] <= 102),
{
    uuid_v4()
}

/// The encoded empty filename index a fresh company starts with.
pub fn empty_index() -> (r: Vec<u8>)
    ensures
        r@ == spec_enc_index(Seq::<FileNameBoxView>::empty()),
{
    let records: Vec<FileNameBox> = Vec::new();
    let r = encode_index(&records);
    proof {
        assert(records@.map_values(|f: FileNameBox| f@) =~= Seq::<FileNameBoxView>::empty());
    }
    r
}

} // verus!
