//! Input validation rules that the client applies before a password
//! is accepted: length bounds and an estimated-strength floor.

use vstd::prelude::*;

verus! {

/// What the client accepts as a password: 12 to 64 bytes, with a
/// strength score of at least 3.
pub open spec fn spec_password_strong(password: Seq<u8>, score: u8) -> bool {
    &&& 12 <= password.len() <= 64
    &&& score >= 3
}

/// Relies on zxcvbn's `zxcvbn` (with no user inputs): the score is
/// between 0 and 4. Nothing more is promised: the estimator scores
/// year and date patterns against its reference date, so the same
/// password may score differently on machines run in different years.
#[verifier::external_body]
fn password_score(password: &Vec<u8>) -> (r: u8)
    ensures
        r <= 4,
{
    let text = String::from_utf8_lossy(password);
    u8::from(zxcvbn::zxcvbn(&text, &[]).score())
}

/// Applies the acceptance rule to a password and the strength score an
/// estimator assigned to it.
pub fn password_acceptable(password: &Vec<u8>, score: u8) -> (r: bool)
    ensures
        r == spec_password_strong(password@, score),
{
    12 <= password.len() && password.len() <= 64 && score >= 3
}

/// Checks a candidate password: the length bounds always decide as
/// stated, and the strength floor is applied to the score the
/// estimator returned for this run.
pub fn check_password_strength(password: &Vec<u8>) -> (r: bool)
    ensures
        r ==> 12 <= password@.len() <= 64,
        password@.len() < 12 || password@.len() > 64 ==> !r,
{
    if password.len() < 12 || password.len() > 64 {
        return false;
    }
    let score = password_score(password);
    password_acceptable(password, score)
}

} // verus!
