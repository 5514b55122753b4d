//! The password verifier: a stored credential is either a bcrypt hash,
//! recognised by its `$2` prefix, or a legacy plaintext password; the
//! first is checked through bcrypt, the second by direct equality. The
//! dual mode lets a plaintext store migrate row by row to hashes.

use vstd::prelude::*;
use vstd::slice::slice_index_get;
use vstd::utf8::{encode_utf8, encode_utf8_decode_utf8};

verus! {

/// The verdict of bcrypt's verify on a plaintext and a stored hash:
/// whether they match, or nothing for a malformed hash. A pure function
/// of its two arguments.
pub uninterp spec fn bcrypt_verdict(password: Seq<char>, hash: Seq<char>) -> Option<bool>;

/// Relies on bcrypt::verify: it reads the cost and salt out of `hash`,
/// re-derives the bcrypt digest of `password` with them, and compares
/// in constant time — a deterministic function of the two arguments,
/// erring exactly on a hash it cannot parse.
#[verifier::external_body]
fn bcrypt_check(password: &str, hash: &str) -> (r: Option<bool>)
    ensures
        r == bcrypt_verdict(password@, hash@),
{
    bcrypt::verify(password, hash).ok()
}

/// Relies on bcrypt::hash: it draws a fresh random salt, so no result
/// value is pinned; what the source does promise is that the rendering
/// is modular-crypt form, beginning with the bytes `$2`, and that
/// verify re-derives the same digest from the password it was given.
#[verifier::external_body]
fn bcrypt_hash(password: &str) -> (r: Option<String>)
    ensures
        r matches Some(h) ==> credential_is_hashed(h@) && bcrypt_verdict(password@, h@) == Some(
            true,
        ),
{
    bcrypt::hash(password, bcrypt::DEFAULT_COST).ok()
}

/// A stored credential counts as hashed when its encoding starts with
/// the bytes `$2`, the signature of every bcrypt rendering.
pub open spec fn credential_is_hashed(stored: Seq<char>) -> bool {
    let b = encode_utf8(stored);
    b.len() >= 2 && b[0] == 36 && b[1] == 50
}

/// Whether a supplied plaintext matches a stored credential: through
/// bcrypt when the credential is hashed, by equality when it is legacy
/// plaintext.
pub open spec fn spec_password_matches(stored: Seq<char>, password: Seq<char>) -> bool {
    if credential_is_hashed(stored) {
        bcrypt_verdict(password, stored) == Some(true)
    } else {
        stored == password
    }
}

/// String equality through the byte encodings.
pub(crate) fn str_eq(a: &str, b: &str) -> (r: bool)
    ensures
        r == (a@ == b@),
{
    let ab = a.as_bytes();
    let bb = b.as_bytes();
    if ab.len() != bb.len() {
        proof {
            assert(a@ != b@);
        }
        return false;
    }
    let n = ab.len();
    let mut i: usize = 0;
    while i < n
        invariant
            i <= n == ab@.len() == bb@.len(),
            ab@ == encode_utf8(a@),
            bb@ == encode_utf8(b@),
            forall|j: int| 0 <= j < i ==> ab@[j] == bb@[j],
        decreases n - i,
    {
        if *slice_index_get(ab, i) != *slice_index_get(bb, i) {
            proof {
                assert(encode_utf8(a@) != encode_utf8(b@));
            }
            return false;
        }
        i += 1;
    }
    proof {
        assert(ab@ =~= bb@);
        encode_utf8_decode_utf8(a@);
        encode_utf8_decode_utf8(b@);
    }
    true
}

/// Decide whether `password` matches the stored credential.
pub fn verify_password(stored: &str, password: &str) -> (r: bool)
    ensures
        r == spec_password_matches(stored@, password@),
{
    let sb = stored.as_bytes();
    let hashed = sb.len() >= 2 && *slice_index_get(sb, 0) == 36 && *slice_index_get(sb, 1) == 50;
    proof {
        assert(hashed == credential_is_hashed(stored@));
    }
    if hashed {
        match bcrypt_check(password, stored) {
            Some(m) => m,
            None => false,
        }
    } else {
        str_eq(stored, password)
    }
}

/// Hash a plaintext password for storage. The result, when hashing
/// succeeds, is in the hashed format the verifier recognises, and
/// verifies against the password it was derived from.
pub fn hash_password(password: &str) -> (r: Result<String, String>)
    ensures
        r matches Ok(h) ==> credential_is_hashed(h@) && bcrypt_verdict(password@, h@) == Some(
            true,
        ),
{
    match bcrypt_hash(password) {
        Some(h) => Ok(h),
        None => Err("password hashing failed".to_owned()),
    }
}

} // verus!
