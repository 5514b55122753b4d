//! The signature primitive behind session tokens, and the conversions
//! between byte strings and `String`. Everything here is a thin trusted
//! boundary: the contracts state what the outside code does, and the
//! rest of the crate is proved against them.

use vstd::prelude::*;
use crate::base64url::b64_inv;
use vstd::utf8::{encode_utf8, valid_utf8};

verus! {

/// The base64url-encoded HMAC-SHA256 tag of `message` under `key`,
/// exactly as the signing routine renders it. A pure function of its
/// two arguments.
pub uninterp spec fn hs256_tag_b64(message: Seq<u8>, key: Seq<u8>) -> Seq<u8>;

/// Relies on jsonwebtoken::crypto::sign with Algorithm::HS256 and an
/// EncodingKey built from a raw secret: the result is the unpadded
/// base64url rendering of the 32-byte HMAC-SHA256 tag — 43 bytes, a
/// deterministic function of message and key; every byte of it lies in
/// the base64url alphabet; and for the HMAC family with a secret key
/// signing never fails, since HMAC accepts keys of any length. The
/// contract describes the crate's default rust_crypto provider; the
/// crate lets a host install another provider process-wide before first
/// use, and nothing in this library or its shell does so.
#[verifier::external_body]
pub fn sign_hs256(message: &Vec<u8>, key: &Vec<u8>) -> (r: Option<Vec<u8>>)
    ensures
        r is Some,
        r matches Some(t) ==> t@ == hs256_tag_b64(message@, key@),
        r matches Some(t) ==> t@.len() == 43,
        r matches Some(t) ==> forall|i: int|
            0 <= i < t@.len() ==> b64_inv(#[trigger] t@[i]) is Some,
{
    let secret = jsonwebtoken::EncodingKey::from_secret(key.as_slice());
    jsonwebtoken::crypto::sign(message.as_slice(), &secret, jsonwebtoken::Algorithm::HS256)
        .ok()
        .map(String::into_bytes)
}

/// Relies on String::from_utf8: it succeeds exactly on valid UTF-8 and
/// returns the string whose encoding is the given bytes.
#[verifier::external_body]
pub fn string_from_utf8(b: Vec<u8>) -> (r: Option<String>)
    ensures
        r is Some <==> valid_utf8(b@),
        r matches Some(s) ==> encode_utf8(s@) == b@,
{
    String::from_utf8(b).ok()
}

} // verus!
