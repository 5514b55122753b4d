//! The session token: a three-segment signed string, `b64(header) '.'
//! b64(payload) '.' signature`, where the payload carries the claims as
//! `sub '.' exp '.' iat '.' username` and the signature is the
//! HMAC-SHA256 tag of the first two segments. Issuing and verifying are
//! executable; parsing is proved to invert issuing, an expired token is
//! proved rejected, and a token whose signature segment is altered in
//! any byte is proved rejected.
//!
//! The shape is that of a compact JWT — three base64url segments, the
//! standard header, an HMAC-SHA256 signature — but the payload is this
//! crate's own dotted-decimal rendering rather than JSON claims, so
//! that the whole grammar is executable and verified here. Tokens are
//! therefore not interchangeable with JSON-claim JWTs.

use vstd::prelude::*;
use crate::base64url::{b64, b64_inv, b64_parse, b64_encode, b64_decode, lemma_b64_alphabet,
    lemma_b64_parse_b64};
use crate::bytes::{find_dot, find_dot_from, lemma_find_dot_at, lemma_find_dot_none,
    lemma_find_dot_props, vec_range, bytes_eq, push_all};
use crate::numerals::{dec_digits, dec_i32, spec_parse_u64, spec_parse_i32, u64_to_dec, i32_to_dec,
    parse_u64, parse_i32, lemma_parse_u64_dec, lemma_parse_i32_dec, lemma_dec_digits_no_dot,
    lemma_dec_i32_no_dot};
use crate::crypto::{hs256_tag_b64, sign_hs256, string_from_utf8};
use crate::models::Claims;
use vstd::utf8::{encode_utf8, valid_utf8};

verus! {

/// The fixed token header: the JSON text naming the signature scheme,
/// `{"alg":"HS256","typ":"JWT"}`.
pub open spec fn header_json() -> Seq<u8> {
    seq![
        123u8, 34, 97, 108, 103, 34, 58, 34, 72, 83, 50, 53, 54, 34, 44, 34, 116, 121, 112, 34,
        58, 34, 74, 87, 84, 34, 125,
    ]
}

/// The dotted claims payload: subject, expiry and issue instants in
/// decimal, then the username bytes, which may themselves hold dots.
pub open spec fn payload_bytes(sub: i32, uname: Seq<u8>, exp: u64, iat: u64) -> Seq<u8> {
    dec_i32(sub as int) + seq![46u8] + dec_digits(exp as nat) + seq![46u8] + dec_digits(
        iat as nat,
    ) + seq![46u8] + uname
}

/// The bytes the signature covers: the first two token segments.
pub open spec fn signing_input(sub: i32, uname: Seq<u8>, exp: u64, iat: u64) -> Seq<u8> {
    b64(header_json()) + seq![46u8] + b64(payload_bytes(sub, uname, exp, iat))
}

pub open spec fn b64_seq(s: Seq<u8>) -> bool {
    forall|i: int| 0 <= i < s.len() ==> b64_inv(#[trigger] s[i]) is Some
}

/// The signature segment for a message. The signer's contract confines
/// its output to the base64url alphabet; any other mathematical value
/// of the tag could never be returned, and is normalised to the empty
/// segment so the token's shape is defined for every value.
pub open spec fn sig_segment(msg: Seq<u8>, key: Seq<u8>) -> Seq<u8> {
    let t = hs256_tag_b64(msg, key);
    if b64_seq(t) {
        t
    } else {
        Seq::empty()
    }
}

/// The complete token for one set of claims under one key.
pub open spec fn spec_token(sub: i32, uname: Seq<u8>, exp: u64, iat: u64, key: Seq<u8>) -> Seq<
    u8,
> {
    signing_input(sub, uname, exp, iat) + seq![46u8] + sig_segment(
        signing_input(sub, uname, exp, iat),
        key,
    )
}

/// Structural parse of a decoded payload into (sub, username bytes,
/// exp, iat).
pub open spec fn spec_parse_payload(p: Seq<u8>) -> Option<(i32, Seq<u8>, u64, u64)> {
    match find_dot(p) {
        Some(i) => match spec_parse_i32(p.take(i)) {
            Some(sub) => {
                let r1 = p.skip(i + 1);
                match find_dot(r1) {
                    Some(j) => match spec_parse_u64(r1.take(j)) {
                        Some(exp) => {
                            let r2 = r1.skip(j + 1);
                            match find_dot(r2) {
                                Some(k) => match spec_parse_u64(r2.take(k)) {
                                    Some(iat) => Some((sub, r2.skip(k + 1), exp, iat)),
                                    None => None,
                                },
                                None => None,
                            }
                        },
                        None => None,
                    },
                    None => None,
                }
            },
            None => None,
        },
        None => None,
    }
}

/// What verification accepts at instant `now`: exactly three segments,
/// the fixed header, a canonically encoded payload whose username bytes
/// are valid UTF-8, the signature of the first two segments, and an
/// expiry still in the future.
pub open spec fn spec_verify(t: Seq<u8>, key: Seq<u8>, now: u64) -> Option<(i32, Seq<u8>, u64, u64)> {
    match find_dot(t) {
        Some(i) => {
            let rest = t.skip(i + 1);
            match find_dot(rest) {
                Some(j) => {
                    let seg1 = t.take(i);
                    let seg2 = rest.take(j);
                    let seg3 = rest.skip(j + 1);
                    if find_dot(seg3) is None && seg1 == b64(header_json()) {
                        match b64_parse(seg2) {
                            Some(p) => match spec_parse_payload(p) {
                                Some(c) => if p == payload_bytes(c.0, c.1, c.2, c.3) && seg2
                                    == b64(p) && valid_utf8(c.1) && seg3 == sig_segment(
                                    seg1 + seq![46u8] + seg2,
                                    key,
                                ) && now < c.2 {
                                    Some(c)
                                } else {
                                    None
                                },
                                None => None,
                            },
                            None => None,
                        }
                    } else {
                        None
                    }
                },
                None => None,
            }
        },
        None => None,
    }
}

/// Where the signature segment of a well-formed token starts.
pub open spec fn sig_start(t: Seq<u8>) -> int {
    match find_dot(t) {
        Some(i) => match find_dot(t.skip(i + 1)) {
            Some(j) => i + 1 + j + 1,
            None => t.len() as int,
        },
        None => t.len() as int,
    }
}

fn header_vec() -> (r: Vec<u8>)
    ensures
        r@ == header_json(),
{
    let r: Vec<u8> = vec![
        123u8, 34, 97, 108, 103, 34, 58, 34, 72, 83, 50, 53, 54, 34, 44, 34, 116, 121, 112, 34,
        58, 34, 74, 87, 84, 34, 125,
    ];
    proof {
        assert(r@ =~= header_json());
    }
    r
}

/// Render the payload for one set of claims.
pub fn build_payload(sub: i32, uname: &Vec<u8>, exp: u64, iat: u64) -> (r: Vec<u8>)
    ensures
        r@ == payload_bytes(sub, uname@, exp, iat),
{
    let mut out = i32_to_dec(sub);
    out.push(46);
    let e = u64_to_dec(exp);
    push_all(&mut out, &e);
    out.push(46);
    let a = u64_to_dec(iat);
    push_all(&mut out, &a);
    out.push(46);
    push_all(&mut out, uname);
    proof {
        assert(out@ =~= payload_bytes(sub, uname@, exp, iat));
    }
    out
}

/// Assemble and sign the token for one set of claims. The signature
/// segment is the 43-byte tag rendering, so all three segments of the
/// result are nonempty.
pub fn issue_token_bytes(sub: i32, uname: &Vec<u8>, exp: u64, iat: u64, key: &Vec<u8>) -> (r:
    Option<Vec<u8>>)
    ensures
        r is Some,
        r matches Some(t) ==> t@ == spec_token(sub, uname@, exp, iat, key@),
        r matches Some(t) ==> sig_segment(signing_input(sub, uname@, exp, iat), key@).len() == 43,
{
    let hv = header_vec();
    let mut msg = b64_encode(&hv);
    msg.push(46);
    let payload = build_payload(sub, uname, exp, iat);
    let pb = b64_encode(&payload);
    push_all(&mut msg, &pb);
    proof {
        assert(msg@ =~= signing_input(sub, uname@, exp, iat));
    }
    match sign_hs256(&msg, key) {
        Some(sig) => {
            proof {
                assert(sig@ == sig_segment(msg@, key@));
                assert(sig_segment(msg@, key@).len() == 43);
            }
            let mut t = msg;
            t.push(46);
            push_all(&mut t, &sig);
            proof {
                assert(t@ =~= spec_token(sub, uname@, exp, iat, key@));
            }
            Some(t)
        },
        None => None,
    }
}

/// Parse a decoded payload structurally.
fn parse_payload(p: &Vec<u8>) -> (r: Option<(i32, Vec<u8>, u64, u64)>)
    ensures
        match r {
            Some(c) => spec_parse_payload(p@) == Some((c.0, c.1@, c.2, c.3)),
            None => spec_parse_payload(p@) is None,
        },
{
    let n = p.len();
    proof {
        assert(p@.subrange(0, n as int) =~= p@);
    }
    let i = match find_dot_from(p, 0, n) {
        Some(i) => i,
        None => {
            return None;
        },
    };
    proof {
        assert(p@.subrange(0, i as int) =~= p@.take(i as int));
    }
    let sub = match parse_i32(p, 0, i) {
        Some(s) => s,
        None => {
            return None;
        },
    };
    let ghost r1 = p@.skip(i + 1);
    proof {
        assert(p@.subrange(i + 1, n as int) =~= r1);
    }
    let j = match find_dot_from(p, i + 1, n) {
        Some(j) => j,
        None => {
            return None;
        },
    };
    proof {
        assert(p@.subrange(i + 1, j as int) =~= r1.take(j - (i + 1)));
    }
    let exp = match parse_u64(p, i + 1, j) {
        Some(e) => e,
        None => {
            return None;
        },
    };
    let ghost r2 = r1.skip(j - (i + 1) + 1);
    proof {
        assert(p@.subrange(j + 1, n as int) =~= r2);
    }
    let k = match find_dot_from(p, j + 1, n) {
        Some(k) => k,
        None => {
            return None;
        },
    };
    proof {
        assert(p@.subrange(j + 1, k as int) =~= r2.take(k - (j + 1)));
    }
    let iat = match parse_u64(p, j + 1, k) {
        Some(a) => a,
        None => {
            return None;
        },
    };
    let uname = vec_range(p, k + 1, n);
    proof {
        assert(uname@ =~= r2.skip(k - (j + 1) + 1));
    }
    Some((sub, uname, exp, iat))
}

/// Verify a token's shape, signature and expiry, returning its claims.
pub fn verify_token_bytes(v: &Vec<u8>, key: &Vec<u8>, now: u64) -> (r: Option<Claims>)
    ensures
        r matches Some(c) ==> spec_verify(v@, key@, now) == Some(
            (c.sub, encode_utf8(c.username@), c.exp, c.iat),
        ),
        r is None ==> spec_verify(v@, key@, now) is None,
{
    let n = v.len();
    proof {
        assert(v@.subrange(0, n as int) =~= v@);
    }
    let i = match find_dot_from(v, 0, n) {
        Some(i) => i,
        None => {
            return None;
        },
    };
    let ghost rest = v@.skip(i + 1);
    proof {
        assert(v@.subrange(i + 1, n as int) =~= rest);
    }
    let j = match find_dot_from(v, i + 1, n) {
        Some(j) => j,
        None => {
            return None;
        },
    };
    let ghost gseg1 = v@.take(i as int);
    let ghost gseg2 = rest.take(j - (i + 1));
    let ghost gseg3 = rest.skip(j - (i + 1) + 1);
    proof {
        assert(v@.subrange(j + 1, n as int) =~= gseg3);
    }
    match find_dot_from(v, j + 1, n) {
        Some(_) => {
            return None;
        },
        None => {},
    }
    let seg1 = vec_range(v, 0, i);
    proof {
        assert(seg1@ =~= gseg1);
    }
    let hv = header_vec();
    let hb = b64_encode(&hv);
    if !bytes_eq(&seg1, &hb) {
        return None;
    }
    let seg2 = vec_range(v, i + 1, j);
    proof {
        assert(seg2@ =~= gseg2);
        assert(seg2@.subrange(0, seg2@.len() as int) =~= gseg2);
    }
    let p = match b64_decode(&seg2, 0, seg2.len()) {
        Some(p) => p,
        None => {
            return None;
        },
    };
    let c = match parse_payload(&p) {
        Some(c) => c,
        None => {
            return None;
        },
    };
    let rebuilt = build_payload(c.0, &c.1, c.2, c.3);
    if !bytes_eq(&p, &rebuilt) {
        return None;
    }
    let reenc = b64_encode(&p);
    if !bytes_eq(&seg2, &reenc) {
        return None;
    }
    let seg3 = vec_range(v, j + 1, n);
    let mut msg = seg1;
    msg.push(46);
    push_all(&mut msg, &seg2);
    proof {
        lemma_find_dot_props(v@);
        assert(v@[i as int] == 46);
        assert(msg@ =~= gseg1 + seq![46u8] + gseg2);
    }
    let expected = match sign_hs256(&msg, key) {
        Some(s) => s,
        None => {
            return None;
        },
    };
    proof {
        assert(expected@ == sig_segment(msg@, key@));
    }
    if !bytes_eq(&seg3, &expected) {
        return None;
    }
    if !(now < c.2) {
        return None;
    }
    let (sub, uname, exp, iat) = c;
    let ghost guname = uname@;
    match string_from_utf8(uname) {
        Some(username) => Some(Claims { sub, username, exp, iat }),
        None => {
            proof {
                assert(!valid_utf8(guname));
            }
            None
        },
    }
}

/// Parsing a built payload recovers exactly the claims it was built
/// from.
/// One dotted field at the front of a byte string: the first dot sits
/// right after it, taking to the dot yields the field, and skipping
/// past the dot yields the rest.
proof fn lemma_front_field(front: Seq<u8>, rest: Seq<u8>)
    requires
        forall|l: int| 0 <= l < front.len() ==> #[trigger] front[l] != 46,
    ensures
        find_dot(front + seq![46u8] + rest) == Some(front.len() as int),
        (front + seq![46u8] + rest).take(front.len() as int) == front,
        (front + seq![46u8] + rest).skip(front.len() as int + 1) == rest,
{
    let s = front + seq![46u8] + rest;
    assert(s[front.len() as int] == 46);
    assert(forall|l: int| 0 <= l < front.len() ==> s[l] == #[trigger] front[l]);
    lemma_find_dot_at(s, front.len() as int);
    assert(s.take(front.len() as int) =~= front);
    assert(s.skip(front.len() as int + 1) =~= rest);
}

/// Parsing a built payload recovers exactly the claims it was built
/// from.
pub proof fn lemma_parse_payload_built(sub: i32, uname: Seq<u8>, exp: u64, iat: u64)
    ensures
        spec_parse_payload(payload_bytes(sub, uname, exp, iat)) == Some((sub, uname, exp, iat)),
{
    let a = dec_i32(sub as int);
    let b = dec_digits(exp as nat);
    let c = dec_digits(iat as nat);
    let p = payload_bytes(sub, uname, exp, iat);
    let r1 = b + seq![46u8] + (c + seq![46u8] + uname);
    let r2 = c + seq![46u8] + uname;
    lemma_dec_i32_no_dot(sub as int);
    lemma_dec_digits_no_dot(exp as nat);
    lemma_dec_digits_no_dot(iat as nat);
    assert(p =~= a + seq![46u8] + r1);
    lemma_front_field(a, r1);
    lemma_parse_i32_dec(sub);
    lemma_front_field(b, r2);
    lemma_parse_u64_dec(exp);
    lemma_front_field(c, uname);
    lemma_parse_u64_dec(iat);
}

/// Round trip: verifying a freshly issued token before its expiry
/// yields exactly the claims it was issued for.
pub proof fn lemma_round_trip(sub: i32, uname: Seq<u8>, exp: u64, iat: u64, key: Seq<u8>, now: u64)
    requires
        valid_utf8(uname),
        now < exp,
    ensures
        spec_verify(spec_token(sub, uname, exp, iat, key), key, now) == Some(
            (sub, uname, exp, iat),
        ),
{
    let h = b64(header_json());
    let pl = payload_bytes(sub, uname, exp, iat);
    let pb = b64(pl);
    let msg = signing_input(sub, uname, exp, iat);
    let s = sig_segment(msg, key);
    let t = spec_token(sub, uname, exp, iat, key);
    lemma_b64_alphabet(header_json());
    lemma_b64_alphabet(pl);
    assert(b64_inv(46u8) is None);
    assert(forall|l: int| 0 <= l < s.len() ==> #[trigger] s[l] != 46) by {
        if b64_seq(hs256_tag_b64(msg, key)) {
            assert(forall|l: int| 0 <= l < s.len() ==> b64_inv(#[trigger] s[l]) is Some);
        }
    }
    assert(t.len() == h.len() + 1 + pb.len() + 1 + s.len());
    assert(t[h.len() as int] == 46);
    assert(forall|l: int| 0 <= l < h.len() ==> t[l] == #[trigger] h[l]);
    lemma_find_dot_at(t, h.len() as int);
    let rest = t.skip(h.len() as int + 1);
    assert(rest =~= pb + seq![46u8] + s);
    assert(rest[pb.len() as int] == 46);
    assert(forall|l: int| 0 <= l < pb.len() ==> rest[l] == #[trigger] pb[l]);
    lemma_find_dot_at(rest, pb.len() as int);
    let seg1 = t.take(h.len() as int);
    let seg2 = rest.take(pb.len() as int);
    let seg3 = rest.skip(pb.len() as int + 1);
    assert(seg1 =~= h);
    assert(seg2 =~= pb);
    assert(seg3 =~= s);
    lemma_find_dot_none(s);
    lemma_b64_parse_b64(pl);
    lemma_parse_payload_built(sub, uname, exp, iat);
    assert(seg1 + seq![46u8] + seg2 =~= msg);
}

/// Every byte of a token is ASCII, so a token is valid UTF-8 and can
/// travel as a string.
pub proof fn lemma_token_ascii(sub: i32, uname: Seq<u8>, exp: u64, iat: u64, key: Seq<u8>)
    ensures
        valid_utf8(spec_token(sub, uname, exp, iat, key)),
{
    let h = b64(header_json());
    let pb = b64(payload_bytes(sub, uname, exp, iat));
    let msg = signing_input(sub, uname, exp, iat);
    let s = sig_segment(msg, key);
    let t = spec_token(sub, uname, exp, iat, key);
    lemma_b64_alphabet(header_json());
    lemma_b64_alphabet(payload_bytes(sub, uname, exp, iat));
    assert(forall|l: int| 0 <= l < s.len() ==> #[trigger] s[l] < 128) by {
        if b64_seq(hs256_tag_b64(msg, key)) {
            assert(forall|l: int| 0 <= l < s.len() ==> b64_inv(#[trigger] s[l]) is Some);
        }
    }
    assert(t.len() == h.len() + 1 + pb.len() + 1 + s.len());
    assert(forall|l: int|
        0 <= l < t.len() ==> vstd::utf8::is_leading_byte_width_1(#[trigger] t[l])) by {
        assert(forall|l: int| 0 <= l < h.len() ==> t[l] == #[trigger] h[l]);
        assert(t[h.len() as int] == 46);
        assert(forall|l: int|
            0 <= l < pb.len() ==> t[h.len() + 1 + l] == #[trigger] pb[l]);
        assert(t[h.len() as int + 1 + pb.len() as int] == 46);
        assert(forall|l: int|
            0 <= l < s.len() ==> t[h.len() + 1 + pb.len() + 1 + l] == #[trigger] s[l]);
        assert(forall|l: int| 0 <= l < t.len() ==> #[trigger] t[l] < 128) by {
            assert(forall|l: int|
                h.len() + 1 <= l < h.len() + 1 + pb.len() ==> #[trigger] t[l] == pb[l - (h.len()
                    + 1)]);
            assert(forall|l: int|
                h.len() + 1 + pb.len() + 1 <= l < t.len() ==> #[trigger] t[l] == s[l - (h.len() + 1
                    + pb.len() + 1)]);
        }
    }
    assert(t.subrange(0, 0) =~= Seq::<u8>::empty());
    assert(vstd::utf8::partial_valid_utf8(t, 0));
    vstd::utf8::partial_valid_utf8_extend_ascii_block(t, 0, t.len() as int);
    assert(t.subrange(0, t.len() as int) =~= t);
}

/// A token that verification accepts is byte for byte the canonical
/// token of the claims it returns: nothing but the issuer's exact
/// output under the same key is ever accepted.
pub proof fn lemma_accepted_token_is_canonical(t: Seq<u8>, key: Seq<u8>, now: u64)
    requires
        spec_verify(t, key, now) is Some,
    ensures
        ({
            let c = spec_verify(t, key, now)->Some_0;
            t == spec_token(c.0, c.1, c.2, c.3, key)
        }),
{
    let c = spec_verify(t, key, now)->Some_0;
    let i = find_dot(t)->Some_0;
    let rest = t.skip(i + 1);
    let j = find_dot(rest)->Some_0;
    let seg1 = t.take(i);
    let seg2 = rest.take(j);
    let seg3 = rest.skip(j + 1);
    lemma_find_dot_props(t);
    lemma_find_dot_props(rest);
    assert(t[i] == 46);
    assert(rest[j] == 46);
    assert(seg1 == b64(header_json()));
    assert(seg2 == b64(payload_bytes(c.0, c.1, c.2, c.3)));
    assert(seg3 == sig_segment(seg1 + seq![46u8] + seg2, key));
    assert(seg1 + seq![46u8] + seg2 =~= signing_input(c.0, c.1, c.2, c.3));
    assert(t =~= seg1 + seq![46u8] + seg2 + seq![46u8] + seg3) by {
        assert(forall|l: int| 0 <= l < i ==> #[trigger] t[l] == seg1[l]);
        assert(forall|l: int| 0 <= l < j ==> #[trigger] rest[l] == t[i + 1 + l]);
        assert(forall|l: int|
            0 <= l < seg3.len() ==> #[trigger] seg3[l] == t[i + 1 + j + 1 + l]);
    }
    assert(t =~= spec_token(c.0, c.1, c.2, c.3, key));
}

/// A token accepted at instant `now` has its expiry after `now`: once
/// `exp` has passed, verification can never again accept it.
pub proof fn lemma_expired_token_rejected(t: Seq<u8>, key: Seq<u8>, now: u64)
    ensures
        spec_verify(t, key, now) matches Some(c) ==> now < c.2,
{
}

/// Altering any single byte of a valid token's signature segment makes
/// verification reject the token, at every instant.
pub proof fn lemma_tampered_signature_rejected(
    t1: Seq<u8>,
    t2: Seq<u8>,
    key: Seq<u8>,
    now1: u64,
    now2: u64,
    k: int,
)
    requires
        spec_verify(t1, key, now1) is Some,
        t2.len() == t1.len(),
        sig_start(t1) <= k < t1.len(),
        t2[k] != t1[k],
        forall|l: int| 0 <= l < t1.len() && l != k ==> t2[l] == t1[l],
    ensures
        spec_verify(t2, key, now2) is None,
{
    let i = find_dot(t1)->Some_0;
    let rest1 = t1.skip(i + 1);
    let j = find_dot(rest1)->Some_0;
    let seg1 = t1.take(i);
    let seg2 = rest1.take(j);
    let seg3 = rest1.skip(j + 1);
    lemma_find_dot_props(t1);
    lemma_find_dot_props(rest1);
    assert(sig_start(t1) == i + 1 + j + 1);
    assert(t1[i] == 46);
    assert(rest1[j] == 46);
    assert(t1[i + 1 + j] == 46);
    // the dots of t2 sit exactly where those of t1 do, below the
    // signature segment
    assert(t2[i] == 46);
    assert(forall|l: int| 0 <= l < i ==> #[trigger] t2[l] == t1[l] && t1[l] != 46);
    lemma_find_dot_at(t2, i);
    let rest2 = t2.skip(i + 1);
    assert(rest2[j] == 46);
    assert(forall|l: int| 0 <= l < j ==> #[trigger] rest2[l] == rest1[l] && rest1[l] != 46) by {
        assert(forall|l: int| 0 <= l < j ==> #[trigger] rest1[l] == t1[i + 1 + l]);
        assert(forall|l: int| 0 <= l < j ==> #[trigger] rest2[l] == t2[i + 1 + l]);
    }
    lemma_find_dot_at(rest2, j);
    let seg3b = rest2.skip(j + 1);
    assert(seg3b.len() == seg3.len());
    assert(forall|l: int| 0 <= l < seg3.len() && l != k - (i + 1 + j + 1) ==> #[trigger] seg3b[l]
        == seg3[l]) by {
        assert(forall|l: int| 0 <= l < seg3.len() ==> #[trigger] seg3[l] == t1[i + 1 + j + 1 + l]);
        assert(forall|l: int| 0 <= l < seg3b.len() ==> #[trigger] seg3b[l] == t2[i + 1 + j + 1
            + l]);
    }
    let kk = k - (i + 1 + j + 1);
    assert(seg3b[kk] == t2[k] && seg3[kk] == t1[k]);
    assert(seg3b[kk] != seg3[kk]);
    if t2[k] == 46 {
        // an extra dot: the third segment no longer parses as one
        assert(seg3b[kk] == 46);
        lemma_find_dot_props(seg3b);
        assert(find_dot(seg3b) is Some);
    } else {
        let seg1b = t2.take(i);
        let seg2b = rest2.take(j);
        assert(seg1b =~= seg1);
        assert(seg2b =~= seg2) by {
            assert(forall|l: int| 0 <= l < j ==> #[trigger] rest2[l] == rest1[l]);
        }
        // no new dot anywhere in the third segment
        assert(forall|l: int| 0 <= l < seg3b.len() ==> #[trigger] seg3b[l] != 46) by {
            lemma_find_dot_props(seg3);
            assert(find_dot(seg3) is None);
        }
        lemma_find_dot_none(seg3b);
        // same message, different signature segment: the comparison
        // with the one true signature fails
        assert(seg3 == sig_segment(seg1 + seq![46u8] + seg2, key));
        assert(seg3b != sig_segment(seg1b + seq![46u8] + seg2b, key));
    }
}

} // verus!
