//! Unpadded url-safe base64: the segment encoding of the session token.
//! Encoding and parsing are both executable and proved inverse to each
//! other, so a token survives the trip through its own wire format.

use vstd::prelude::*;

verus! {

/// The alphabet byte for a six-bit value.
pub open spec fn b64_char(x: u8) -> u8 {
    if x < 26 {
        (65 + x) as u8
    } else if x < 52 {
        (97 + (x - 26)) as u8
    } else if x < 62 {
        (48 + (x - 52)) as u8
    } else if x == 62 {
        45u8
    } else {
        95u8
    }
}

/// The six-bit value of an alphabet byte, or `None` outside the
/// alphabet. The separator dot is outside it.
pub open spec fn b64_inv(c: u8) -> Option<u8> {
    if 65 <= c && c <= 90 {
        Some((c - 65) as u8)
    } else if 97 <= c && c <= 122 {
        Some(((c - 97) + 26) as u8)
    } else if 48 <= c && c <= 57 {
        Some(((c - 48) + 52) as u8)
    } else if c == 45 {
        Some(62u8)
    } else if c == 95 {
        Some(63u8)
    } else {
        None
    }
}

pub open spec fn enc_group3(x: u8, y: u8, z: u8) -> Seq<u8> {
    seq![
        b64_char(x >> 2),
        b64_char(((x & 3) << 4) | (y >> 4)),
        b64_char(((y & 15) << 2) | (z >> 6)),
        b64_char(z & 63),
    ]
}

/// Unpadded base64url of a byte string: groups of three bytes become
/// four alphabet bytes; a trailing byte becomes two, two bytes three.
pub open spec fn b64(b: Seq<u8>) -> Seq<u8>
    decreases b.len(),
{
    if b.len() == 0 {
        Seq::empty()
    } else if b.len() == 1 {
        seq![b64_char(b[0] >> 2), b64_char((b[0] & 3) << 4)]
    } else if b.len() == 2 {
        seq![
            b64_char(b[0] >> 2),
            b64_char(((b[0] & 3) << 4) | (b[1] >> 4)),
            b64_char((b[1] & 15) << 2),
        ]
    } else {
        enc_group3(b[0], b[1], b[2]) + b64(b.skip(3))
    }
}

pub open spec fn dec_group(s0: u8, s1: u8, s2: u8, s3: u8) -> Seq<u8> {
    seq![(s0 << 2) | (s1 >> 4), ((s1 & 15) << 4) | (s2 >> 2), ((s2 & 3) << 6) | s3]
}

/// Structural parse of a base64url string. Slack bits are not checked
/// here; callers compare against a re-encoding, so only canonical
/// strings are ever accepted.
pub open spec fn b64_parse(s: Seq<u8>) -> Option<Seq<u8>>
    decreases s.len(),
{
    if s.len() == 0 {
        Some(Seq::empty())
    } else if s.len() == 1 {
        None
    } else if s.len() == 2 {
        match (b64_inv(s[0]), b64_inv(s[1])) {
            (Some(a), Some(b)) => Some(seq![(a << 2) | (b >> 4)]),
            _ => None,
        }
    } else if s.len() == 3 {
        match (b64_inv(s[0]), b64_inv(s[1]), b64_inv(s[2])) {
            (Some(a), Some(b), Some(c)) => Some(
                seq![(a << 2) | (b >> 4), ((b & 15) << 4) | (c >> 2)],
            ),
            _ => None,
        }
    } else {
        match (b64_inv(s[0]), b64_inv(s[1]), b64_inv(s[2]), b64_inv(s[3])) {
            (Some(a), Some(b), Some(c), Some(d)) => match b64_parse(s.skip(4)) {
                Some(rest) => Some(dec_group(a, b, c, d) + rest),
                None => None,
            },
            _ => None,
        }
    }
}

/// Every alphabet byte decodes back to its six-bit value, is ASCII,
/// and is not the separator dot.
pub proof fn lemma_b64_char_props(x: u8)
    requires
        x < 64,
    ensures
        b64_inv(b64_char(x)) == Some(x),
        b64_char(x) != 46,
        b64_char(x) < 128,
{
}

/// The bit identities behind one encoded group: the four sextets are
/// in range and recombine to the original three bytes.
pub proof fn lemma_bits3(x: u8, y: u8, z: u8)
    ensures
        x >> 2 < 64,
        ((x & 3) << 4) | (y >> 4) < 64,
        ((y & 15) << 2) | (z >> 6) < 64,
        z & 63 < 64,
        ((x >> 2) << 2) | ((((x & 3) << 4) | (y >> 4)) >> 4) == x,
        (((((x & 3) << 4) | (y >> 4)) & 15) << 4) | ((((y & 15) << 2) | (z >> 6)) >> 2) == y,
        (((((y & 15) << 2) | (z >> 6)) & 3) << 6) | (z & 63) == z,
{
    assert(x >> 2 < 64 && ((x & 3) << 4) | (y >> 4) < 64 && ((y & 15) << 2) | (z >> 6) < 64
        && z & 63 < 64) by (bit_vector);
    assert(((x >> 2) << 2) | ((((x & 3) << 4) | (y >> 4)) >> 4) == x) by (bit_vector);
    assert((((((x & 3) << 4) | (y >> 4)) & 15) << 4) | ((((y & 15) << 2) | (z >> 6)) >> 2) == y)
        by (bit_vector);
    assert((((((y & 15) << 2) | (z >> 6)) & 3) << 6) | (z & 63) == z) by (bit_vector);
}

/// The tail identities: one and two trailing bytes also recombine.
pub proof fn lemma_bits_tail(x: u8, y: u8)
    ensures
        x >> 2 < 64,
        (x & 3) << 4 < 64,
        (y & 15) << 2 < 64,
        ((x >> 2) << 2) | (((x & 3) << 4) >> 4) == x,
        (((((x & 3) << 4) | (y >> 4)) & 15) << 4) | (((y & 15) << 2) >> 2) == y,
{
    assert(x >> 2 < 64 && (x & 3) << 4 < 64 && (y & 15) << 2 < 64) by (bit_vector);
    assert(((x >> 2) << 2) | (((x & 3) << 4) >> 4) == x) by (bit_vector);
    assert((((((x & 3) << 4) | (y >> 4)) & 15) << 4) | (((y & 15) << 2) >> 2) == y)
        by (bit_vector);
}

/// Every byte of an encoding lies in the alphabet: in particular it is
/// ASCII and is not a dot.
pub proof fn lemma_b64_alphabet(b: Seq<u8>)
    ensures
        forall|i: int| 0 <= i < b64(b).len() ==> {
            let c = #[trigger] b64(b)[i];
            b64_inv(c) is Some && c != 46 && c < 128
        },
    decreases b.len(),
{
    let s = b64(b);
    if b.len() == 0 {
    } else if b.len() == 1 {
        lemma_bits_tail(b[0], 0);
        lemma_b64_char_props(b[0] >> 2);
        lemma_b64_char_props((b[0] & 3) << 4);
    } else if b.len() == 2 {
        lemma_bits3(b[0], b[1], 0);
        lemma_bits_tail(b[0], b[1]);
        lemma_b64_char_props(b[0] >> 2);
        lemma_b64_char_props(((b[0] & 3) << 4) | (b[1] >> 4));
        lemma_b64_char_props((b[1] & 15) << 2);
    } else {
        lemma_bits3(b[0], b[1], b[2]);
        lemma_b64_char_props(b[0] >> 2);
        lemma_b64_char_props(((b[0] & 3) << 4) | (b[1] >> 4));
        lemma_b64_char_props(((b[1] & 15) << 2) | (b[2] >> 6));
        lemma_b64_char_props(b[2] & 63);
        lemma_b64_alphabet(b.skip(3));
        let g = enc_group3(b[0], b[1], b[2]);
        let rest = b64(b.skip(3));
        assert(s =~= g + rest);
        assert(forall|i: int| 0 <= i < s.len() ==> {
            let c = #[trigger] s[i];
            b64_inv(c) is Some && c != 46 && c < 128
        }) by {
            assert(forall|i: int| 4 <= i < s.len() ==> #[trigger] s[i] == rest[i - 4]);
            assert(b64_inv(s[0]) is Some && s[0] != 46 && s[0] < 128);
            assert(b64_inv(s[1]) is Some && s[1] != 46 && s[1] < 128);
            assert(b64_inv(s[2]) is Some && s[2] != 46 && s[2] < 128);
            assert(b64_inv(s[3]) is Some && s[3] != 46 && s[3] < 128);
        }
    }
}

/// Parsing inverts encoding.
#[verifier::rlimit(60)]
pub proof fn lemma_b64_parse_b64(b: Seq<u8>)
    ensures
        b64_parse(b64(b)) == Some(b),
    decreases b.len(),
{
    let s = b64(b);
    if b.len() == 0 {
        assert(b64_parse(s) == Some(Seq::<u8>::empty()));
        assert(Seq::<u8>::empty() =~= b);
    } else if b.len() == 1 {
        let x = b[0];
        lemma_bits_tail(x, 0);
        lemma_b64_char_props(x >> 2);
        lemma_b64_char_props((x & 3) << 4);
        assert(b64_parse(s) == Some(seq![((x >> 2) << 2) | (((x & 3) << 4) >> 4)]));
        assert(seq![((x >> 2) << 2) | (((x & 3) << 4) >> 4)] =~= b);
    } else if b.len() == 2 {
        let x = b[0];
        let y = b[1];
        lemma_bits3(x, y, 0);
        lemma_bits_tail(x, y);
        lemma_b64_char_props(x >> 2);
        lemma_b64_char_props(((x & 3) << 4) | (y >> 4));
        lemma_b64_char_props((y & 15) << 2);
        let r0 = ((x >> 2) << 2) | ((((x & 3) << 4) | (y >> 4)) >> 4);
        let r1 = (((((x & 3) << 4) | (y >> 4)) & 15) << 4) | ((((y & 15) << 2)) >> 2);
        assert(b64_parse(s) == Some(seq![r0, r1]));
        assert(seq![r0, r1] =~= b);
    } else {
        let x = b[0];
        let y = b[1];
        let z = b[2];
        lemma_bits3(x, y, z);
        lemma_b64_char_props(x >> 2);
        lemma_b64_char_props(((x & 3) << 4) | (y >> 4));
        lemma_b64_char_props(((y & 15) << 2) | (z >> 6));
        lemma_b64_char_props(z & 63);
        lemma_b64_parse_b64(b.skip(3));
        let g = enc_group3(x, y, z);
        let rest = b64(b.skip(3));
        assert(s =~= g + rest);
        assert(s.len() >= 4);
        assert(s[0] == g[0] && s[1] == g[1] && s[2] == g[2] && s[3] == g[3]);
        assert(s.skip(4) =~= rest);
        let a0 = x >> 2;
        let a1 = ((x & 3) << 4) | (y >> 4);
        let a2 = ((y & 15) << 2) | (z >> 6);
        let a3 = z & 63;
        assert(b64_inv(s[0]) == Some(a0));
        assert(b64_inv(s[1]) == Some(a1));
        assert(b64_inv(s[2]) == Some(a2));
        assert(b64_inv(s[3]) == Some(a3));
        assert(b64_parse(s.skip(4)) == Some(b.skip(3)));
        assert(b64_parse(s) == Some(dec_group(a0, a1, a2, a3) + b.skip(3)));
        assert(dec_group(a0, a1, a2, a3) =~= seq![x, y, z]);
        assert(dec_group(a0, a1, a2, a3) + b.skip(3) =~= b);
    }
}

fn b64_char_x(x: u8) -> (r: u8)
    requires
        x < 64,
    ensures
        r == b64_char(x),
{
    if x < 26 {
        65 + x
    } else if x < 52 {
        97 + (x - 26)
    } else if x < 62 {
        48 + (x - 52)
    } else if x == 62 {
        45
    } else {
        95
    }
}

fn b64_inv_x(c: u8) -> (r: Option<u8>)
    ensures
        r == b64_inv(c),
{
    if 65 <= c && c <= 90 {
        Some(c - 65)
    } else if 97 <= c && c <= 122 {
        Some((c - 97) + 26)
    } else if 48 <= c && c <= 57 {
        Some((c - 48) + 52)
    } else if c == 45 {
        Some(62)
    } else if c == 95 {
        Some(95 - 32)
    } else {
        None
    }
}

/// Encode a byte string.
pub fn b64_encode(v: &Vec<u8>) -> (r: Vec<u8>)
    ensures
        r@ == b64(v@),
{
    let mut out: Vec<u8> = Vec::new();
    let mut i: usize = 0;
    let n = v.len();
    proof {
        assert(v@.skip(0) =~= v@);
        assert(b64(v@) =~= out@ + b64(v@.skip(0)));
    }
    while n - i >= 3
        invariant
            i <= n == v@.len(),
            b64(v@) =~= out@ + b64(v@.skip(i as int)),
        decreases n - i,
    {
        let x = v[i];
        let y = v[i + 1];
        let z = v[i + 2];
        proof {
            lemma_bits3(x, y, z);
            let rem = v@.skip(i as int);
            assert(rem.len() >= 3);
            assert(rem[0] == x && rem[1] == y && rem[2] == z);
            assert(b64(rem) =~= enc_group3(x, y, z) + b64(rem.skip(3)));
            assert(rem.skip(3) =~= v@.skip(i + 3));
        }
        let ghost old_out = out@;
        out.push(b64_char_x(x >> 2));
        out.push(b64_char_x(((x & 3) << 4) | (y >> 4)));
        out.push(b64_char_x(((y & 15) << 2) | (z >> 6)));
        out.push(b64_char_x(z & 63));
        proof {
            assert(out@ =~= old_out + enc_group3(x, y, z));
            assert(b64(v@) =~= out@ + b64(v@.skip(i + 3)));
        }
        i += 3;
    }
    let ghost rem = v@.skip(i as int);
    if n - i == 1 {
        let x = v[i];
        proof {
            lemma_bits_tail(x, 0);
            assert(rem.len() == 1);
            assert(rem[0] == x);
        }
        let ghost old_out = out@;
        out.push(b64_char_x(x >> 2));
        out.push(b64_char_x((x & 3) << 4));
        proof {
            assert(out@ =~= old_out + b64(rem));
            assert(b64(v@) =~= out@);
        }
    } else if n - i == 2 {
        let x = v[i];
        let y = v[i + 1];
        proof {
            lemma_bits3(x, y, 0);
            lemma_bits_tail(x, y);
            assert(rem.len() == 2);
            assert(rem[0] == x && rem[1] == y);
        }
        let ghost old_out = out@;
        out.push(b64_char_x(x >> 2));
        out.push(b64_char_x(((x & 3) << 4) | (y >> 4)));
        out.push(b64_char_x((y & 15) << 2));
        proof {
            assert(out@ =~= old_out + b64(rem));
            assert(b64(v@) =~= out@);
        }
    } else {
        proof {
            assert(i == n);
            assert(rem.len() == 0);
            assert(b64(v@) =~= out@);
        }
    }
    out
}

/// Parse the bytes `v[start..end]` as base64url.
pub fn b64_decode(v: &Vec<u8>, start: usize, end: usize) -> (r: Option<Vec<u8>>)
    requires
        start <= end <= v@.len(),
    ensures
        match r {
            Some(out) => b64_parse(v@.subrange(start as int, end as int)) == Some(out@),
            None => b64_parse(v@.subrange(start as int, end as int)) is None,
        },
{
    let ghost s = v@.subrange(start as int, end as int);
    let mut out: Vec<u8> = Vec::new();
    let mut i: usize = start;
    proof {
        assert(s.skip(0) =~= s);
        assert(forall|t: Seq<u8>| #[trigger] (out@ + t) =~= t);
    }
    while end - i >= 4
        invariant
            start <= i <= end <= v@.len(),
            s == v@.subrange(start as int, end as int),
            forall|t: Seq<u8>|
                b64_parse(s.skip(i - start)) == Some(t) ==> b64_parse(s) == Some(out@ + t),
            b64_parse(s.skip(i - start)) is None ==> b64_parse(s) is None,
        decreases end - i,
    {
        let ghost rem = s.skip(i - start);
        proof {
            assert(rem.len() == end - i);
            assert(rem[0] == v@[i as int]);
            assert(rem[1] == v@[i + 1]);
            assert(rem[2] == v@[i + 2]);
            assert(rem[3] == v@[i + 3]);
            assert(rem.skip(4) =~= s.skip(i - start + 4));
        }
        let i0 = b64_inv_x(v[i]);
        let i1 = b64_inv_x(v[i + 1]);
        let i2 = b64_inv_x(v[i + 2]);
        let i3 = b64_inv_x(v[i + 3]);
        match (i0, i1, i2, i3) {
            (Some(a), Some(b), Some(c), Some(d)) => {
                let ghost old_out = out@;
                out.push((a << 2) | (b >> 4));
                out.push(((b & 15) << 4) | (c >> 2));
                out.push(((c & 3) << 6) | d);
                proof {
                    assert(out@ =~= old_out + dec_group(a, b, c, d));
                    assert(forall|t: Seq<u8>|
                        b64_parse(s.skip(i - start + 4)) == Some(t) ==> b64_parse(rem)
                            == Some(dec_group(a, b, c, d) + t));
                    assert(forall|t: Seq<u8>|
                        b64_parse(s.skip(i - start + 4)) == Some(t) ==> b64_parse(s)
                            == Some(out@ + t)) by {
                        assert(forall|t: Seq<u8>|
                            old_out + (dec_group(a, b, c, d) + t) =~= (old_out + dec_group(
                                a,
                                b,
                                c,
                                d,
                            )) + t);
                    }
                }
                i += 4;
            },
            _ => {
                proof {
                    assert(b64_parse(rem) is None);
                }
                return None;
            },
        }
    }
    let ghost rem = s.skip(i - start);
    proof {
        assert(rem.len() == end - i < 4);
    }
    if i == end {
        proof {
            assert(rem.len() == 0);
            assert(b64_parse(rem) == Some(Seq::<u8>::empty()));
            assert(out@ + Seq::<u8>::empty() =~= out@);
        }
        Some(out)
    } else if end - i == 1 {
        proof {
            assert(b64_parse(rem) is None);
        }
        None
    } else if end - i == 2 {
        proof {
            assert(rem[0] == v@[i as int] && rem[1] == v@[i + 1]);
        }
        match (b64_inv_x(v[i]), b64_inv_x(v[i + 1])) {
            (Some(a), Some(b)) => {
                let ghost old_out = out@;
                out.push((a << 2) | (b >> 4));
                proof {
                    assert(b64_parse(rem) == Some(seq![(a << 2) | (b >> 4)]));
                    assert(out@ =~= old_out + seq![(a << 2) | (b >> 4)]);
                }
                Some(out)
            },
            _ => {
                proof {
                    assert(b64_parse(rem) is None);
                }
                None
            },
        }
    } else {
        proof {
            assert(end - i == 3);
            assert(rem[0] == v@[i as int] && rem[1] == v@[i + 1] && rem[2] == v@[i + 2]);
        }
        match (b64_inv_x(v[i]), b64_inv_x(v[i + 1]), b64_inv_x(v[i + 2])) {
            (Some(a), Some(b), Some(c)) => {
                let ghost old_out = out@;
                out.push((a << 2) | (b >> 4));
                out.push(((b & 15) << 4) | (c >> 2));
                proof {
                    assert(b64_parse(rem) == Some(
                        seq![(a << 2) | (b >> 4), ((b & 15) << 4) | (c >> 2)],
                    ));
                    assert(out@ =~= old_out + seq![(a << 2) | (b >> 4), ((b & 15) << 4) | (c >> 2)]);
                }
                Some(out)
            },
            _ => {
                proof {
                    assert(b64_parse(rem) is None);
                }
                None
            },
        }
    }
}

} // verus!
