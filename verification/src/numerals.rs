//! Decimal rendering and parsing of the integers that appear in token
//! payloads, with proofs that parsing inverts rendering.

use vstd::prelude::*;

verus! {

/// The decimal digits of `n`, most significant first, as ASCII bytes.
pub open spec fn dec_digits(n: nat) -> Seq<u8>
    decreases n,
{
    if n < 10 {
        seq![(48 + n) as u8]
    } else {
        dec_digits(n / 10).push((48 + (n % 10)) as u8)
    }
}

/// The rendering of a signed integer: a minus sign before the digits of
/// the magnitude when negative.
pub open spec fn dec_i32(n: int) -> Seq<u8> {
    if n < 0 {
        seq![45u8] + dec_digits((-n) as nat)
    } else {
        dec_digits(n as nat)
    }
}

pub open spec fn is_digit(b: u8) -> bool {
    48 <= b && b <= 57
}

pub open spec fn all_digits(s: Seq<u8>) -> bool {
    forall|i: int| 0 <= i < s.len() ==> is_digit(#[trigger] s[i])
}

/// Numeric value of a digit string, most significant first.
pub open spec fn dec_val(s: Seq<u8>) -> int
    decreases s.len(),
{
    if s.len() == 0 {
        0
    } else {
        dec_val(s.drop_last()) * 10 + (s.last() - 48)
    }
}

/// What `parse_u64` returns: the value of a nonempty all-digit string
/// when it fits in a `u64`.
pub open spec fn spec_parse_u64(s: Seq<u8>) -> Option<u64> {
    if s.len() >= 1 && all_digits(s) && dec_val(s) <= u64::MAX {
        Some(dec_val(s) as u64)
    } else {
        None
    }
}

/// What `parse_i32` returns: an optional minus sign, then digits, with
/// the value in `i32` range. A lone minus sign is rejected.
pub open spec fn spec_parse_i32(s: Seq<u8>) -> Option<i32> {
    if s.len() >= 1 && s[0] == 45 {
        match spec_parse_u64(s.skip(1)) {
            Some(m) => if 1 <= m && m <= 2147483648 {
                Some((-(m as int)) as i32)
            } else {
                None
            },
            None => None,
        }
    } else {
        match spec_parse_u64(s) {
            Some(m) => if m <= 2147483647 {
                Some(m as i32)
            } else {
                None
            },
            None => None,
        }
    }
}

pub proof fn lemma_dec_digits_wf(n: nat)
    ensures
        dec_digits(n).len() >= 1,
        all_digits(dec_digits(n)),
        dec_val(dec_digits(n)) == n,
    decreases n,
{
    if n < 10 {
        let s = dec_digits(n);
        assert(s =~= seq![(48 + n) as u8]);
        assert(s.len() == 1);
        assert(s.drop_last() =~= Seq::<u8>::empty());
        assert(dec_val(Seq::<u8>::empty()) == 0);
        assert(dec_val(s) == dec_val(s.drop_last()) * 10 + (s.last() - 48));
        assert(s.last() == (48 + n) as u8);
        assert((48 + n) as u8 == 48 + n);
        assert(dec_val(s) == n);
    } else {
        lemma_dec_digits_wf(n / 10);
        let p = dec_digits(n / 10);
        let s = dec_digits(n);
        assert(s.drop_last() =~= p);
        assert(s.last() == (48 + (n % 10)) as u8);
        vstd::arithmetic::div_mod::lemma_fundamental_div_mod(n as int, 10);
        assert(dec_val(s) == (n / 10) * 10 + n % 10);
        assert(forall|i: int| 0 <= i < s.len() ==> is_digit(#[trigger] s[i])) by {
            assert(forall|i: int| 0 <= i < p.len() ==> is_digit(#[trigger] p[i]));
            assert(forall|i: int| 0 <= i < s.len() - 1 ==> s[i] == p[i]);
            assert(is_digit(s[s.len() - 1]));
        }
    }
}

/// Digit strings have nonnegative value.
pub proof fn lemma_dec_val_nonneg(s: Seq<u8>)
    requires
        all_digits(s),
    ensures
        dec_val(s) >= 0,
    decreases s.len(),
{
    if s.len() > 0 {
        assert(all_digits(s.drop_last()));
        lemma_dec_val_nonneg(s.drop_last());
    }
}

/// The value of a prefix of a digit string never exceeds the whole.
pub proof fn lemma_dec_val_prefix_le(s: Seq<u8>, i: int)
    requires
        all_digits(s),
        0 <= i <= s.len(),
    ensures
        dec_val(s.take(i)) <= dec_val(s),
    decreases s.len() - i,
{
    if i == s.len() {
        assert(s.take(i) =~= s);
    } else {
        assert(s.take(i + 1).drop_last() =~= s.take(i));
        assert(s.take(i + 1).last() == s[i]);
        assert(all_digits(s.take(i))) by {
            assert(forall|j: int| 0 <= j < i ==> s.take(i)[j] == #[trigger] s[j]);
        }
        lemma_dec_val_nonneg(s.take(i));
        assert(dec_val(s.take(i + 1)) == dec_val(s.take(i)) * 10 + (s[i] - 48));
        lemma_dec_val_prefix_le(s, i + 1);
    }
}

/// Rendering a `u64` and parsing it back gives the same number.
pub proof fn lemma_parse_u64_dec(n: u64)
    ensures
        spec_parse_u64(dec_digits(n as nat)) == Some(n),
{
    lemma_dec_digits_wf(n as nat);
}

/// Rendering an `i32` and parsing it back gives the same number.
pub proof fn lemma_parse_i32_dec(n: i32)
    ensures
        spec_parse_i32(dec_i32(n as int)) == Some(n),
{
    if n < 0 {
        let m = (-(n as int)) as nat;
        lemma_dec_digits_wf(m);
        let s = dec_i32(n as int);
        assert(s[0] == 45);
        assert(s.skip(1) =~= dec_digits(m));
        assert(1 <= m && m <= 2147483648);
    } else {
        lemma_dec_digits_wf(n as nat);
        let s = dec_i32(n as int);
        assert(s.len() >= 1);
        assert(s[0] != 45) by {
            lemma_dec_digits_wf(n as nat);
            assert(is_digit(s[0]));
        }
    }
}

/// No byte of a rendered integer is a separator dot.
pub proof fn lemma_dec_digits_no_dot(n: nat)
    ensures
        forall|i: int| 0 <= i < dec_digits(n).len() ==> #[trigger] dec_digits(n)[i] != 46,
{
    lemma_dec_digits_wf(n);
    assert(forall|i: int| 0 <= i < dec_digits(n).len() ==> is_digit(#[trigger] dec_digits(n)[i]));
}

pub proof fn lemma_dec_i32_no_dot(n: int)
    ensures
        forall|i: int| 0 <= i < dec_i32(n).len() ==> #[trigger] dec_i32(n)[i] != 46,
{
    if n < 0 {
        lemma_dec_digits_no_dot((-n) as nat);
        let s = dec_i32(n);
        let d = dec_digits((-n) as nat);
        assert(forall|i: int| 1 <= i < s.len() ==> s[i] == #[trigger] d[i - 1]);
        assert(forall|i: int| 0 <= i < s.len() ==> #[trigger] s[i] != 46) by {
            assert(s[0] == 45);
            assert(forall|i: int| 1 <= i < s.len() ==> #[trigger] s[i] == d[i - 1] && d[i - 1] != 46);
        }
    } else {
        lemma_dec_digits_no_dot(n as nat);
    }
}

/// Render a `u64` in decimal.
pub fn u64_to_dec(n: u64) -> (r: Vec<u8>)
    ensures
        r@ == dec_digits(n as nat),
{
    let mut out: Vec<u8> = Vec::new();
    if n == 0 {
        out.push(48u8);
        proof {
            assert(out@ =~= dec_digits(0));
        }
        return out;
    }
    let mut m: u64 = n;
    while m > 0
        invariant
            m > 0 ==> dec_digits(n as nat) =~= dec_digits(m as nat) + out@,
            m == 0 ==> dec_digits(n as nat) =~= out@,
        decreases m,
    {
        let d: u8 = (48 + (m % 10)) as u8;
        let ghost old_out = out@;
        let ghost old_m = m as nat;
        out.insert(0, d);
        m = m / 10;
        proof {
            assert(out@ =~= seq![d] + old_out);
            if old_m >= 10 {
                assert(dec_digits(old_m) =~= dec_digits(old_m / 10) + seq![d]);
                assert(dec_digits(n as nat) =~= dec_digits(old_m / 10) + (seq![d] + old_out));
            } else {
                assert(dec_digits(old_m) =~= seq![d]);
                assert(dec_digits(n as nat) =~= seq![d] + old_out);
                assert(m == 0);
            }
        }
    }
    out
}

/// Render an `i32` in decimal, with a minus sign when negative.
pub fn i32_to_dec(n: i32) -> (r: Vec<u8>)
    ensures
        r@ == dec_i32(n as int),
{
    if n >= 0 {
        let r = u64_to_dec(n as u64);
        proof {
            assert(r@ =~= dec_i32(n as int));
        }
        r
    } else {
        let mag: u64 = (-(n as i64)) as u64;
        let mut r = u64_to_dec(mag);
        r.insert(0, 45u8);
        proof {
            assert(mag as nat == (-(n as int)) as nat);
            assert(r@ =~= dec_i32(n as int));
        }
        r
    }
}

/// Parse the bytes `v[start..end]` as an unsigned decimal number.
pub fn parse_u64(v: &Vec<u8>, start: usize, end: usize) -> (r: Option<u64>)
    requires
        start <= end <= v@.len(),
    ensures
        r == spec_parse_u64(v@.subrange(start as int, end as int)),
{
    let ghost s = v@.subrange(start as int, end as int);
    if start == end {
        return None;
    }
    let mut acc: u64 = 0;
    let mut i: usize = start;
    while i < end
        invariant
            start <= i <= end <= v@.len(),
            s == v@.subrange(start as int, end as int),
            all_digits(s.take(i - start)),
            acc == dec_val(s.take(i - start)),
        decreases end - i,
    {
        let b = v[i];
        proof {
            assert(s[i - start] == v@[i as int]);
        }
        if b < 48 || b > 57 {
            proof {
                assert(!is_digit(s[i - start]));
                assert(!all_digits(s));
            }
            return None;
        }
        let d: u64 = (b - 48) as u64;
        proof {
            assert(s.take(i - start + 1).drop_last() =~= s.take(i - start));
            assert(s.take(i - start + 1).last() == s[i - start]);
            assert(all_digits(s.take(i - start + 1))) by {
                assert(forall|j: int| 0 <= j < i - start + 1 ==> s.take(i - start + 1)[j] == #[trigger] s[j]);
                assert(forall|j: int| 0 <= j < i - start ==> s.take(i - start)[j] == #[trigger] s[j]);
            }
            assert(dec_val(s.take(i - start + 1)) == dec_val(s.take(i - start)) * 10 + (s[i - start] - 48));
        }
        if acc > (u64::MAX - d) / 10 {
            proof {
                let y = (u64::MAX - d) as int;
                vstd::arithmetic::div_mod::lemma_fundamental_div_mod(y, 10);
                assert(acc * 10 >= (y / 10 + 1) * 10);
                assert(acc * 10 + d > u64::MAX);
                if all_digits(s) {
                    lemma_dec_val_prefix_le(s, i - start + 1);
                    assert(dec_val(s) > u64::MAX);
                }
            }
            return None;
        }
        proof {
            let y = (u64::MAX - d) as int;
            vstd::arithmetic::div_mod::lemma_fundamental_div_mod(y, 10);
            assert(acc * 10 <= (y / 10) * 10);
            assert(acc * 10 + d <= u64::MAX);
        }
        acc = acc * 10 + d;
        i += 1;
    }
    proof {
        assert(s.take(end - start) =~= s);
    }
    Some(acc)
}

/// Parse the bytes `v[start..end]` as a signed decimal number in `i32`
/// range.
pub fn parse_i32(v: &Vec<u8>, start: usize, end: usize) -> (r: Option<i32>)
    requires
        start <= end <= v@.len(),
    ensures
        r == spec_parse_i32(v@.subrange(start as int, end as int)),
{
    let ghost s = v@.subrange(start as int, end as int);
    if start == end {
        return None;
    }
    if v[start] == 45 {
        proof {
            assert(s[0] == 45);
            assert(v@.subrange(start as int + 1, end as int) =~= s.skip(1));
        }
        match parse_u64(v, start + 1, end) {
            Some(m) => {
                if 1 <= m && m <= 2147483648 {
                    let r: i32 = if m == 2147483648 {
                        i32::MIN
                    } else {
                        -((m as i32))
                    };
                    proof {
                        assert(r as int == -(m as int));
                    }
                    Some(r)
                } else {
                    None
                }
            },
            None => None,
        }
    } else {
        proof {
            assert(s[0] != 45);
        }
        match parse_u64(v, start, end) {
            Some(m) => {
                if m <= 2147483647 {
                    Some(m as i32)
                } else {
                    None
                }
            },
            None => None,
        }
    }
}

} // verus!
