//! Small byte-string helpers: locating the separator dots of a token,
//! copying ranges, and comparing byte strings.

use vstd::prelude::*;

verus! {

/// Index of the first separator dot in `s`, if any.
pub open spec fn find_dot(s: Seq<u8>) -> Option<int>
    decreases s.len(),
{
    if s.len() == 0 {
        None
    } else if s[0] == 46 {
        Some(0)
    } else {
        match find_dot(s.skip(1)) {
            Some(i) => Some(i + 1),
            None => None,
        }
    }
}

/// A position that holds a dot with none before it is what `find_dot`
/// returns.
pub proof fn lemma_find_dot_at(s: Seq<u8>, i: int)
    requires
        0 <= i < s.len(),
        s[i] == 46,
        forall|j: int| 0 <= j < i ==> s[j] != 46,
    ensures
        find_dot(s) == Some(i),
    decreases i,
{
    if i == 0 {
    } else {
        assert(s[0] != 46);
        let t = s.skip(1);
        assert(t[i - 1] == s[i]);
        assert(forall|j: int| 0 <= j < i - 1 ==> #[trigger] t[j] == s[j + 1] && s[j + 1] != 46);
        lemma_find_dot_at(t, i - 1);
    }
}

/// A dot-free string is one where `find_dot` returns nothing.
pub proof fn lemma_find_dot_none(s: Seq<u8>)
    requires
        forall|j: int| 0 <= j < s.len() ==> s[j] != 46,
    ensures
        find_dot(s) is None,
    decreases s.len(),
{
    if s.len() > 0 {
        let t = s.skip(1);
        assert(forall|j: int| 0 <= j < t.len() ==> #[trigger] t[j] == s[j + 1] && s[j + 1] != 46);
        lemma_find_dot_none(t);
    }
}

/// Whatever `find_dot` returns satisfies the characterisation.
pub proof fn lemma_find_dot_props(s: Seq<u8>)
    ensures
        match find_dot(s) {
            Some(i) => 0 <= i < s.len() && s[i] == 46 && (forall|j: int| 0 <= j < i ==> s[j]
                != 46),
            None => forall|j: int| 0 <= j < s.len() ==> s[j] != 46,
        },
    decreases s.len(),
{
    if s.len() > 0 && s[0] != 46 {
        let t = s.skip(1);
        lemma_find_dot_props(t);
        match find_dot(t) {
            Some(i) => {
                assert(s[i + 1] == t[i]);
                assert(forall|j: int| 1 <= j < i + 1 ==> #[trigger] s[j] == t[j - 1] && t[j - 1]
                    != 46);
            },
            None => {
                assert(forall|j: int| 1 <= j < s.len() ==> #[trigger] s[j] == t[j - 1] && t[j - 1]
                    != 46);
            },
        }
    }
}

/// Find the first dot in `v[start..end]`.
pub fn find_dot_from(v: &Vec<u8>, start: usize, end: usize) -> (r: Option<usize>)
    requires
        start <= end <= v@.len(),
    ensures
        match r {
            Some(k) => start <= k < end && find_dot(v@.subrange(start as int, end as int))
                == Some(k - start),
            None => find_dot(v@.subrange(start as int, end as int)) is None,
        },
{
    let ghost s = v@.subrange(start as int, end as int);
    let mut i: usize = start;
    while i < end
        invariant
            start <= i <= end <= v@.len(),
            s == v@.subrange(start as int, end as int),
            forall|j: int| 0 <= j < i - start ==> s[j] != 46,
        decreases end - i,
    {
        if v[i] == 46 {
            proof {
                assert(s[i - start] == 46);
                lemma_find_dot_at(s, i - start);
            }
            return Some(i);
        }
        proof {
            assert(s[i - start] == v@[i as int]);
        }
        i += 1;
    }
    proof {
        lemma_find_dot_none(s);
    }
    None
}

/// Copy `v[start..end]` into a fresh vector.
pub fn vec_range(v: &Vec<u8>, start: usize, end: usize) -> (r: Vec<u8>)
    requires
        start <= end <= v@.len(),
    ensures
        r@ == v@.subrange(start as int, end as int),
{
    let mut out: Vec<u8> = Vec::new();
    let mut i: usize = start;
    while i < end
        invariant
            start <= i <= end <= v@.len(),
            out@ =~= v@.subrange(start as int, i as int),
        decreases end - i,
    {
        out.push(v[i]);
        proof {
            assert(out@ =~= v@.subrange(start as int, i + 1));
        }
        i += 1;
    }
    out
}

/// Byte-string equality.
pub fn bytes_eq(a: &Vec<u8>, b: &Vec<u8>) -> (r: bool)
    ensures
        r == (a@ == b@),
{
    if a.len() != b.len() {
        proof {
            assert(a@ != b@);
        }
        return false;
    }
    let n = a.len();
    let mut i: usize = 0;
    while i < n
        invariant
            i <= n == a@.len() == b@.len(),
            forall|j: int| 0 <= j < i ==> a@[j] == b@[j],
        decreases n - i,
    {
        if a[i] != b[i] {
            return false;
        }
        i += 1;
    }
    proof {
        assert(a@ =~= b@);
    }
    true
}

/// Append a copy of `src` to `dst`.
pub fn push_all(dst: &mut Vec<u8>, src: &Vec<u8>)
    ensures
        final(dst)@ == old(dst)@ + src@,
{
    let mut i: usize = 0;
    proof {
        assert(dst@ =~= old(dst)@ + src@.subrange(0, 0));
    }
    while i < src.len()
        invariant
            i <= src@.len(),
            dst@ =~= old(dst)@ + src@.subrange(0, i as int),
        decreases src@.len() - i,
    {
        dst.push(src[i]);
        proof {
            assert(dst@ =~= old(dst)@ + src@.subrange(0, i + 1));
        }
        i += 1;
    }
    proof {
        assert(src@.subrange(0, src@.len() as int) =~= src@);
    }
}

} // verus!
