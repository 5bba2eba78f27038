//! Small verified helpers for moving between `&str`, `Vec<char>` and
//! `String`, used by the codecs.

use vstd::prelude::*;
use vstd::string::*;

verus! {

/// Relies on `String: FromIterator<char>`: collecting characters yields the
/// string of exactly those characters, in order.
#[verifier::external_body]
pub(crate) fn chars_to_string(v: &Vec<char>) -> (r: String)
    ensures
        r@ == v@,
{
    v.iter().collect()
}

/// Copies the characters of `s` into a vector.
pub fn to_chars(s: &str) -> (r: Vec<char>)
    ensures
        r@ == s@,
{
    let n = s.unicode_len();
    let mut out: Vec<char> = Vec::new();
    let mut i: usize = 0;
    while i < n
        invariant
            0 <= i <= n,
            n == s@.len(),
            out@ == s@.take(i as int),
        decreases n - i,
    {
        let c = s.get_char(i);
        out.push(c);
        proof {
            assert(out@ =~= s@.take(i + 1));
        }
        i = i + 1;
    }
    proof {
        assert(s@.take(n as int) =~= s@);
    }
    out
}

/// Expecting a fixed text at a position: the index after it on a match.
pub open spec fn spec_expect(s: Seq<char>, i: int, t: Seq<char>) -> Option<int> {
    if 0 <= i && i + t.len() <= s.len() && s.subrange(i, i + t.len()) == t {
        Some(i + t.len())
    } else {
        None
    }
}

/// Checks for a fixed text at a position; mirrors [`spec_expect`].
pub fn expect_lit(v: &Vec<char>, i: usize, t: &str) -> (r: Option<usize>)
    ensures
        r is Some <==> spec_expect(v@, i as int, t@) is Some,
        r matches Some(j) ==> spec_expect(v@, i as int, t@) == Some(j as int) && i <= j <= v@.len(),
{
    let m = t.unicode_len();
    if m > v.len() || i > v.len() - m {
        proof {
            assert(spec_expect(v@, i as int, t@) is None);
        }
        return None;
    }
    let n = v.len();
    let mut k: usize = 0;
    while k < m
        invariant
            0 <= k <= m,
            m == t@.len(),
            n == v@.len(),
            i + m <= n,
            forall|j: int| 0 <= j < k ==> v@[i + j] == t@[j],
        decreases m - k,
    {
        if v[i + k] != t.get_char(k) {
            proof {
                assert(v@.subrange(i as int, i + m) != t@) by {
                    assert(v@.subrange(i as int, i + m)[k as int] == v@[i + k]);
                }
            }
            return None;
        }
        k = k + 1;
    }
    proof {
        assert(v@.subrange(i as int, i + m) =~= t@);
    }
    Some(i + m)
}

/// Compares a character vector with a string slice.
pub fn chars_eq_str(v: &Vec<char>, s: &str) -> (r: bool)
    ensures
        r == (v@ == s@),
{
    let n = s.unicode_len();
    if v.len() != n {
        proof {
            assert(v@.len() != s@.len());
        }
        return false;
    }
    let mut i: usize = 0;
    while i < n
        invariant
            0 <= i <= n,
            n == s@.len(),
            v@.len() == n,
            forall|j: int| 0 <= j < i ==> v@[j] == s@[j],
        decreases n - i,
    {
        if v[i] != s.get_char(i) {
            return false;
        }
        i = i + 1;
    }
    proof {
        assert(v@ =~= s@);
    }
    true
}

} // verus!
