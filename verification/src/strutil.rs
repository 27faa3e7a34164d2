//! Small verified string utilities: equality, substring containment and
//! membership in a list, all specified over `Seq<char>` views.

use vstd::prelude::*;
use vstd::string::*;

verus! {

/// `needle` occurs contiguously somewhere in `hay`.
pub open spec fn has_substring(hay: Seq<char>, needle: Seq<char>) -> bool {
    exists|k: int|
        0 <= k && k + needle.len() <= hay.len() && #[trigger] hay.subrange(k, k + needle.len())
            == needle
}

/// Character-by-character string equality, decided without assuming anything
/// of `PartialEq` impls.
pub fn str_eq(a: &str, b: &str) -> (r: bool)
    ensures
        r == (a@ == b@),
{
    let alen = a.unicode_len();
    let blen = b.unicode_len();
    if alen != blen {
        return false;
    }
    let mut i: usize = 0;
    while i < alen
        invariant
            alen == a@.len(),
            blen == b@.len(),
            alen == blen,
            i <= alen,
            forall|k: int| 0 <= k < i ==> a@[k] == b@[k],
        decreases alen - i,
    {
        if a.get_char(i) != b.get_char(i) {
            return false;
        }
        i += 1;
    }
    proof {
        assert(a@ =~= b@);
    }
    true
}

/// `needle` occurs in `hay` starting at offset `k`.
fn matches_at(hay: &str, needle: &str, k: usize) -> (r: bool)
    requires
        k + needle@.len() <= hay@.len(),
        hay@.len() <= usize::MAX,
    ensures
        r == (hay@.subrange(k as int, k + needle@.len()) == needle@),
{
    let nlen = needle.unicode_len();
    let mut j: usize = 0;
    while j < nlen
        invariant
            nlen == needle@.len(),
            k + nlen <= hay@.len(),
            hay@.len() <= usize::MAX,
            j <= nlen,
            forall|t: int| 0 <= t < j ==> hay@[k + t] == needle@[t],
        decreases nlen - j,
    {
        if hay.get_char(k + j) != needle.get_char(j) {
            proof {
                assert(hay@.subrange(k as int, k + nlen)[j as int] == hay@[k + j]);
            }
            return false;
        }
        j += 1;
    }
    proof {
        assert(hay@.subrange(k as int, k + nlen) =~= needle@);
    }
    true
}

/// Substring search, the spec-level `has_substring` decided exactly.
pub fn str_contains(hay: &str, needle: &str) -> (r: bool)
    ensures
        r == has_substring(hay@, needle@),
{
    let hlen = hay.unicode_len();
    let nlen = needle.unicode_len();
    if nlen > hlen {
        return false;
    }
    if nlen == 0 {
        proof {
            assert(hay@.subrange(0, 0 + needle@.len() as int) =~= needle@);
        }
        return true;
    }
    let kmax = hlen - nlen;
    let mut k: usize = 0;
    while k <= kmax
        invariant
            hlen == hay@.len(),
            nlen == needle@.len(),
            1 <= nlen <= hlen,
            kmax == hlen - nlen,
            k <= kmax + 1,
            forall|t: int|
                0 <= t < k ==> #[trigger] hay@.subrange(t, t + needle@.len()) != needle@,
        decreases kmax + 1 - k,
    {
        if matches_at(hay, needle, k) {
            return true;
        }
        k += 1;
    }
    false
}

/// Some entry of `list` has exactly the characters of `x`.
pub fn contains_string(list: &Vec<String>, x: &String) -> (r: bool)
    ensures
        r == list.deep_view().contains(x@),
{
    let n = list.len();
    let mut i: usize = 0;
    while i < n
        invariant
            n == list.len(),
            i <= n,
            list.deep_view().len() == list.len(),
            forall|k: int| 0 <= k < i ==> list.deep_view()[k] != x@,
        decreases n - i,
    {
        proof {
            assert(list.deep_view()[i as int] == list[i as int]@);
        }
        if str_eq(list[i].as_str(), x.as_str()) {
            return true;
        }
        i += 1;
    }
    false
}

} // verus!
