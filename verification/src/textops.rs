//! Verified text primitives: substring containment and searching.

use vstd::prelude::*;

verus! {

/// `needle` occurs contiguously inside `hay`.
pub open spec fn spec_contains(hay: Seq<char>, needle: Seq<char>) -> bool {
    exists|k: int|
        0 <= k && k + needle.len() <= hay.len()
            && #[trigger] hay.subrange(k, k + needle.len()) == needle
}

/// `needle` occurs at position `k` of `hay`.
fn match_at(hay: &str, needle: &str, k: usize) -> (r: bool)
    requires
        k + needle@.len() <= hay@.len(),
        hay@.len() <= usize::MAX,
    ensures
        r == (hay@.subrange(k as int, k as int + needle@.len()) == needle@),
{
    let nlen = needle.unicode_len();
    let mut j: usize = 0;
    let mut matched = true;
    while matched && j < nlen
        invariant
            j <= nlen,
            nlen == needle@.len(),
            k + nlen <= hay@.len(),
            hay@.len() <= usize::MAX,
            matched ==> forall|m: int| 0 <= m < j ==> hay@[k + m] == needle@[m],
            !matched ==> hay@.subrange(k as int, k as int + nlen) != needle@,
        decreases nlen - j + if matched { 1int } else { 0int },
    {
        let hc = hay.get_char(k + j);
        let nc = needle.get_char(j);
        if hc == nc {
            j = j + 1;
        } else {
            proof {
                assert(hay@.subrange(k as int, k as int + nlen)[j as int] == hay@[k + j]);
            }
            matched = false;
        }
    }
    proof {
        if matched {
            assert(hay@.subrange(k as int, k as int + nlen) =~= needle@);
        }
    }
    matched
}

/// Substring containment, the library's own check.
pub fn str_contains(hay: &str, needle: &str) -> (r: bool)
    ensures
        r == spec_contains(hay@, needle@),
{
    let hlen = hay.unicode_len();
    let nlen = needle.unicode_len();
    if nlen > hlen {
        proof {
            assert(!spec_contains(hay@, needle@));
        }
        return false;
    }
    let mut k: usize = 0;
    loop
        invariant
            k <= hlen - nlen,
            hlen == hay@.len(),
            nlen == needle@.len(),
            nlen <= hlen,
            forall|k2: int| 0 <= k2 < k
                ==> #[trigger] hay@.subrange(k2, k2 + needle@.len()) != needle@,
        decreases hlen - nlen - k,
    {
        if match_at(hay, needle, k) {
            return true;
        }
        if k == hlen - nlen {
            proof {
                assert(forall|k2: int| 0 <= k2 && k2 + needle@.len() <= hay@.len()
                    ==> #[trigger] hay@.subrange(k2, k2 + needle@.len()) != needle@);
            }
            return false;
        }
        k = k + 1;
    }
}


/// Character-for-character string equality.
pub fn str_eq(a: &str, b: &str) -> (r: bool)
    ensures
        r == (a@ == b@),
{
    let alen = a.unicode_len();
    let blen = b.unicode_len();
    if alen != blen {
        proof {
            if a@ == b@ {
                assert(a@.len() == b@.len());
            }
        }
        return false;
    }
    let mut i: usize = 0;
    while i < alen
        invariant
            i <= alen,
            alen == a@.len(),
            alen == b@.len(),
            forall|m: int| 0 <= m < i ==> a@[m] == b@[m],
        decreases alen - i,
    {
        if a.get_char(i) != b.get_char(i) {
            proof {
                if a@ == b@ {
                    assert(a@[i as int] == b@[i as int]);
                }
            }
            return false;
        }
        i = i + 1;
    }
    proof {
        assert(a@ =~= b@);
    }
    true
}

} // verus!
