//! Verified helpers over string slices: equality, prefix and substring
//! tests, character-level extraction.

use vstd::prelude::*;
use vstd::string::StrSliceExecFns;

verus! {

/// Character-for-character string equality.
pub fn str_eq(a: &str, b: &str) -> (r: bool)
    ensures
        r == (a@ == b@),
{
    let alen = a.unicode_len();
    let blen = b.unicode_len();
    if alen != blen {
        assert(a@ != b@) by {
            assert(a@.len() != b@.len());
        }
        return false;
    }
    let mut i: usize = 0;
    while i < alen
        invariant
            alen == a@.len(),
            alen == b@.len(),
            0 <= i <= alen,
            forall|j: int| 0 <= j < i ==> a@[j] == b@[j],
        decreases alen - i,
    {
        if a.get_char(i) != b.get_char(i) {
            return false;
        }
        i += 1;
    }
    proof {
        assert(a@ =~= b@);
    }
    true
}

/// Whether `hay` starts with `pre`.
pub open spec fn spec_starts_with(hay: Seq<char>, pre: Seq<char>) -> bool {
    pre.len() <= hay.len() && hay.take(pre.len() as int) == pre
}

pub fn starts_with(hay: &str, pre: &str) -> (r: bool)
    ensures
        r == spec_starts_with(hay@, pre@),
{
    let hlen = hay.unicode_len();
    let plen = pre.unicode_len();
    if plen > hlen {
        return false;
    }
    let mut i: usize = 0;
    while i < plen
        invariant
            hlen == hay@.len(),
            plen == pre@.len(),
            plen <= hlen,
            0 <= i <= plen,
            forall|j: int| 0 <= j < i ==> hay@[j] == pre@[j],
        decreases plen - i,
    {
        if hay.get_char(i) != pre.get_char(i) {
            assert(hay@.take(plen as int)[i as int] != pre@[i as int]);
            return false;
        }
        i += 1;
    }
    proof {
        assert(hay@.take(plen as int) =~= pre@);
    }
    true
}

/// Whether `needle` occurs contiguously inside `hay`.
pub open spec fn spec_has_substring(hay: Seq<char>, needle: Seq<char>) -> bool {
    exists|i: int|
        0 <= i && i + needle.len() <= hay.len() && #[trigger] hay.subrange(i, i + needle.len())
            == needle
}

pub fn has_substring(hay: &str, needle: &str) -> (r: bool)
    ensures
        r == spec_has_substring(hay@, needle@),
{
    let hlen = hay.unicode_len();
    let nlen = needle.unicode_len();
    if nlen > hlen {
        return false;
    }
    if nlen == 0 {
        proof {
            assert(hay@.subrange(0, 0 + needle@.len() as int) =~= needle@);
            assert(spec_has_substring(hay@, needle@));
        }
        return true;
    }
    let last = hlen - nlen;
    let mut start: usize = 0;
    loop
        invariant
            1 <= nlen,
            hlen == hay@.len(),
            nlen == needle@.len(),
            nlen <= hlen,
            last == hlen - nlen,
            0 <= start <= last + 1,
            forall|i: int|
                0 <= i < start ==> #[trigger] hay@.subrange(i, i + needle@.len() as int)
                    != needle@,
        decreases last + 1 - start,
    {
        if start > last {
            return false;
        }
        let piece = hay.substring_char(start, start + nlen);
        if str_eq(piece, needle) {
            assert(hay@.subrange(start as int, start as int + needle@.len() as int) == needle@);
            return true;
        }
        start += 1;
    }
}

} // verus!
