//! Verified helpers over byte sequences, used by the segmenter and the
//! extractor's manual header scan.

use vstd::prelude::*;
use vstd::slice::{slice_subrange, slice_to_vec};
use crate::text::{spec_match_at, spec_starts_with};

verus! {

pub fn starts_with_b(s: &[u8], p: &[u8]) -> (r: bool)
    ensures
        r == spec_starts_with(s@, p@),
{
    if p.len() > s.len() {
        return false;
    }
    let pl = p.len();
    let mut i: usize = 0;
    while i < pl
        invariant
            pl == p@.len(),
            pl <= s@.len(),
            i <= pl,
            forall|j: int| 0 <= j < i ==> s@[j] == p@[j],
        decreases pl - i,
    {
        if s[i] != p[i] {
            proof {
                assert(s@.take(p@.len() as int)[i as int] == s@[i as int]);
            }
            return false;
        }
        i = i + 1;
    }
    proof {
        assert(s@.take(p@.len() as int) =~= p@);
    }
    true
}

pub fn match_at_b(hay: &[u8], needle: &[u8], i: usize) -> (r: bool)
    requires
        i + needle@.len() <= hay@.len(),
    ensures
        r == spec_match_at(hay@, needle@, i as int),
{
    let nl = needle.len();
    let hl = hay.len();
    let mut k: usize = 0;
    while k < nl
        invariant
            nl == needle@.len(),
            hl == hay@.len(),
            i + nl <= hl,
            k <= nl,
            forall|t: int| 0 <= t < k ==> hay@[i + t] == needle@[t],
        decreases nl - k,
    {
        if hay[i + k] != needle[k] {
            proof {
                assert(hay@.subrange(i as int, i + needle@.len())[k as int] == hay@[i + k]);
            }
            return false;
        }
        k = k + 1;
    }
    proof {
        assert(hay@.subrange(i as int, i + needle@.len()) =~= needle@);
    }
    true
}

/// First occurrence of `needle` in `hay` at or after `from`.
pub fn find_sub_b(hay: &[u8], needle: &[u8], from: usize) -> (r: Option<usize>)
    requires
        from <= hay@.len(),
    ensures
        match r {
            Option::Some(i) => from <= i && spec_match_at(hay@, needle@, i as int) && forall|
                j: int,
            | from <= j < i ==> !spec_match_at(hay@, needle@, j),
            Option::None => forall|j: int| from <= j ==> !spec_match_at(hay@, needle@, j),
        },
{
    if needle.len() > hay.len() {
        return None;
    }
    let last = hay.len() - needle.len();
    if from > last {
        return None;
    }
    let mut i: usize = from;
    loop
        invariant
            needle@.len() <= hay@.len(),
            last == hay@.len() - needle@.len(),
            from <= i <= last,
            forall|j: int| from <= j < i ==> !spec_match_at(hay@, needle@, j),
        decreases last - i,
    {
        if match_at_b(hay, needle, i) {
            return Some(i);
        }
        if i == last {
            proof {
                assert forall|j: int| from <= j implies !spec_match_at(hay@, needle@, j) by {
                    if j > last {
                        assert(j + needle@.len() > hay@.len());
                    }
                };
            }
            return None;
        }
        i = i + 1;
    }
}

pub fn eq_bytes(a: &[u8], b: &[u8]) -> (r: bool)
    ensures
        r == (a@ == b@),
{
    if a.len() != b.len() {
        return false;
    }
    let n = a.len();
    let mut i: usize = 0;
    while i < n
        invariant
            n == a@.len(),
            a@.len() == b@.len(),
            i <= n,
            forall|j: int| 0 <= j < i ==> a@[j] == b@[j],
        decreases n - i,
    {
        if a[i] != b[i] {
            return false;
        }
        i = i + 1;
    }
    proof {
        assert(a@ =~= b@);
    }
    true
}

// ---------- whitespace trimming on bytes ----------

/// ASCII whitespace bytes, mirroring the character set used for header text.
pub open spec fn is_ws_b(c: u8) -> bool {
    c == 32 || c == 9 || c == 10 || c == 13 || c == 11 || c == 12
}

pub open spec fn spec_trim_front_b(s: Seq<u8>) -> Seq<u8>
    decreases s.len(),
{
    if s.len() > 0 && is_ws_b(s[0]) {
        spec_trim_front_b(s.drop_first())
    } else {
        s
    }
}

pub open spec fn spec_trim_back_b(s: Seq<u8>) -> Seq<u8>
    decreases s.len(),
{
    if s.len() > 0 && is_ws_b(s[s.len() - 1]) {
        spec_trim_back_b(s.drop_last())
    } else {
        s
    }
}

pub open spec fn spec_trim_b(s: Seq<u8>) -> Seq<u8> {
    spec_trim_back_b(spec_trim_front_b(s))
}

fn is_ws_byte(c: u8) -> (r: bool)
    ensures
        r == is_ws_b(c),
{
    c == 32 || c == 9 || c == 10 || c == 13 || c == 11 || c == 12
}

proof fn lemma_trim_front_b_scan(s: Seq<u8>, a: int)
    requires
        0 <= a <= s.len(),
        forall|j: int| 0 <= j < a ==> is_ws_b(s[j]),
        a == s.len() || !is_ws_b(s[a]),
    ensures
        spec_trim_front_b(s) == s.skip(a),
    decreases a,
{
    if a == 0 {
        assert(s.skip(0) =~= s);
    } else {
        assert(is_ws_b(s[0]));
        lemma_trim_front_b_scan(s.drop_first(), a - 1);
        assert(s.drop_first().skip(a - 1) =~= s.skip(a));
    }
}

proof fn lemma_trim_back_b_scan(s: Seq<u8>, b: int)
    requires
        0 <= b <= s.len(),
        forall|j: int| b <= j < s.len() ==> is_ws_b(s[j]),
        b == 0 || !is_ws_b(s[b - 1]),
    ensures
        spec_trim_back_b(s) == s.take(b),
    decreases s.len(),
{
    if b == s.len() {
        assert(s.take(b) =~= s);
    } else {
        assert(is_ws_b(s[s.len() - 1]));
        lemma_trim_back_b_scan(s.drop_last(), b);
        assert(s.drop_last().take(b) =~= s.take(b));
    }
}

/// `s` with leading and trailing ASCII whitespace removed.
pub fn trim_b(s: &[u8]) -> (r: Vec<u8>)
    ensures
        r@ == spec_trim_b(s@),
{
    let n = s.len();
    let mut a: usize = 0;
    while a < n && is_ws_byte(s[a])
        invariant
            n == s@.len(),
            a <= n,
            forall|j: int| 0 <= j < a ==> is_ws_b(s@[j]),
        decreases n - a,
    {
        a = a + 1;
    }
    proof {
        lemma_trim_front_b_scan(s@, a as int);
    }
    if a == n {
        proof {
            assert(s@.skip(a as int) =~= Seq::<u8>::empty());
        }
        return Vec::new();
    }
    let mut b: usize = n;
    while b > a && is_ws_byte(s[b - 1])
        invariant
            n == s@.len(),
            a < n,
            a <= b <= n,
            forall|j: int| b <= j < n ==> is_ws_b(s@[j]),
        decreases b,
    {
        b = b - 1;
    }
    proof {
        if b == a {
            assert(!is_ws_b(s@[a as int]));
            assert(false);
        }
        lemma_trim_back_b_scan(s@.skip(a as int), b - a);
        assert(s@.skip(a as int).take(b - a) =~= s@.subrange(a as int, b as int));
    }
    slice_to_vec(slice_subrange(s, a, b))
}

// ---------- ASCII lowercasing of header names ----------

pub open spec fn lower_byte(c: u8) -> u8 {
    if 65 <= c <= 90 {
        (c + 32) as u8
    } else {
        c
    }
}

pub open spec fn lower_bytes(s: Seq<u8>) -> Seq<u8> {
    s.map_values(|c: u8| lower_byte(c))
}

/// ASCII-lowercases a byte string (header names are ASCII).
pub fn to_lower_bytes(s: &[u8]) -> (r: Vec<u8>)
    ensures
        r@ == lower_bytes(s@),
{
    let n = s.len();
    let mut out: Vec<u8> = Vec::new();
    let mut i: usize = 0;
    while i < n
        invariant
            n == s@.len(),
            i <= n,
            out@.len() == i,
            forall|j: int| 0 <= j < i ==> out@[j] == lower_byte(s@[j]),
        decreases n - i,
    {
        let c = s[i];
        if 65 <= c && c <= 90 {
            out.push(c + 32);
        } else {
            out.push(c);
        }
        i = i + 1;
    }
    proof {
        assert(out@ =~= lower_bytes(s@));
    }
    out
}

// ---------- first occurrence of a pattern, as a spec function ----------

/// First match of `pat` at or after `i`, if any.
pub open spec fn spec_find_first(d: Seq<u8>, pat: Seq<u8>, i: int) -> Option<int>
    decreases d.len() - i,
    when 0 <= i <= d.len()
{
    if i >= d.len() || i + pat.len() > d.len() {
        Option::<int>::None
    } else if spec_match_at(d, pat, i) {
        Option::Some(i)
    } else {
        spec_find_first(d, pat, i + 1)
    }
}

pub proof fn lemma_find_first_none(d: Seq<u8>, pat: Seq<u8>, i: int)
    requires
        0 <= i <= d.len(),
        forall|j: int| i <= j ==> !spec_match_at(d, pat, j),
    ensures
        spec_find_first(d, pat, i) is None,
    decreases d.len() - i,
{
    if i < d.len() && i + pat.len() <= d.len() {
        lemma_find_first_none(d, pat, i + 1);
    }
}

pub proof fn lemma_find_first_some(d: Seq<u8>, pat: Seq<u8>, i: int, r: int)
    requires
        pat.len() > 0,
        0 <= i <= d.len(),
        i <= r,
        spec_match_at(d, pat, r),
        forall|j: int| i <= j < r ==> !spec_match_at(d, pat, j),
    ensures
        spec_find_first(d, pat, i) == Option::Some(r),
    decreases r - i,
{
    if i < r {
        lemma_find_first_some(d, pat, i + 1, r);
    }
}

/// First occurrence of `pat` at or after `from`, tied to `spec_find_first`.
pub fn find_first_b(d: &[u8], pat: &[u8], from: usize) -> (r: Option<usize>)
    requires
        pat@.len() > 0,
        from <= d@.len(),
    ensures
        match r {
            Option::Some(p) => spec_find_first(d@, pat@, from as int) == Option::Some(p as int)
                && from <= p && p + pat@.len() <= d@.len() && spec_match_at(d@, pat@, p as int),
            Option::None => spec_find_first(d@, pat@, from as int) is None,
        },
{
    match find_sub_b(d, pat, from) {
        Some(p) => {
            proof {
                lemma_find_first_some(d@, pat@, from as int, p as int);
            }
            Some(p)
        },
        None => {
            proof {
                lemma_find_first_none(d@, pat@, from as int);
            }
            None
        },
    }
}

/// First position of the byte `b` in `data` at or after `from`.
pub fn find_byte(data: &[u8], from: usize, b: u8) -> (r: Option<usize>)
    requires
        from <= data@.len(),
    ensures
        match r {
            Option::Some(i) => from <= i < data@.len() && data@[i as int] == b && forall|j: int|
                from <= j < i ==> data@[j] != b,
            Option::None => forall|j: int| from <= j < data@.len() ==> data@[j] != b,
        },
{
    let n = data.len();
    let mut i: usize = from;
    while i < n
        invariant
            n == data@.len(),
            from <= i <= n,
            forall|j: int| from <= j < i ==> data@[j] != b,
        decreases n - i,
    {
        if data[i] == b {
            return Some(i);
        }
        i = i + 1;
    }
    None
}

} // verus!
