//! Verified utilities over character and byte sequences: substring search,
//! trimming, single-pass replacement and lexicographic comparison. These are
//! the building blocks of the header decoder, the extractor and the search
//! engine.

use vstd::prelude::*;
use vstd::slice::{slice_subrange, slice_to_vec};
use vstd::string::StrSliceExecFns;

verus! {

// ---------- specification-level predicates ----------

pub open spec fn spec_starts_with<T>(s: Seq<T>, p: Seq<T>) -> bool {
    p.len() <= s.len() && s.take(p.len() as int) == p
}

pub open spec fn spec_match_at<T>(hay: Seq<T>, needle: Seq<T>, i: int) -> bool {
    0 <= i && i + needle.len() <= hay.len() && hay.subrange(i, i + needle.len()) == needle
}

pub open spec fn spec_has_sub<T>(hay: Seq<T>, needle: Seq<T>) -> bool {
    exists|i: int| spec_match_at(hay, needle, i)
}

/// The ASCII whitespace characters recognised by header folding, trimming
/// and the whitespace-collapsing rule between encoded words. This is a
/// deliberate model choice: only these six characters count as whitespace,
/// so a Unicode space such as a non-breaking space is neither trimmed nor
/// collapsed.
pub open spec fn is_ws(c: char) -> bool {
    c == ' ' || c == '\t' || c == '\n' || c == '\r' || c == '\u{b}' || c == '\u{c}'
}

pub open spec fn spec_trim_front(s: Seq<char>) -> Seq<char>
    decreases s.len(),
{
    if s.len() > 0 && is_ws(s[0]) {
        spec_trim_front(s.drop_first())
    } else {
        s
    }
}

pub open spec fn spec_trim_back(s: Seq<char>) -> Seq<char>
    decreases s.len(),
{
    if s.len() > 0 && is_ws(s[s.len() - 1]) {
        spec_trim_back(s.drop_last())
    } else {
        s
    }
}

/// The trimmed form of `s`: leading and trailing ASCII whitespace removed
/// (see `is_ws` for the whitespace model).
pub open spec fn spec_trim(s: Seq<char>) -> Seq<char> {
    spec_trim_back(spec_trim_front(s))
}

/// Left-to-right, non-overlapping replacement of `pat` by `rep`, the
/// behaviour of a single replacement pass.
pub open spec fn spec_replace(s: Seq<char>, pat: Seq<char>, rep: Seq<char>) -> Seq<char>
    decreases s.len(),
{
    if pat.len() == 0 || s.len() < pat.len() {
        s
    } else if s.take(pat.len() as int) == pat {
        rep + spec_replace(s.skip(pat.len() as int), pat, rep)
    } else {
        seq![s[0]] + spec_replace(s.drop_first(), pat, rep)
    }
}

/// Lexicographic order on character sequences. On ASCII text this agrees
/// with the byte-wise order of the corresponding strings.
pub open spec fn spec_lex_lt(a: Seq<char>, b: Seq<char>) -> bool
    decreases a.len(),
{
    if b.len() == 0 {
        false
    } else if a.len() == 0 {
        true
    } else if a[0] != b[0] {
        a[0] < b[0]
    } else {
        spec_lex_lt(a.drop_first(), b.drop_first())
    }
}

// ---------- conversions between &str and Vec<char> ----------

/// The characters of `s`, as a vector with constant-time indexing.
pub fn to_chars(s: &str) -> (r: Vec<char>)
    ensures
        r@ == s@,
{
    let n = s.unicode_len();
    let mut v: Vec<char> = Vec::new();
    let mut i: usize = 0;
    while i < n
        invariant
            n == s@.len(),
            i <= n,
            v@ == s@.take(i as int),
        decreases n - i,
    {
        v.push(s.get_char(i));
        i = i + 1;
        proof {
            assert(v@ =~= s@.take(i as int));
        }
    }
    proof {
        assert(v@ =~= s@);
    }
    v
}

/// Relies on `String::push`: appends exactly the given character.
#[verifier::external_body]
fn push_char(s: &mut String, c: char)
    ensures
        final(s)@ == old(s)@.push(c),
{
    s.push(c);
}

/// A string holding exactly the characters of `v`.
pub fn chars_to_string(v: &Vec<char>) -> (r: String)
    ensures
        r@ == v@,
{
    let mut r = String::new();
    let mut i: usize = 0;
    while i < v.len()
        invariant
            i <= v@.len(),
            r@ == v@.take(i as int),
        decreases v@.len() - i,
    {
        push_char(&mut r, v[i]);
        i = i + 1;
        proof {
            assert(r@ =~= v@.take(i as int));
        }
    }
    proof {
        assert(v@.take(v@.len() as int) =~= v@);
    }
    r
}

// ---------- comparisons and searching over Vec<char> ----------

pub fn eq_chars(a: &Vec<char>, b: &Vec<char>) -> (r: bool)
    ensures
        r == (a@ == b@),
{
    if a.len() != b.len() {
        return false;
    }
    let mut i: usize = 0;
    while i < a.len()
        invariant
            a@.len() == b@.len(),
            i <= a@.len(),
            forall|j: int| 0 <= j < i ==> a@[j] == b@[j],
        decreases a@.len() - i,
    {
        if a[i] != b[i] {
            return false;
        }
        i = i + 1;
    }
    proof {
        assert(a@ =~= b@);
    }
    true
}

pub fn starts_with_c(s: &Vec<char>, p: &Vec<char>) -> (r: bool)
    ensures
        r == spec_starts_with(s@, p@),
{
    if p.len() > s.len() {
        return false;
    }
    let mut i: usize = 0;
    while i < p.len()
        invariant
            p@.len() <= s@.len(),
            i <= p@.len(),
            forall|j: int| 0 <= j < i ==> s@[j] == p@[j],
        decreases p@.len() - i,
    {
        if s[i] != p[i] {
            proof {
                assert(s@.take(p@.len() as int)[i as int] == s@[i as int]);
            }
            return false;
        }
        i = i + 1;
    }
    proof {
        assert(s@.take(p@.len() as int) =~= p@);
    }
    true
}

pub fn match_at_c(hay: &Vec<char>, needle: &Vec<char>, i: usize) -> (r: bool)
    requires
        i + needle@.len() <= hay@.len(),
    ensures
        r == spec_match_at(hay@, needle@, i as int),
{
    let nl = needle.len();
    let hl = hay.len();
    let mut k: usize = 0;
    while k < nl
        invariant
            nl == needle@.len(),
            hl == hay@.len(),
            i + nl <= hl,
            k <= nl,
            forall|t: int| 0 <= t < k ==> hay@[i + t] == needle@[t],
        decreases nl - k,
    {
        if hay[i + k] != needle[k] {
            proof {
                assert(hay@.subrange(i as int, i + needle@.len())[k as int] == hay@[i + k]);
            }
            return false;
        }
        k = k + 1;
    }
    proof {
        assert(hay@.subrange(i as int, i + needle@.len()) =~= needle@);
    }
    true
}

/// First occurrence of `needle` in `hay` at or after `from`.
pub fn find_sub_c(hay: &Vec<char>, needle: &Vec<char>, from: usize) -> (r: Option<usize>)
    requires
        from <= hay@.len(),
    ensures
        match r {
            Option::Some(i) => from <= i && spec_match_at(hay@, needle@, i as int) && forall|
                j: int,
            | from <= j < i ==> !spec_match_at(hay@, needle@, j),
            Option::None => forall|j: int| from <= j ==> !spec_match_at(hay@, needle@, j),
        },
{
    if needle.len() > hay.len() {
        return None;
    }
    let last = hay.len() - needle.len();
    if from > last {
        return None;
    }
    let mut i: usize = from;
    loop
        invariant
            needle@.len() <= hay@.len(),
            last == hay@.len() - needle@.len(),
            from <= i <= last,
            forall|j: int| from <= j < i ==> !spec_match_at(hay@, needle@, j),
        decreases last - i,
    {
        if match_at_c(hay, needle, i) {
            return Some(i);
        }
        if i == last {
            proof {
                assert forall|j: int| from <= j implies !spec_match_at(hay@, needle@, j) by {
                    if j > last {
                        assert(j + needle@.len() > hay@.len());
                    }
                };
            }
            return None;
        }
        i = i + 1;
    }
}

pub fn contains_c(hay: &Vec<char>, needle: &Vec<char>) -> (r: bool)
    ensures
        r == spec_has_sub(hay@, needle@),
{
    match find_sub_c(hay, needle, 0) {
        Some(_) => true,
        None => false,
    }
}

// ---------- trimming ----------

pub fn is_ws_c(c: char) -> (r: bool)
    ensures
        r == is_ws(c),
{
    c == ' ' || c == '\t' || c == '\n' || c == '\r' || c == '\u{b}' || c == '\u{c}'
}

proof fn lemma_trim_front_scan(s: Seq<char>, a: int)
    requires
        0 <= a <= s.len(),
        forall|j: int| 0 <= j < a ==> is_ws(s[j]),
        a == s.len() || !is_ws(s[a]),
    ensures
        spec_trim_front(s) == s.skip(a),
    decreases a,
{
    if a == 0 {
        assert(s.skip(0) =~= s);
    } else {
        assert(is_ws(s[0]));
        lemma_trim_front_scan(s.drop_first(), a - 1);
        assert(s.drop_first().skip(a - 1) =~= s.skip(a));
    }
}

proof fn lemma_trim_back_scan(s: Seq<char>, b: int)
    requires
        0 <= b <= s.len(),
        forall|j: int| b <= j < s.len() ==> is_ws(s[j]),
        b == 0 || !is_ws(s[b - 1]),
    ensures
        spec_trim_back(s) == s.take(b),
    decreases s.len(),
{
    if b == s.len() {
        assert(s.take(b) =~= s);
    } else {
        assert(is_ws(s[s.len() - 1]));
        lemma_trim_back_scan(s.drop_last(), b);
        assert(s.drop_last().take(b) =~= s.take(b));
    }
}

/// `s` with leading and trailing whitespace removed.
pub fn trim_c(s: &Vec<char>) -> (r: Vec<char>)
    ensures
        r@ == spec_trim(s@),
{
    let mut a: usize = 0;
    while a < s.len() && is_ws_c(s[a])
        invariant
            a <= s@.len(),
            forall|j: int| 0 <= j < a ==> is_ws(s@[j]),
        decreases s@.len() - a,
    {
        a = a + 1;
    }
    proof {
        lemma_trim_front_scan(s@, a as int);
    }
    if a == s.len() {
        proof {
            assert(s@.skip(a as int) =~= Seq::<char>::empty());
        }
        return Vec::new();
    }
    let mut b: usize = s.len();
    while b > a && is_ws_c(s[b - 1])
        invariant
            a < s@.len(),
            a <= b <= s@.len(),
            forall|j: int| b <= j < s@.len() ==> is_ws(s@[j]),
        decreases b,
    {
        b = b - 1;
    }
    // the character at `a` is not whitespace, so the back scan stops at or after it
    proof {
        if b == a {
            assert(!is_ws(s@[a as int]));
            assert(false);
        }
        lemma_trim_back_scan(s@.skip(a as int), b - a);
        assert(s@.skip(a as int).take(b - a) =~= s@.subrange(a as int, b as int));
    }
    slice_to_vec(slice_subrange(s.as_slice(), a, b))
}

// ---------- replacement ----------

proof fn lemma_replace_step_match(s: Seq<char>, pat: Seq<char>, rep: Seq<char>, i: int)
    requires
        0 <= i,
        pat.len() > 0,
        i + pat.len() <= s.len(),
        spec_match_at(s, pat, i),
    ensures
        spec_replace(s.skip(i), pat, rep) == rep + spec_replace(s.skip(i + pat.len()), pat, rep),
{
    let t = s.skip(i);
    assert(t.take(pat.len() as int) =~= s.subrange(i, i + pat.len()));
    assert(t.skip(pat.len() as int) =~= s.skip(i + pat.len()));
}

proof fn lemma_replace_step_char(s: Seq<char>, pat: Seq<char>, rep: Seq<char>, i: int)
    requires
        0 <= i < s.len(),
        pat.len() > 0,
        !spec_match_at(s, pat, i),
    ensures
        spec_replace(s.skip(i), pat, rep) == seq![s[i]] + spec_replace(s.skip(i + 1), pat, rep),
{
    let t = s.skip(i);
    if t.len() < pat.len() {
        assert(s.skip(i + 1).len() < pat.len());
        assert(t =~= seq![s[i]] + s.skip(i + 1));
    } else {
        assert(t.take(pat.len() as int) =~= s.subrange(i, i + pat.len()));
        assert(t.drop_first() =~= s.skip(i + 1));
        assert(t[0] == s[i]);
    }
}

/// Single left-to-right replacement pass of `pat` by `rep` over `s`.
pub fn replace_c(s: &Vec<char>, pat: &Vec<char>, rep: &Vec<char>) -> (r: Vec<char>)
    requires
        pat@.len() > 0,
    ensures
        r@ == spec_replace(s@, pat@, rep@),
{
    let mut out: Vec<char> = Vec::new();
    let mut i: usize = 0;
    proof {
        assert(s@.skip(0) =~= s@);
        assert(Seq::<char>::empty() + spec_replace(s@, pat@, rep@) =~= spec_replace(
            s@,
            pat@,
            rep@,
        ));
    }
    while i < s.len()
        invariant
            i <= s@.len(),
            pat@.len() > 0,
            spec_replace(s@, pat@, rep@) == out@ + spec_replace(s@.skip(i as int), pat@, rep@),
        decreases s@.len() - i,
    {
        let ghost prev = out@;
        if pat.len() <= s.len() - i && match_at_c(s, pat, i) {
            out.extend_from_slice(rep.as_slice());
            proof {
                lemma_replace_step_match(s@, pat@, rep@, i as int);
                assert((prev + rep@) + spec_replace(s@.skip(i + pat@.len()), pat@, rep@) =~= prev
                    + (rep@ + spec_replace(s@.skip(i + pat@.len()), pat@, rep@)));
            }
            i = i + pat.len();
        } else {
            out.push(s[i]);
            proof {
                lemma_replace_step_char(s@, pat@, rep@, i as int);
                assert((prev + seq![s@[i as int]]) + spec_replace(s@.skip(i + 1), pat@, rep@)
                    =~= prev + (seq![s@[i as int]] + spec_replace(s@.skip(i + 1), pat@, rep@)));
                assert(prev.push(s@[i as int]) =~= prev + seq![s@[i as int]]);
            }
            i = i + 1;
        }
    }
    proof {
        assert(s@.skip(s@.len() as int) =~= Seq::<char>::empty());
        assert(out@ + Seq::<char>::empty() =~= out@);
    }
    out
}

// ---------- first occurrences, as spec functions ----------

/// First position of the character `c` at or after `i`, if any.
pub open spec fn spec_find_c(s: Seq<char>, c: char, i: int) -> Option<int>
    decreases s.len() - i,
    when 0 <= i <= s.len()
{
    if i >= s.len() {
        Option::<int>::None
    } else if s[i] == c {
        Option::Some(i)
    } else {
        spec_find_c(s, c, i + 1)
    }
}

pub proof fn lemma_find_c_none(s: Seq<char>, c: char, i: int)
    requires
        0 <= i <= s.len(),
        forall|j: int| i <= j < s.len() ==> s[j] != c,
    ensures
        spec_find_c(s, c, i) is None,
    decreases s.len() - i,
{
    if i < s.len() {
        lemma_find_c_none(s, c, i + 1);
    }
}

pub proof fn lemma_find_c_some(s: Seq<char>, c: char, i: int, r: int)
    requires
        0 <= i <= r < s.len(),
        s[r] == c,
        forall|j: int| i <= j < r ==> s[j] != c,
    ensures
        spec_find_c(s, c, i) == Option::Some(r),
    decreases r - i,
{
    if i < r {
        lemma_find_c_some(s, c, i + 1, r);
    }
}

/// First position of `c` at or after `from`, tied to `spec_find_c`.
pub fn find_char(s: &Vec<char>, c: char, from: usize) -> (r: Option<usize>)
    requires
        from <= s@.len(),
    ensures
        match r {
            Option::Some(p) => spec_find_c(s@, c, from as int) == Option::Some(p as int) && from
                <= p < s@.len() && s@[p as int] == c && forall|j: int|
                from <= j < p ==> s@[j] != c,
            Option::None => spec_find_c(s@, c, from as int) is None && forall|j: int|
                from <= j < s@.len() ==> s@[j] != c,
        },
{
    let n = s.len();
    let mut i: usize = from;
    while i < n
        invariant
            n == s@.len(),
            from <= i <= n,
            forall|j: int| from <= j < i ==> s@[j] != c,
        decreases n - i,
    {
        if s[i] == c {
            proof {
                lemma_find_c_some(s@, c, from as int, i as int);
            }
            return Some(i);
        }
        i = i + 1;
    }
    proof {
        lemma_find_c_none(s@, c, from as int);
    }
    None
}

/// First match of `pat` at or after `i`, if any.
pub open spec fn spec_find_sub_cs(s: Seq<char>, pat: Seq<char>, i: int) -> Option<int>
    decreases s.len() - i,
    when 0 <= i <= s.len()
{
    if i >= s.len() || i + pat.len() > s.len() {
        Option::<int>::None
    } else if spec_match_at(s, pat, i) {
        Option::Some(i)
    } else {
        spec_find_sub_cs(s, pat, i + 1)
    }
}

pub proof fn lemma_find_sub_cs_none(s: Seq<char>, pat: Seq<char>, i: int)
    requires
        0 <= i <= s.len(),
        forall|j: int| i <= j ==> !spec_match_at(s, pat, j),
    ensures
        spec_find_sub_cs(s, pat, i) is None,
    decreases s.len() - i,
{
    if i < s.len() && i + pat.len() <= s.len() {
        lemma_find_sub_cs_none(s, pat, i + 1);
    }
}

pub proof fn lemma_find_sub_cs_some(s: Seq<char>, pat: Seq<char>, i: int, r: int)
    requires
        pat.len() > 0,
        0 <= i <= s.len(),
        i <= r,
        spec_match_at(s, pat, r),
        forall|j: int| i <= j < r ==> !spec_match_at(s, pat, j),
    ensures
        spec_find_sub_cs(s, pat, i) == Option::Some(r),
    decreases r - i,
{
    if i < r {
        lemma_find_sub_cs_some(s, pat, i + 1, r);
    }
}


/// Matching inside a suffix corresponds to matching at the shifted position.
pub proof fn lemma_match_at_shift<T>(s: Seq<T>, p: Seq<T>, i: int, j: int)
    requires
        0 <= i <= s.len(),
        0 <= j,
    ensures
        spec_match_at(s.skip(i), p, j) == spec_match_at(s, p, i + j),
{
    if i + j + p.len() <= s.len() {
        assert(s.skip(i).subrange(j, j + p.len()) =~= s.subrange(i + j, i + j + p.len()));
    }
}

pub proof fn lemma_find_sub_cs_in_range(s: Seq<char>, pat: Seq<char>, i: int)
    requires
        0 <= i <= s.len(),
    ensures
        match spec_find_sub_cs(s, pat, i) {
            Option::Some(p) => i <= p && p + pat.len() <= s.len() && p < s.len(),
            Option::None => true,
        },
    decreases s.len() - i,
{
    if !(i >= s.len() || i + pat.len() > s.len()) && !spec_match_at(s, pat, i) {
        lemma_find_sub_cs_in_range(s, pat, i + 1);
    }
}

pub proof fn lemma_find_c_in_range(s: Seq<char>, c: char, i: int)
    requires
        0 <= i <= s.len(),
    ensures
        match spec_find_c(s, c, i) {
            Option::Some(p) => i <= p && p < s.len() && s[p] == c,
            Option::None => true,
        },
    decreases s.len() - i,
{
    if i < s.len() && s[i] != c {
        lemma_find_c_in_range(s, c, i + 1);
    }
}

// ---------- lexicographic comparison ----------

/// Whether `a` orders strictly before `b`.
pub fn lex_lt_c(a: &Vec<char>, b: &Vec<char>) -> (r: bool)
    ensures
        r == spec_lex_lt(a@, b@),
{
    let mut i: usize = 0;
    proof {
        assert(a@.skip(0) =~= a@);
        assert(b@.skip(0) =~= b@);
    }
    loop
        invariant
            i <= a@.len(),
            i <= b@.len(),
            spec_lex_lt(a@, b@) == spec_lex_lt(a@.skip(i as int), b@.skip(i as int)),
        decreases a@.len() - i,
    {
        if i >= b.len() {
            proof {
                assert(b@.skip(i as int).len() == 0);
            }
            return false;
        }
        if i >= a.len() {
            proof {
                assert(a@.skip(i as int).len() == 0);
                assert(b@.skip(i as int).len() > 0);
            }
            return true;
        }
        let ca = a[i];
        let cb = b[i];
        proof {
            assert(a@.skip(i as int)[0] == a@[i as int]);
            assert(b@.skip(i as int)[0] == b@[i as int]);
        }
        if ca != cb {
            return ca < cb;
        }
        proof {
            assert(a@.skip(i as int).drop_first() =~= a@.skip(i + 1));
            assert(b@.skip(i as int).drop_first() =~= b@.skip(i + 1));
        }
        i = i + 1;
    }
}

} // verus!
