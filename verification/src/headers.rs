//! The header decoder: unfolds folded header values, collapses whitespace
//! between adjacent encoded words, and rewrites every well-formed encoded
//! word (`=?charset?Q|B?data?=`) through its transfer decoding, with a
//! second, relaxed pass for encoded words missing the leading `=`.
//!
//! Decoding is total: any failure leaves the affected token unchanged.

use vstd::prelude::*;
use crate::codec::{b64_decode_std, b64_std_of, qp_decode_robust, qp_robust_of, utf8_lossy,
    utf8_lossy_of};
use crate::text::{chars_to_string, is_ws, is_ws_c, replace_c, spec_has_sub, spec_match_at,
    spec_replace, to_chars};
use vstd::slice::{slice_subrange, slice_to_vec};

verus! {

// ---------- stage 1: unfolding ----------

/// Folded line breaks removed: first every `\r\n`, then every remaining `\n`.
pub open spec fn spec_unfold(s: Seq<char>) -> Seq<char> {
    spec_replace(
        spec_replace(s, seq!['\r', '\n'], Seq::<char>::empty()),
        seq!['\n'],
        Seq::<char>::empty(),
    )
}

// ---------- stage 2: whitespace collapse between encoded words ----------

/// Length of the leading whitespace run of `s`.
pub open spec fn spec_ws_len(s: Seq<char>) -> nat
    decreases s.len(),
{
    if s.len() > 0 && is_ws(s[0]) {
        1 + spec_ws_len(s.drop_first())
    } else {
        0
    }
}

/// Whether `t` begins with `?=`, whitespace, `=?`: the pattern whose
/// whitespace is not semantic between two adjacent encoded words.
pub open spec fn spec_gap_front(t: Seq<char>) -> bool {
    t.len() >= 2 && t[0] == '?' && t[1] == '=' && {
        let w = spec_ws_len(t.skip(2)) as int;
        w >= 1 && 2 + w + 1 < t.len() && t[2 + w] == '=' && t[2 + w + 1] == '?'
    }
}

pub open spec fn spec_gap_len(t: Seq<char>) -> int {
    2 + spec_ws_len(t.skip(2)) as int + 2
}

/// One left-to-right pass rewriting `?=<ws>=?` to `?==?`.
pub open spec fn spec_collapse(s: Seq<char>) -> Seq<char>
    decreases s.len(),
{
    if s.len() == 0 {
        Seq::<char>::empty()
    } else if spec_gap_front(s) {
        seq!['?', '=', '=', '?'] + spec_collapse(s.skip(spec_gap_len(s)))
    } else {
        seq![s[0]] + spec_collapse(s.drop_first())
    }
}

// ---------- stage 3 and 4: encoded-word rewriting ----------

pub open spec fn is_qb(c: char) -> bool {
    c == 'Q' || c == 'q' || c == 'B' || c == 'b'
}

/// Characters allowed inside the charset and data fields of an encoded word.
/// The strict pattern excludes only `?`; the relaxed fallback pattern (for
/// words missing the leading `=`) also excludes spaces.
pub open spec fn allowed_cs(c: char, strict: bool) -> bool {
    c != '?' && (strict || c != ' ')
}

/// Length of the leading run of allowed characters of `s`.
pub open spec fn spec_run_len(s: Seq<char>, strict: bool) -> nat
    decreases s.len(),
{
    if s.len() > 0 && allowed_cs(s[0], strict) {
        1 + spec_run_len(s.drop_first(), strict)
    } else {
        0
    }
}

/// Whether an encoded word starts at the front of `t`. The strict form is
/// `=?charset?Q|B?data?=`; the relaxed form drops the leading `=`.
pub open spec fn spec_word_front(t: Seq<char>, strict: bool) -> bool {
    let b: int = if strict {
        2
    } else {
        1
    };
    let pre = if strict {
        t.len() >= 2 && t[0] == '=' && t[1] == '?'
    } else {
        t.len() >= 1 && t[0] == '?'
    };
    pre && {
        let cl = spec_run_len(t.skip(b), strict) as int;
        let e = b + cl + 1;
        let ds = b + cl + 3;
        cl >= 1 && b + cl < t.len() && t[b + cl] == '?' && e < t.len() && is_qb(t[e]) && e + 1
            < t.len() && t[e + 1] == '?' && {
            let dl = spec_run_len(t.skip(ds), strict) as int;
            let q = ds + dl;
            q < t.len() && t[q] == '?' && q + 1 < t.len() && t[q + 1] == '='
        }
    }
}

pub open spec fn spec_word_len(t: Seq<char>, strict: bool) -> int {
    let b: int = if strict {
        2
    } else {
        1
    };
    let cl = spec_run_len(t.skip(b), strict) as int;
    let ds = b + cl + 3;
    let dl = spec_run_len(t.skip(ds), strict) as int;
    ds + dl + 2
}

pub open spec fn spec_word_enc(t: Seq<char>, strict: bool) -> char {
    let b: int = if strict {
        2
    } else {
        1
    };
    let cl = spec_run_len(t.skip(b), strict) as int;
    t[b + cl + 1]
}

pub open spec fn spec_word_data(t: Seq<char>, strict: bool) -> Seq<char> {
    let b: int = if strict {
        2
    } else {
        1
    };
    let cl = spec_run_len(t.skip(b), strict) as int;
    let ds = b + cl + 3;
    let dl = spec_run_len(t.skip(ds), strict) as int;
    t.subrange(ds, ds + dl)
}

/// What one encoded word decodes to: quoted-printable (after `_` becomes a
/// space) or base64, both read as lossy UTF-8; on a decode error the token
/// `tok` stays as it was.
pub open spec fn spec_word_repl(tok: Seq<char>, enc: char, data: Seq<char>) -> Seq<char> {
    if enc == 'Q' || enc == 'q' {
        match qp_robust_of(spec_replace(data, seq!['_'], seq![' '])) {
            Option::Some(bs) => utf8_lossy_of(bs),
            Option::None => tok,
        }
    } else {
        match b64_std_of(data) {
            Option::Some(bs) => utf8_lossy_of(bs),
            Option::None => tok,
        }
    }
}

/// One left-to-right pass replacing every encoded word of the given form.
pub open spec fn spec_decode_pass(s: Seq<char>, strict: bool) -> Seq<char>
    decreases s.len(),
{
    if s.len() == 0 {
        Seq::<char>::empty()
    } else if spec_word_front(s, strict) {
        spec_word_repl(
            s.take(spec_word_len(s, strict)),
            spec_word_enc(s, strict),
            spec_word_data(s, strict),
        ) + spec_decode_pass(s.skip(spec_word_len(s, strict)), strict)
    } else {
        seq![s[0]] + spec_decode_pass(s.drop_first(), strict)
    }
}

/// The whole pipeline: unfold, collapse, strict pass, relaxed pass.
pub open spec fn spec_decode_header(s: Seq<char>) -> Seq<char> {
    spec_decode_pass(spec_decode_pass(spec_collapse(spec_unfold(s)), true), false)
}

/// A header value that decoding leaves alone — an already-decoded plain
/// string: it holds no line break to unfold, and no position of it matches
/// the between-words whitespace pattern, the encoded-word pattern, or the
/// relaxed encoded-word pattern.
pub open spec fn is_plain(s: Seq<char>) -> bool {
    &&& !spec_has_sub(s, seq!['\n'])
    &&& forall|i: int| 0 <= i <= s.len() ==> !(#[trigger] spec_gap_front(s.skip(i)))
    &&& forall|i: int| 0 <= i <= s.len() ==> !(#[trigger] spec_word_front(s.skip(i), true))
    &&& forall|i: int| 0 <= i <= s.len() ==> !(#[trigger] spec_word_front(s.skip(i), false))
}

// ---------- helper lemmas ----------

proof fn lemma_match_shift<T>(s: Seq<T>, p: Seq<T>, i: int)
    requires
        0 < s.len(),
        spec_match_at(s.drop_first(), p, i),
    ensures
        spec_match_at(s, p, i + 1),
{
    assert(s.subrange(i + 1, i + 1 + p.len()) =~= s.drop_first().subrange(i, i + p.len()));
}

proof fn lemma_no_sub_drop<T>(s: Seq<T>, p: Seq<T>)
    requires
        0 < s.len(),
        !spec_has_sub(s, p),
    ensures
        !spec_has_sub(s.drop_first(), p),
{
    assert forall|i: int| !spec_match_at(s.drop_first(), p, i) by {
        if spec_match_at(s.drop_first(), p, i) {
            lemma_match_shift(s, p, i);
        }
    };
}

proof fn lemma_replace_id(s: Seq<char>, pat: Seq<char>, rep: Seq<char>)
    requires
        pat.len() > 0,
        !spec_has_sub(s, pat),
    ensures
        spec_replace(s, pat, rep) == s,
    decreases s.len(),
{
    if s.len() >= pat.len() {
        assert(s.take(pat.len() as int) =~= s.subrange(0, pat.len() as int));
        if s.take(pat.len() as int) == pat {
            assert(spec_match_at(s, pat, 0));
            assert(false);
        }
        lemma_no_sub_drop(s, pat);
        lemma_replace_id(s.drop_first(), pat, rep);
        assert(seq![s[0]] + s.drop_first() =~= s);
    }
}

proof fn lemma_collapse_id(s: Seq<char>)
    requires
        forall|i: int| 0 <= i <= s.len() ==> !(#[trigger] spec_gap_front(s.skip(i))),
    ensures
        spec_collapse(s) == s,
    decreases s.len(),
{
    if s.len() > 0 {
        assert(s.skip(0) =~= s);
        assert(!spec_gap_front(s.skip(0)));
        assert forall|i: int| 0 <= i <= s.drop_first().len() implies !(#[trigger] spec_gap_front(
            s.drop_first().skip(i),
        )) by {
            assert(s.drop_first().skip(i) =~= s.skip(i + 1));
            assert(!spec_gap_front(s.skip(i + 1)));
        };
        lemma_collapse_id(s.drop_first());
        assert(seq![s[0]] + s.drop_first() =~= s);
    }
}

proof fn lemma_pass_id(s: Seq<char>, strict: bool)
    requires
        forall|i: int| 0 <= i <= s.len() ==> !(#[trigger] spec_word_front(s.skip(i), strict)),
    ensures
        spec_decode_pass(s, strict) == s,
    decreases s.len(),
{
    if s.len() > 0 {
        assert(s.skip(0) =~= s);
        assert(!spec_word_front(s.skip(0), strict));
        assert forall|i: int| 0 <= i <= s.drop_first().len() implies !(#[trigger] spec_word_front(
            s.drop_first().skip(i),
            strict,
        )) by {
            assert(s.drop_first().skip(i) =~= s.skip(i + 1));
            assert(!spec_word_front(s.skip(i + 1), strict));
        };
        lemma_pass_id(s.drop_first(), strict);
        assert(seq![s[0]] + s.drop_first() =~= s);
    }
}

/// Decoding an already-decoded plain value returns it unchanged.
pub proof fn lemma_decode_plain(s: Seq<char>)
    requires
        is_plain(s),
    ensures
        spec_decode_header(s) == s,
{
    assert forall|i: int| !spec_match_at(s, seq!['\r', '\n'], i) by {
        if spec_match_at(s, seq!['\r', '\n'], i) {
            assert(s.subrange(i + 1, i + 2) =~= seq!['\n']);
            assert(spec_match_at(s, seq!['\n'], i + 1));
        }
    };
    lemma_replace_id(s, seq!['\r', '\n'], Seq::<char>::empty());
    lemma_replace_id(s, seq!['\n'], Seq::<char>::empty());
    lemma_collapse_id(s);
    lemma_pass_id(s, true);
    lemma_pass_id(s, false);
}

/// Decoding is idempotent on any value whose decoded form is plain:
/// decoding a second time changes nothing.
pub proof fn lemma_decode_idempotent(s: Seq<char>)
    requires
        is_plain(spec_decode_header(s)),
    ensures
        spec_decode_header(spec_decode_header(s)) == spec_decode_header(s),
{
    lemma_decode_plain(spec_decode_header(s));
}

// ---------- executable scanners ----------

fn allowed_c(c: char, strict: bool) -> (r: bool)
    ensures
        r == allowed_cs(c, strict),
{
    c != '?' && (strict || c != ' ')
}

fn is_qb_c(c: char) -> (r: bool)
    ensures
        r == is_qb(c),
{
    c == 'Q' || c == 'q' || c == 'B' || c == 'b'
}

proof fn lemma_run_scan(s: Seq<char>, k: int, strict: bool)
    requires
        0 <= k <= s.len(),
        forall|t: int| 0 <= t < k ==> allowed_cs(s[t], strict),
        k == s.len() || !allowed_cs(s[k], strict),
    ensures
        spec_run_len(s, strict) == k,
    decreases k,
{
    if k > 0 {
        lemma_run_scan(s.drop_first(), k - 1, strict);
    }
}

proof fn lemma_ws_scan(s: Seq<char>, k: int)
    requires
        0 <= k <= s.len(),
        forall|t: int| 0 <= t < k ==> is_ws(s[t]),
        k == s.len() || !is_ws(s[k]),
    ensures
        spec_ws_len(s) == k,
    decreases k,
{
    if k > 0 {
        lemma_ws_scan(s.drop_first(), k - 1);
    }
}

/// Length of the run of allowed characters starting at `from`.
fn run_len_from(s: &Vec<char>, from: usize, strict: bool) -> (r: usize)
    requires
        from <= s@.len(),
    ensures
        r == spec_run_len(s@.skip(from as int), strict),
        from + r <= s@.len(),
{
    let n = s.len();
    let mut j = from;
    while j < n && allowed_c(s[j], strict)
        invariant
            n == s@.len(),
            from <= j <= n,
            forall|t: int| from <= t < j ==> allowed_cs(s@[t], strict),
        decreases n - j,
    {
        j = j + 1;
    }
    proof {
        let t = s@.skip(from as int);
        assert forall|x: int| 0 <= x < j - from implies allowed_cs(t[x], strict) by {
            assert(t[x] == s@[from + x]);
        };
        if (j - from) < t.len() {
            assert(t[j - from] == s@[j as int]);
        }
        lemma_run_scan(t, j - from, strict);
    }
    j - from
}

/// Length of the whitespace run starting at `from`.
fn ws_len_from(s: &Vec<char>, from: usize) -> (r: usize)
    requires
        from <= s@.len(),
    ensures
        r == spec_ws_len(s@.skip(from as int)),
        from + r <= s@.len(),
{
    let n = s.len();
    let mut j = from;
    while j < n && is_ws_c(s[j])
        invariant
            n == s@.len(),
            from <= j <= n,
            forall|t: int| from <= t < j ==> is_ws(s@[t]),
        decreases n - j,
    {
        j = j + 1;
    }
    proof {
        let t = s@.skip(from as int);
        assert forall|x: int| 0 <= x < j - from implies is_ws(t[x]) by {
            assert(t[x] == s@[from + x]);
        };
        if (j - from) < t.len() {
            assert(t[j - from] == s@[j as int]);
        }
        lemma_ws_scan(t, j - from);
    }
    j - from
}

// ---------- whitespace collapsing, executable ----------

proof fn lemma_collapse_step_match(s: Seq<char>, i: int)
    requires
        0 <= i <= s.len(),
        spec_gap_front(s.skip(i)),
    ensures
        spec_collapse(s.skip(i)) == seq!['?', '=', '=', '?'] + spec_collapse(
            s.skip(i + spec_gap_len(s.skip(i))),
        ),
        i + spec_gap_len(s.skip(i)) <= s.len(),
{
    let t = s.skip(i);
    let g = spec_gap_len(t);
    assert(t.skip(g) =~= s.skip(i + g));
}

proof fn lemma_collapse_step_char(s: Seq<char>, i: int)
    requires
        0 <= i < s.len(),
        !spec_gap_front(s.skip(i)),
    ensures
        spec_collapse(s.skip(i)) == seq![s[i]] + spec_collapse(s.skip(i + 1)),
{
    let t = s.skip(i);
    assert(t[0] == s[i]);
    assert(t.drop_first() =~= s.skip(i + 1));
}

/// One pass rewriting `?=<whitespace>=?` to `?==?`.
fn collapse_gaps(s: &Vec<char>) -> (r: Vec<char>)
    ensures
        r@ == spec_collapse(s@),
{
    let n = s.len();
    let mut out: Vec<char> = Vec::new();
    let mut i: usize = 0;
    proof {
        assert(s@.skip(0) =~= s@);
        assert(Seq::<char>::empty() + spec_collapse(s@) =~= spec_collapse(s@));
    }
    while i < n
        invariant
            n == s@.len(),
            i <= n,
            spec_collapse(s@) == out@ + spec_collapse(s@.skip(i as int)),
        decreases n - i,
    {
        let ghost t = s@.skip(i as int);
        let ghost prev = out@;
        let mut matched = false;
        if i + 1 < n && s[i] == '?' && s[i + 1] == '=' {
            let w = ws_len_from(s, i + 2);
            proof {
                assert(t.skip(2) =~= s@.skip(i + 2));
            }
            let g_end = i + 2 + w;
            if w >= 1 && g_end < n && g_end + 1 < n && s[g_end] == '=' && s[g_end + 1] == '?' {
                proof {
                    assert(t[0] == s@[i as int]);
                    assert(t[1] == s@[i + 1]);
                    assert(t[2 + w] == s@[g_end as int]);
                    assert(t[2 + w + 1] == s@[g_end + 1]);
                    assert(spec_gap_front(t));
                    lemma_collapse_step_match(s@, i as int);
                }
                out.push('?');
                out.push('=');
                out.push('=');
                out.push('?');
                proof {
                    assert(out@ =~= prev + seq!['?', '=', '=', '?']);
                    assert((prev + seq!['?', '=', '=', '?']) + spec_collapse(
                        s@.skip(i + spec_gap_len(t)),
                    ) =~= prev + (seq!['?', '=', '=', '?'] + spec_collapse(
                        s@.skip(i + spec_gap_len(t)),
                    )));
                }
                i = g_end + 2;
                matched = true;
            } else {
                proof {
                    assert(t[0] == s@[i as int]);
                    assert(t[1] == s@[i + 1]);
                    if 2 + w < t.len() {
                        assert(t[2 + w] == s@[g_end as int]);
                    }
                    if 2 + w + 1 < t.len() {
                        assert(t[2 + w + 1] == s@[g_end + 1]);
                    }
                    assert(!spec_gap_front(t));
                }
            }
        } else {
            proof {
                if t.len() >= 2 {
                    assert(t[0] == s@[i as int]);
                    assert(t[1] == s@[i + 1]);
                }
                assert(!spec_gap_front(t));
            }
        }
        if !matched {
            proof {
                lemma_collapse_step_char(s@, i as int);
            }
            out.push(s[i]);
            proof {
                assert(out@ =~= prev + seq![s@[i as int]]);
                assert((prev + seq![s@[i as int]]) + spec_collapse(s@.skip(i + 1)) =~= prev + (
                seq![s@[i as int]] + spec_collapse(s@.skip(i + 1))));
            }
            i = i + 1;
        }
    }
    proof {
        assert(s@.skip(n as int) =~= Seq::<char>::empty());
        assert(out@ + Seq::<char>::empty() =~= out@);
    }
    out
}

// ---------- encoded-word pass, executable ----------

/// Tries to read an encoded word starting at `i`; hands back its length,
/// its encoding letter and its data field.
fn try_word_at(s: &Vec<char>, i: usize, strict: bool) -> (r: Option<(usize, char, Vec<char>)>)
    requires
        i <= s@.len(),
    ensures
        match r {
            Option::Some(w) => {
                let t = s@.skip(i as int);
                &&& spec_word_front(t, strict)
                &&& w.0 == spec_word_len(t, strict)
                &&& 6 <= w.0
                &&& i + w.0 <= s@.len()
                &&& w.1 == spec_word_enc(t, strict)
                &&& is_qb(w.1)
                &&& w.2@ == spec_word_data(t, strict)
            },
            Option::None => !spec_word_front(s@.skip(i as int), strict),
        },
{
    let ghost t = s@.skip(i as int);
    let n = s.len();
    let b: usize = if strict {
        2
    } else {
        1
    };
    if strict {
        if !(i < n && i + 1 < n && s[i] == '=' && s[i + 1] == '?') {
            proof {
                if t.len() >= 2 {
                    assert(t[0] == s@[i as int]);
                    assert(t[1] == s@[i + 1]);
                }
            }
            return None;
        }
    } else {
        if !(i < n && s[i] == '?') {
            proof {
                if t.len() >= 1 {
                    assert(t[0] == s@[i as int]);
                }
            }
            return None;
        }
    }
    let cl = run_len_from(s, i + b, strict);
    proof {
        assert(t.skip(b as int) =~= s@.skip(i + b));
    }
    let p1 = i + b + cl;
    if !(cl >= 1 && p1 < n && s[p1] == '?') {
        proof {
            if b + cl < t.len() {
                assert(t[b + cl] == s@[p1 as int]);
            }
        }
        return None;
    }
    let e = p1 + 1;
    if !(e < n && is_qb_c(s[e])) {
        proof {
            if b + cl + 1 < t.len() {
                assert(t[b + cl + 1] == s@[e as int]);
            }
        }
        return None;
    }
    if !(e + 1 < n && s[e + 1] == '?') {
        proof {
            assert(t[b + cl] == s@[p1 as int]);
            assert(t[b + cl + 1] == s@[e as int]);
            if b + cl + 2 < t.len() {
                assert(t[b + cl + 2] == s@[e + 1]);
            }
        }
        return None;
    }
    let ds = e + 2;
    let dl = run_len_from(s, ds, strict);
    proof {
        assert(t.skip(b + cl + 3) =~= s@.skip(ds as int));
    }
    let q = ds + dl;
    if !(q < n && s[q] == '?' && q + 1 < n && s[q + 1] == '=') {
        proof {
            assert(t[b + cl] == s@[p1 as int]);
            assert(t[b + cl + 1] == s@[e as int]);
            assert(t[b + cl + 2] == s@[e + 1]);
            if b + cl + 3 + dl < t.len() {
                assert(t[b + cl + 3 + dl] == s@[q as int]);
            }
            if b + cl + 3 + dl + 1 < t.len() {
                assert(t[b + cl + 3 + dl + 1] == s@[q + 1]);
            }
        }
        return None;
    }
    let data = slice_to_vec(slice_subrange(s.as_slice(), ds, q));
    proof {
        assert(t[0] == s@[i as int]);
        if strict {
            assert(t[1] == s@[i + 1]);
        }
        assert(t[b + cl] == s@[p1 as int]);
        assert(t[b + cl + 1] == s@[e as int]);
        assert(t[b + cl + 2] == s@[e + 1]);
        assert(t[b + cl + 3 + dl] == s@[q as int]);
        assert(t[b + cl + 3 + dl + 1] == s@[q + 1]);
        assert(spec_word_front(t, strict));
        assert(t.subrange(b + cl + 3, b + cl + 3 + dl) =~= s@.subrange(ds as int, q as int));
    }
    Some((q + 2 - i, s[e], data))
}

/// What one encoded word decodes to; the token is kept on a decoder error.
fn decode_word(tok: &Vec<char>, enc: char, data: &Vec<char>) -> (r: Vec<char>)
    requires
        is_qb(enc),
    ensures
        r@ == spec_word_repl(tok@, enc, data@),
{
    if enc == 'Q' || enc == 'q' {
        let mut us: Vec<char> = Vec::new();
        us.push('_');
        let mut sp: Vec<char> = Vec::new();
        sp.push(' ');
        proof {
            assert(us@ =~= seq!['_']);
            assert(sp@ =~= seq![' ']);
        }
        let rep = replace_c(data, &us, &sp);
        let qs = chars_to_string(&rep);
        match qp_decode_robust(qs.as_str()) {
            Some(bs) => {
                let ls = utf8_lossy(bs.as_slice());
                to_chars(ls.as_str())
            },
            None => slice_to_vec(tok.as_slice()),
        }
    } else {
        let dstr = chars_to_string(data);
        match b64_decode_std(dstr.as_str()) {
            Some(bs) => {
                let ls = utf8_lossy(bs.as_slice());
                to_chars(ls.as_str())
            },
            None => slice_to_vec(tok.as_slice()),
        }
    }
}

proof fn lemma_pass_step_match(s: Seq<char>, strict: bool, i: int)
    requires
        0 <= i <= s.len(),
        spec_word_front(s.skip(i), strict),
        i + spec_word_len(s.skip(i), strict) <= s.len(),
    ensures
        spec_decode_pass(s.skip(i), strict) == spec_word_repl(
            s.skip(i).take(spec_word_len(s.skip(i), strict)),
            spec_word_enc(s.skip(i), strict),
            spec_word_data(s.skip(i), strict),
        ) + spec_decode_pass(s.skip(i + spec_word_len(s.skip(i), strict)), strict),
{
    let t = s.skip(i);
    let l = spec_word_len(t, strict);
    assert(t.skip(l) =~= s.skip(i + l));
}

proof fn lemma_pass_step_char(s: Seq<char>, strict: bool, i: int)
    requires
        0 <= i < s.len(),
        !spec_word_front(s.skip(i), strict),
    ensures
        spec_decode_pass(s.skip(i), strict) == seq![s[i]] + spec_decode_pass(
            s.skip(i + 1),
            strict,
        ),
{
    let t = s.skip(i);
    assert(t[0] == s[i]);
    assert(t.drop_first() =~= s.skip(i + 1));
}

/// One pass over `s` decoding every encoded word of the given form.
fn decode_pass(s: &Vec<char>, strict: bool) -> (r: Vec<char>)
    ensures
        r@ == spec_decode_pass(s@, strict),
{
    let n = s.len();
    let mut out: Vec<char> = Vec::new();
    let mut i: usize = 0;
    proof {
        assert(s@.skip(0) =~= s@);
        assert(Seq::<char>::empty() + spec_decode_pass(s@, strict) =~= spec_decode_pass(
            s@,
            strict,
        ));
    }
    while i < n
        invariant
            n == s@.len(),
            i <= n,
            spec_decode_pass(s@, strict) == out@ + spec_decode_pass(s@.skip(i as int), strict),
        decreases n - i,
    {
        let ghost prev = out@;
        match try_word_at(s, i, strict) {
            Some((l, enc, data)) => {
                let tok = slice_to_vec(slice_subrange(s.as_slice(), i, i + l));
                let repl = decode_word(&tok, enc, &data);
                out.extend_from_slice(repl.as_slice());
                proof {
                    let t = s@.skip(i as int);
                    lemma_pass_step_match(s@, strict, i as int);
                    assert(tok@ =~= t.take(spec_word_len(t, strict)));
                    assert((prev + repl@) + spec_decode_pass(s@.skip(i + l), strict) =~= prev + (
                    repl@ + spec_decode_pass(s@.skip(i + l), strict)));
                }
                i = i + l;
            },
            None => {
                proof {
                    lemma_pass_step_char(s@, strict, i as int);
                }
                out.push(s[i]);
                proof {
                    assert(out@ =~= prev + seq![s@[i as int]]);
                    assert((prev + seq![s@[i as int]]) + spec_decode_pass(s@.skip(i + 1), strict)
                        =~= prev + (seq![s@[i as int]] + spec_decode_pass(s@.skip(i + 1), strict)));
                }
                i = i + 1;
            },
        }
    }
    proof {
        assert(s@.skip(n as int) =~= Seq::<char>::empty());
        assert(out@ + Seq::<char>::empty() =~= out@);
    }
    out
}

/// Decodes one header value: total, never fails, and leaves a plain value
/// (one with no line break and no encoded-word marker) unchanged.
pub fn decode_header_robust(value: &str) -> (r: String)
    ensures
        r@ == spec_decode_header(value@),
        is_plain(value@) ==> r@ == value@,
{
    let v = to_chars(value);
    let mut crlf: Vec<char> = Vec::new();
    crlf.push('\r');
    crlf.push('\n');
    let mut nl: Vec<char> = Vec::new();
    nl.push('\n');
    let empty: Vec<char> = Vec::new();
    proof {
        assert(crlf@ =~= seq!['\r', '\n']);
        assert(nl@ =~= seq!['\n']);
        assert(empty@ =~= Seq::<char>::empty());
    }
    let u1 = replace_c(&v, &crlf, &empty);
    let u2 = replace_c(&u1, &nl, &empty);
    let c = collapse_gaps(&u2);
    let p1 = decode_pass(&c, true);
    let p2 = decode_pass(&p1, false);
    proof {
        if is_plain(value@) {
            lemma_decode_plain(value@);
        }
    }
    chars_to_string(&p2)
}

} // verus!
