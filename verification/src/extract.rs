//! The metadata extractor: turns one raw message into a structured summary.
//! The MIME parser is consulted through named, trusted bridges; everything
//! around it — envelope stripping, the manual folded-header scan, the
//! best-of-two header policy, address and label parsing, snippet building —
//! is verified.

use vstd::prelude::*;
use vstd::slice::{slice_subrange, slice_to_vec};
use crate::bytes::{eq_bytes, find_byte, find_first_b, lemma_find_first_none,
    lemma_find_first_some, lower_bytes, spec_find_first, spec_trim_b, to_lower_bytes, trim_b};
use crate::codec::{lowercase, lower_of, utf8_lossy, utf8_lossy_of};
use crate::headers::{decode_header_robust, spec_decode_header};
use crate::mime::{mime_header_text, mime_parses, PartV};
use crate::model::{entry_wf, AttachmentMetadata, AttV, MetadataEntry};
use crate::segment::from_marker;
use vstd::string::StringExecFns;
use crate::text::{chars_to_string, contains_c, find_char, lemma_find_c_in_range,
    lemma_find_c_none, lemma_find_c_some, lemma_find_sub_cs_in_range, lemma_find_sub_cs_none,
    lemma_find_sub_cs_some, lemma_match_at_shift, match_at_c, replace_c, spec_find_c,
    spec_find_sub_cs, spec_has_sub, spec_match_at, spec_replace, spec_starts_with, spec_trim,
    starts_with_c, to_chars, trim_c};

verus! {

// ---------- stripping the envelope prefix ----------

/// A leading line that is dropped before MIME parsing: an envelope marker
/// line, a blank line, or a carriage-return blank line.
pub open spec fn is_env_prefix(d: Seq<u8>) -> bool {
    spec_starts_with(d, from_marker()) || (d.len() >= 1 && d[0] == 10) || spec_starts_with(
        d,
        seq![13u8, 10u8],
    )
}

pub open spec fn has_nl(d: Seq<u8>) -> bool {
    exists|i: int| 0 <= i < d.len() && d[i] == 10
}

/// Everything after the first newline.
pub open spec fn drop_line(d: Seq<u8>) -> Seq<u8>
    decreases d.len(),
{
    if d.len() == 0 {
        d
    } else if d[0] == 10 {
        d.skip(1)
    } else {
        drop_line(d.skip(1))
    }
}

proof fn lemma_drop_line_le(d: Seq<u8>)
    ensures
        drop_line(d).len() <= d.len(),
    decreases d.len(),
{
    if d.len() > 0 && d[0] != 10 {
        lemma_drop_line_le(d.skip(1));
    }
}

proof fn lemma_drop_line_scan(s: Seq<u8>, p: int)
    requires
        0 <= p < s.len(),
        s[p] == 10,
        forall|j: int| 0 <= j < p ==> s[j] != 10,
    ensures
        drop_line(s) == s.skip(p + 1),
    decreases p,
{
    if p == 0 {
    } else {
        lemma_drop_line_scan(s.skip(1), p - 1);
        assert(s.skip(1).skip(p) =~= s.skip(p + 1));
    }
}

/// The message bytes with leading envelope and blank lines removed; a
/// remainder without a newline is kept as it is.
pub open spec fn spec_strip_envelope(d: Seq<u8>) -> Seq<u8>
    decreases d.len(),
    via strip_env_dec
{
    if is_env_prefix(d) && has_nl(d) {
        spec_strip_envelope(drop_line(d))
    } else {
        d
    }
}

#[via_fn]
proof fn strip_env_dec(d: Seq<u8>) {
    if is_env_prefix(d) && has_nl(d) {
        lemma_drop_line_le(d);
        if d[0] == 10 {
        } else {
            lemma_drop_line_le(d.skip(1));
        }
    }
}

/// The offset where the stripped message starts.
pub fn strip_envelope(d: &[u8]) -> (k: usize)
    ensures
        k <= d@.len(),
        d@.skip(k as int) == spec_strip_envelope(d@),
{
    let n = d.len();
    let mut marker: Vec<u8> = Vec::new();
    marker.push(70u8);
    marker.push(114u8);
    marker.push(111u8);
    marker.push(109u8);
    marker.push(32u8);
    let mut crlf: Vec<u8> = Vec::new();
    crlf.push(13u8);
    crlf.push(10u8);
    proof {
        assert(marker@ =~= from_marker());
        assert(crlf@ =~= seq![13u8, 10u8]);
        assert(d@.skip(0) =~= d@);
    }
    let mut k: usize = 0;
    loop
        invariant
            k <= n,
            n == d@.len(),
            marker@ == from_marker(),
            crlf@ == seq![13u8, 10u8],
            spec_strip_envelope(d@) == spec_strip_envelope(d@.skip(k as int)),
        decreases n - k,
    {
        let rest = slice_subrange(d, k, n);
        proof {
            assert(rest@ =~= d@.skip(k as int));
        }
        let env = crate::bytes::starts_with_b(rest, marker.as_slice()) || (k < n && d[k] == 10)
            || crate::bytes::starts_with_b(rest, crlf.as_slice());
        proof {
            if k < n {
                assert(d@.skip(k as int)[0] == d@[k as int]);
            }
            assert(env == is_env_prefix(d@.skip(k as int)));
        }
        if !env {
            return k;
        }
        match find_byte(d, k, 10u8) {
            Some(p) => {
                proof {
                    let t = d@.skip(k as int);
                    assert(t[p - k] == d@[p as int]);
                    assert(has_nl(t));
                    assert forall|j: int| 0 <= j < p - k implies t[j] != 10 by {
                        assert(t[j] == d@[k + j]);
                    };
                    lemma_drop_line_scan(t, p - k);
                    assert(t.skip(p - k + 1) =~= d@.skip(p + 1));
                }
                k = p + 1;
            },
            None => {
                proof {
                    let t = d@.skip(k as int);
                    assert forall|j: int| 0 <= j < t.len() implies t[j] != 10 by {
                        assert(t[j] == d@[k + j]);
                    };
                    assert(!has_nl(t));
                }
                return k;
            },
        }
    }
}

// ---------- locating the header/body boundary ----------

/// One past the first blank line: after `\r\n\r\n` if present, else after
/// `\n\n`, else the whole message.
pub open spec fn spec_header_end(d: Seq<u8>) -> int {
    match spec_find_first(d, seq![13u8, 10u8, 13u8, 10u8], 0) {
        Option::Some(p) => p + 4,
        Option::None => match spec_find_first(d, seq![10u8, 10u8], 0) {
            Option::Some(p) => p + 2,
            Option::None => d.len() as int,
        },
    }
}

pub fn header_end(d: &[u8]) -> (r: usize)
    ensures
        r == spec_header_end(d@),
        r <= d@.len(),
{
    let mut crlf2: Vec<u8> = Vec::new();
    crlf2.push(13u8);
    crlf2.push(10u8);
    crlf2.push(13u8);
    crlf2.push(10u8);
    let mut nl2: Vec<u8> = Vec::new();
    nl2.push(10u8);
    nl2.push(10u8);
    proof {
        assert(crlf2@ =~= seq![13u8, 10u8, 13u8, 10u8]);
        assert(nl2@ =~= seq![10u8, 10u8]);
    }
    let n = d.len();
    match find_first_b(d, crlf2.as_slice(), 0) {
        Some(p) => p + 4,
        None => match find_first_b(d, nl2.as_slice(), 0) {
            Some(p) => p + 2,
            None => n,
        },
    }
}

// ---------- splitting header text into logical lines ----------

/// A line with one trailing carriage return removed.
pub open spec fn strip_cr(line: Seq<u8>) -> Seq<u8> {
    if line.len() > 0 && line[line.len() - 1] == 13 {
        line.drop_last()
    } else {
        line
    }
}

/// The lines of `d`: split at each newline, a carriage return before the
/// newline stripped; a final fragment without a newline is its own line.
pub open spec fn spec_lines(d: Seq<u8>) -> Seq<Seq<u8>>
    decreases d.len(),
    via lines_dec
{
    if d.len() == 0 {
        Seq::<Seq<u8>>::empty()
    } else {
        match spec_find_first(d, seq![10u8], 0) {
            Option::Some(p) => seq![strip_cr(d.take(p))] + spec_lines(d.skip(p + 1)),
            Option::None => seq![d],
        }
    }
}

proof fn lemma_find_first_in_range(d: Seq<u8>, pat: Seq<u8>, i: int)
    requires
        0 <= i <= d.len(),
    ensures
        match spec_find_first(d, pat, i) {
            Option::Some(p) => i <= p && p + pat.len() <= d.len() && p < d.len(),
            Option::None => true,
        },
    decreases d.len() - i,
{
    if !(i >= d.len() || i + pat.len() > d.len()) && !spec_match_at(d, pat, i) {
        lemma_find_first_in_range(d, pat, i + 1);
    }
}

#[via_fn]
proof fn lines_dec(d: Seq<u8>) {
    if d.len() > 0 {
        lemma_find_first_in_range(d, seq![10u8], 0);
    }
}

/// A single-byte pattern matches exactly where that byte stands.
proof fn lemma_single_match(s: Seq<u8>, b: u8, j: int)
    ensures
        spec_match_at(s, seq![b], j) <==> (0 <= j < s.len() && s[j] == b),
{
    if 0 <= j < s.len() {
        assert(s.subrange(j, j + 1) =~= seq![s[j]]);
        if s[j] == b {
            assert(s.subrange(j, j + 1) =~= seq![b]);
        } else {
            assert(s.subrange(j, j + 1)[0] == s[j]);
        }
    }
}

/// The bytes of the line `d[a..b]`, with one trailing carriage return
/// stripped.
fn take_line(d: &[u8], a: usize, b: usize) -> (r: Vec<u8>)
    requires
        a <= b <= d@.len(),
    ensures
        r@ == strip_cr(d@.subrange(a as int, b as int)),
{
    if b > a && d[b - 1] == 13u8 {
        proof {
            assert(d@.subrange(a as int, b as int).drop_last() =~= d@.subrange(
                a as int,
                b - 1,
            ));
            assert(d@.subrange(a as int, b as int).last() == d@[b - 1]);
        }
        slice_to_vec(slice_subrange(d, a, b - 1))
    } else {
        proof {
            if b > a {
                assert(d@.subrange(a as int, b as int).last() == d@[b - 1]);
            }
        }
        slice_to_vec(slice_subrange(d, a, b))
    }
}

pub fn split_lines(d: &[u8]) -> (r: Vec<Vec<u8>>)
    ensures
        r.deep_view() == spec_lines(d@),
{
    let n = d.len();
    let mut out: Vec<Vec<u8>> = Vec::new();
    let mut k: usize = 0;
    proof {
        assert(d@.skip(0) =~= d@);
        assert(Seq::<Seq<u8>>::empty() + spec_lines(d@) =~= spec_lines(d@));
    }
    loop
        invariant
            k <= n,
            n == d@.len(),
            spec_lines(d@) == out.deep_view() + spec_lines(d@.skip(k as int)),
        decreases n - k,
    {
        let ghost prev = out.deep_view();
        if k == n {
            proof {
                assert(spec_lines(d@.skip(k as int)) =~= Seq::<Seq<u8>>::empty());
                assert(out.deep_view() + Seq::<Seq<u8>>::empty() =~= out.deep_view());
            }
            return out;
        }
        let ghost t = d@.skip(k as int);
        match find_byte(d, k, 10u8) {
            Some(p) => {
                let line = take_line(d, k, p);
                let ghost linev = line@;
                out.push(line);
                proof {
                    // the relative first newline drives the spec unfolding
                    lemma_single_match(t, 10u8, p - k);
                    assert(t[p - k] == d@[p as int]);
                    assert forall|j: int| 0 <= j < p - k implies !spec_match_at(t, seq![10u8], j)
                    by {
                        lemma_single_match(t, 10u8, j);
                        assert(t[j] == d@[k + j]);
                        lemma_single_match(d@, 10u8, k + j);
                        assert(!spec_match_at(d@, seq![10u8], k + j));
                    };
                    lemma_find_first_some(t, seq![10u8], 0, p - k);
                    assert(t.take(p - k) =~= d@.subrange(k as int, p as int));
                    assert(t.skip(p - k + 1) =~= d@.skip(p + 1));
                    assert(out.deep_view() =~~= prev.push(linev));
                    assert(prev.push(linev) =~= prev + seq![linev]);
                    assert((prev + seq![linev]) + spec_lines(d@.skip(p + 1)) =~= prev + (
                    seq![linev] + spec_lines(d@.skip(p + 1))));
                }
                k = p + 1;
            },
            None => {
                let line = slice_to_vec(slice_subrange(d, k, n));
                let ghost linev = line@;
                out.push(line);
                proof {
                    assert forall|j: int| 0 <= j implies !spec_match_at(t, seq![10u8], j) by {
                        lemma_single_match(t, 10u8, j);
                        if 0 <= j < t.len() {
                            assert(t[j] == d@[k + j]);
                            lemma_single_match(d@, 10u8, k + j);
                            assert(!spec_match_at(d@, seq![10u8], k + j));
                        }
                    };
                    lemma_find_first_none(t, seq![10u8], 0);
                    assert(linev =~= t);
                    assert(out.deep_view() =~~= prev.push(linev));
                    assert(prev.push(linev) =~= prev + seq![linev]);
                    assert(spec_lines(t) == seq![t]);
                    assert(d@.skip(n as int) =~= Seq::<u8>::empty());
                    assert(spec_lines(d@.skip(n as int)) =~= Seq::<Seq<u8>>::empty());
                    assert((prev + seq![t]) + Seq::<Seq<u8>>::empty() =~= prev + seq![t]);
                }
                k = n;
            },
        }
    }
}

// ---------- the folded header scan ----------

/// One step of the manual header scan over the logical lines: continuation
/// lines (leading blank or tab) extend the current header's value with a
/// single joining space; any other line closes it and, when it holds a
/// colon, opens a new one with a lowercased name and a trimmed value. Later
/// headers of the same name shadow earlier ones.
pub open spec fn spec_scan(
    lines: Seq<Seq<u8>>,
    i: int,
    cur: Option<(Seq<u8>, Seq<u8>)>,
    acc: Seq<(Seq<u8>, Seq<u8>)>,
) -> Seq<(Seq<u8>, Seq<u8>)>
    decreases lines.len() - i,
    when 0 <= i <= lines.len()
{
    if i >= lines.len() {
        match cur {
            Option::Some(kv) => acc.push(kv),
            Option::None => acc,
        }
    } else {
        let line = lines[i];
        if line.len() > 0 && (line[0] == 32 || line[0] == 9) {
            match cur {
                Option::Some(kv) => spec_scan(
                    lines,
                    i + 1,
                    Option::Some((kv.0, kv.1 + seq![32u8] + spec_trim_b(line))),
                    acc,
                ),
                Option::None => spec_scan(lines, i + 1, Option::None, acc),
            }
        } else {
            let acc2 = match cur {
                Option::Some(kv) => acc.push(kv),
                Option::None => acc,
            };
            match spec_find_first(line, seq![58u8], 0) {
                Option::Some(p) => spec_scan(
                    lines,
                    i + 1,
                    Option::Some((lower_bytes(line.take(p)), spec_trim_b(line.skip(p + 1)))),
                    acc2,
                ),
                Option::None => spec_scan(lines, i + 1, Option::None, acc2),
            }
        }
    }
}

/// The scanned headers of a header block.
pub open spec fn spec_manual_headers(hd: Seq<u8>) -> Seq<(Seq<u8>, Seq<u8>)> {
    spec_scan(spec_lines(hd), 0, Option::None, Seq::<(Seq<u8>, Seq<u8>)>::empty())
}

fn find_colon(line: &[u8]) -> (r: Option<usize>)
    ensures
        match r {
            Option::Some(p) => spec_find_first(line@, seq![58u8], 0) == Option::Some(p as int)
                && p < line@.len(),
            Option::None => spec_find_first(line@, seq![58u8], 0) is None,
        },
{
    match find_byte(line, 0, 58u8) {
        Some(p) => {
            proof {
                lemma_single_match(line@, 58u8, p as int);
                assert forall|j: int| 0 <= j < p implies !spec_match_at(line@, seq![58u8], j) by {
                    lemma_single_match(line@, 58u8, j);
                };
                lemma_find_first_some(line@, seq![58u8], 0, p as int);
            }
            Some(p)
        },
        None => {
            proof {
                assert forall|j: int| 0 <= j implies !spec_match_at(line@, seq![58u8], j) by {
                    lemma_single_match(line@, 58u8, j);
                };
                lemma_find_first_none(line@, seq![58u8], 0);
            }
            None
        },
    }
}

/// Scans a header block into (lowercased name, folded value) pairs.
pub fn scan_headers(hd: &[u8]) -> (r: Vec<(Vec<u8>, Vec<u8>)>)
    ensures
        r.deep_view() == spec_manual_headers(hd@),
{
    let lines = split_lines(hd);
    let n = lines.len();
    let mut acc: Vec<(Vec<u8>, Vec<u8>)> = Vec::new();
    let mut cur: Option<(Vec<u8>, Vec<u8>)> = None;
    let mut i: usize = 0;
    proof {
        assert(acc.deep_view() =~= Seq::<(Seq<u8>, Seq<u8>)>::empty());
        assert(cur.deep_view() == Option::<(Seq<u8>, Seq<u8>)>::None);
    }
    while i < n
        invariant
            i <= n,
            n == lines@.len(),
            lines.deep_view() == spec_lines(hd@),
            spec_manual_headers(hd@) == spec_scan(
                lines.deep_view(),
                i as int,
                cur.deep_view(),
                acc.deep_view(),
            ),
        decreases n - i,
    {
        let ghost lv = lines.deep_view();
        let ghost curv = cur.deep_view();
        let ghost accv = acc.deep_view();
        let line = &lines[i];
        proof {
            assert(lv[i as int] == lines@[i as int].deep_view());
            assert(lv[i as int] =~= line@);
        }
        if line.len() > 0 && (line[0] == 32u8 || line[0] == 9u8) {
            let taken = cur.take();
            match taken {
                Some(kv) => {
                    let ghost kvv = kv.deep_view();
                    let (kk, mut vv) = kv;
                    let ghost vv0 = vv@;
                    vv.push(32u8);
                    let tl = trim_b(line.as_slice());
                    vv.extend_from_slice(tl.as_slice());
                    proof {
                        assert(kvv == (kk.deep_view(), vv0));
                        assert(curv == Option::Some(kvv));
                        assert(vv@ =~= kvv.1 + seq![32u8] + spec_trim_b(line@));
                    }
                    cur = Some((kk, vv));
                    proof {
                        assert(cur.deep_view() == Option::Some(
                            (kvv.0, kvv.1 + seq![32u8] + spec_trim_b(lv[i as int])),
                        ));
                    }
                },
                None => {
                    cur = None;
                },
            }
        } else {
            let taken = cur.take();
            match taken {
                Some(kv) => {
                    let ghost kvv = kv.deep_view();
                    proof {
                        assert(curv == Option::Some(kvv));
                    }
                    acc.push(kv);
                    proof {
                        assert(acc.deep_view() =~~= accv.push(kvv));
                    }
                },
                None => {},
            }
            match find_colon(line.as_slice()) {
                Some(p) => {
                    let key = to_lower_bytes(slice_subrange(line.as_slice(), 0, p));
                    let val = trim_b(slice_subrange(line.as_slice(), p + 1, line.len()));
                    proof {
                        assert(line@.subrange(0, p as int) =~= line@.take(p as int));
                        assert(line@.subrange(p + 1, line@.len() as int) =~= line@.skip(p + 1));
                    }
                    cur = Some((key, val));
                    proof {
                        assert(cur.deep_view() == Option::Some(
                            (
                                lower_bytes(lv[i as int].take(p as int)),
                                spec_trim_b(lv[i as int].skip(p + 1)),
                            ),
                        ));
                    }
                },
                None => {
                    cur = None;
                },
            }
        }
        proof {
            assert(spec_scan(lv, i as int, curv, accv) == spec_scan(
                lv,
                i + 1,
                cur.deep_view(),
                acc.deep_view(),
            ));
        }
        i = i + 1;
    }
    let taken = cur.take();
    let ghost curv = cur.deep_view();
    let ghost accv = acc.deep_view();
    match taken {
        Some(kv) => {
            let ghost kvv = kv.deep_view();
            acc.push(kv);
            proof {
                assert(acc.deep_view() =~~= accv.push(kvv));
            }
        },
        None => {},
    }
    acc
}

/// The last scanned value under `key`, if any: a later header of the same
/// name shadows an earlier one.
pub open spec fn spec_lookup_last(entries: Seq<(Seq<u8>, Seq<u8>)>, key: Seq<u8>) -> Option<
    Seq<u8>,
>
    decreases entries.len(),
{
    if entries.len() == 0 {
        Option::<Seq<u8>>::None
    } else if entries.last().0 == key {
        Option::Some(entries.last().1)
    } else {
        spec_lookup_last(entries.drop_last(), key)
    }
}

pub fn lookup_header(hs: &Vec<(Vec<u8>, Vec<u8>)>, key: &[u8]) -> (r: Option<Vec<u8>>)
    ensures
        match r {
            Option::Some(v) => spec_lookup_last(hs.deep_view(), key@) == Option::Some(v@),
            Option::None => spec_lookup_last(hs.deep_view(), key@) is None,
        },
{
    let ghost full = hs.deep_view();
    let mut i = hs.len();
    proof {
        assert(full.take(hs@.len() as int) =~= full);
    }
    loop
        invariant
            i <= hs@.len(),
            full == hs.deep_view(),
            full.len() == hs@.len(),
            spec_lookup_last(full, key@) == spec_lookup_last(full.take(i as int), key@),
        decreases i,
    {
        if i == 0 {
            proof {
                assert(full.take(0) =~= Seq::<(Seq<u8>, Seq<u8>)>::empty());
            }
            return None;
        }
        i = i - 1;
        proof {
            assert(full.take(i + 1).drop_last() =~= full.take(i as int));
            assert(full.take(i + 1).last() == full[i as int]);
            assert(full[i as int] == hs@[i as int].deep_view());
            assert(full[i as int].0 =~= hs@[i as int].0@);
            assert(full[i as int].1 =~= hs@[i as int].1@);
            assert(spec_lookup_last(full, key@) == spec_lookup_last(full.take(i + 1), key@));
        }
        if eq_bytes(hs[i].0.as_slice(), key) {
            return Some(slice_to_vec(hs[i].1.as_slice()));
        }
    }
}

// ---------- the best-of-two header policy ----------

/// The raw value used for a header: the first non-empty of the MIME
/// parser's text and the manually scanned value read as lossy UTF-8; when
/// the parser's value is empty and no scanned value exists, that empty
/// value stands.
pub open spec fn spec_best_raw(
    d2: Seq<u8>,
    hdrs: Seq<(Seq<u8>, Seq<u8>)>,
    name: Seq<char>,
    key: Seq<u8>,
) -> Option<Seq<char>> {
    match crate::mime::mime_header_of(d2, name) {
        Option::Some(t) => if t.len() > 0 {
            Option::Some(t)
        } else {
            match spec_lookup_last(hdrs, key) {
                Option::Some(v) => Option::Some(utf8_lossy_of(v)),
                Option::None => Option::Some(t),
            }
        },
        Option::None => match spec_lookup_last(hdrs, key) {
            Option::Some(v) => Option::Some(utf8_lossy_of(v)),
            Option::None => Option::<Seq<char>>::None,
        },
    }
}

/// The header value handed onward: the best raw value, decoded.
pub open spec fn spec_best(
    d2: Seq<u8>,
    hdrs: Seq<(Seq<u8>, Seq<u8>)>,
    name: Seq<char>,
    key: Seq<u8>,
) -> Option<Seq<char>> {
    match spec_best_raw(d2, hdrs, name, key) {
        Option::Some(t) => Option::Some(spec_decode_header(t)),
        Option::None => Option::<Seq<char>>::None,
    }
}

/// Takes the first non-empty of the parser-provided and manually scanned
/// values of a header, decoded.
pub fn best_header(
    d2: &[u8],
    hdrs: &Vec<(Vec<u8>, Vec<u8>)>,
    name: &str,
    key: &[u8],
) -> (r: Option<String>)
    ensures
        r.deep_view() == spec_best(d2@, hdrs.deep_view(), name@, key@),
{
    match mime_header_text(d2, name) {
        Some(t) => {
            if !t.as_str().is_empty() {
                Some(decode_header_robust(t.as_str()))
            } else {
                match lookup_header(hdrs, key) {
                    Some(v) => {
                        let s = utf8_lossy(v.as_slice());
                        Some(decode_header_robust(s.as_str()))
                    },
                    None => Some(decode_header_robust(t.as_str())),
                }
            }
        },
        None => match lookup_header(hdrs, key) {
            Some(v) => {
                let s = utf8_lossy(v.as_slice());
                Some(decode_header_robust(s.as_str()))
            },
            None => None,
        },
    }
}

// ---------- address extraction ----------

/// The address inside the first `<...>` pair, else the whole value trimmed.
pub open spec fn spec_get_address(s: Seq<char>) -> Seq<char> {
    match spec_find_c(s, '<', 0) {
        Option::Some(i) => match spec_find_c(s, '>', i) {
            Option::Some(j) => s.subrange(i + 1, j),
            Option::None => spec_trim(s),
        },
        Option::None => spec_trim(s),
    }
}

pub fn get_address(s: &Vec<char>) -> (r: Vec<char>)
    ensures
        r@ == spec_get_address(s@),
{
    match find_char(s, '<', 0) {
        Some(i) => match find_char(s, '>', i) {
            Some(j) => {
                proof {
                    assert(s@[i as int] == '<');
                    assert(s@[j as int] == '>');
                }
                slice_to_vec(slice_subrange(s.as_slice(), i + 1, j))
            },
            None => trim_c(s),
        },
        None => trim_c(s),
    }
}

/// The pieces of `s` between commas, in order, empties kept.
pub open spec fn spec_split_commas(s: Seq<char>) -> Seq<Seq<char>>
    decreases s.len(),
    via split_commas_dec
{
    match spec_find_c(s, ',', 0) {
        Option::Some(p) => seq![s.take(p)] + spec_split_commas(s.skip(p + 1)),
        Option::None => seq![s],
    }
}

#[via_fn]
proof fn split_commas_dec(s: Seq<char>) {
    lemma_find_c_in_range(s, ',', 0);
}

pub fn split_commas(s: &Vec<char>) -> (r: Vec<Vec<char>>)
    ensures
        r.deep_view() == spec_split_commas(s@),
{
    let n = s.len();
    let mut out: Vec<Vec<char>> = Vec::new();
    let mut k: usize = 0;
    proof {
        assert(s@.skip(0) =~= s@);
        assert(Seq::<Seq<char>>::empty() + spec_split_commas(s@) =~= spec_split_commas(s@));
    }
    loop
        invariant
            k <= n,
            n == s@.len(),
            spec_split_commas(s@) == out.deep_view() + spec_split_commas(s@.skip(k as int)),
        decreases n + 1 - k,
    {
        let ghost prev = out.deep_view();
        let ghost t = s@.skip(k as int);
        match find_char(s, ',', k) {
            Some(p) => {
                let piece = slice_to_vec(slice_subrange(s.as_slice(), k, p));
                let ghost pv = piece@;
                out.push(piece);
                proof {
                    assert(t[p - k] == s@[p as int]);
                    assert forall|j: int| 0 <= j < p - k implies t[j] != ',' by {
                        assert(t[j] == s@[k + j]);
                    };
                    lemma_find_c_some(t, ',', 0, p - k);
                    assert(t.take(p - k) =~= s@.subrange(k as int, p as int));
                    assert(t.skip(p - k + 1) =~= s@.skip(p + 1));
                    assert(out.deep_view() =~~= prev.push(pv));
                    assert(prev.push(pv) =~= prev + seq![pv]);
                    assert((prev + seq![pv]) + spec_split_commas(s@.skip(p + 1)) =~= prev + (
                    seq![pv] + spec_split_commas(s@.skip(p + 1))));
                }
                k = p + 1;
            },
            None => {
                let piece = slice_to_vec(slice_subrange(s.as_slice(), k, n));
                let ghost pv = piece@;
                out.push(piece);
                proof {
                    assert forall|j: int| 0 <= j < t.len() implies t[j] != ',' by {
                        assert(t[j] == s@[k + j]);
                    };
                    lemma_find_c_none(t, ',', 0);
                    assert(pv =~= t);
                    assert(out.deep_view() =~~= prev.push(pv));
                    assert(prev.push(pv) =~= prev + seq![pv]);
                    assert(spec_split_commas(t) == seq![t]);
                    assert((prev + seq![t]) =~= prev + seq![t]);
                }
                return out;
            },
        }
    }
}

/// The addresses of a recipient header value: each comma piece trimmed, the
/// angle-bracket address taken, empties dropped, order kept.
pub open spec fn spec_addresses_from(pieces: Seq<Seq<char>>) -> Seq<Seq<char>>
    decreases pieces.len(),
{
    if pieces.len() == 0 {
        Seq::<Seq<char>>::empty()
    } else {
        let a = spec_get_address(spec_trim(pieces[0]));
        (if a.len() > 0 {
            seq![a]
        } else {
            Seq::<Seq<char>>::empty()
        }) + spec_addresses_from(pieces.drop_first())
    }
}

pub open spec fn spec_addresses(s: Seq<char>) -> Seq<Seq<char>> {
    spec_addresses_from(spec_split_commas(s))
}

pub fn split_addresses(s: &Vec<char>) -> (r: Vec<String>)
    ensures
        r.deep_view() == spec_addresses(s@),
{
    let pieces = split_commas(s);
    let ghost pv = pieces.deep_view();
    let n = pieces.len();
    let mut out: Vec<String> = Vec::new();
    proof {
        assert(pv.skip(0) =~= pv);
        assert(Seq::<Seq<char>>::empty() + spec_addresses_from(pv) =~= spec_addresses_from(pv));
    }
    let mut i: usize = 0;
    while i < n
        invariant
            i <= n,
            n == pieces@.len(),
            pv == pieces.deep_view(),
            pv.len() == n,
            spec_addresses_from(pv) == out.deep_view() + spec_addresses_from(pv.skip(i as int)),
        decreases n - i,
    {
        let ghost prev = out.deep_view();
        proof {
            assert(pv.skip(i as int)[0] == pv[i as int]);
            assert(pv.skip(i as int).drop_first() =~= pv.skip(i + 1));
            assert(pv[i as int] == pieces@[i as int].deep_view());
            assert(pv[i as int] =~= pieces@[i as int]@);
        }
        let a = get_address(&trim_c(&pieces[i]));
        if a.len() > 0 {
            let ghost av = a@;
            out.push(chars_to_string(&a));
            proof {
                assert(out.deep_view() =~~= prev.push(av));
                assert(prev.push(av) =~= prev + seq![av]);
                assert((prev + seq![av]) + spec_addresses_from(pv.skip(i + 1)) =~= prev + (
                seq![av] + spec_addresses_from(pv.skip(i + 1))));
            }
        } else {
            proof {
                assert(prev + (Seq::<Seq<char>>::empty() + spec_addresses_from(pv.skip(i + 1)))
                    =~= prev + spec_addresses_from(pv.skip(i + 1)));
            }
        }
        i = i + 1;
    }
    proof {
        assert(pv.skip(n as int) =~= Seq::<Seq<char>>::empty());
        assert(out.deep_view() + Seq::<Seq<char>>::empty() =~= out.deep_view());
    }
    out
}

// ---------- label parsing ----------

/// Control characters, as the Unicode control category gives them.
pub open spec fn is_ctrl(c: char) -> bool {
    (c as u32) < 32 || (127 <= (c as u32) && (c as u32) <= 159)
}

/// The characters of `s` with control characters dropped.
pub open spec fn spec_keep_printable(s: Seq<char>) -> Seq<char>
    decreases s.len(),
{
    if s.len() == 0 {
        Seq::<char>::empty()
    } else {
        (if is_ctrl(s[0]) {
            Seq::<char>::empty()
        } else {
            seq![s[0]]
        }) + spec_keep_printable(s.drop_first())
    }
}

fn is_ctrl_c(c: char) -> (r: bool)
    ensures
        r == is_ctrl(c),
{
    let u = c as u32;
    u < 32 || (127 <= u && u <= 159)
}

pub fn keep_printable(s: &Vec<char>) -> (r: Vec<char>)
    ensures
        r@ == spec_keep_printable(s@),
{
    let n = s.len();
    let mut out: Vec<char> = Vec::new();
    proof {
        assert(s@.skip(0) =~= s@);
        assert(Seq::<char>::empty() + spec_keep_printable(s@) =~= spec_keep_printable(s@));
    }
    let mut i: usize = 0;
    while i < n
        invariant
            i <= n,
            n == s@.len(),
            spec_keep_printable(s@) == out@ + spec_keep_printable(s@.skip(i as int)),
        decreases n - i,
    {
        let ghost prev = out@;
        proof {
            assert(s@.skip(i as int)[0] == s@[i as int]);
            assert(s@.skip(i as int).drop_first() =~= s@.skip(i + 1));
        }
        if !is_ctrl_c(s[i]) {
            out.push(s[i]);
            proof {
                assert(out@ =~= prev + seq![s@[i as int]]);
                assert((prev + seq![s@[i as int]]) + spec_keep_printable(s@.skip(i + 1)) =~= prev
                    + (seq![s@[i as int]] + spec_keep_printable(s@.skip(i + 1))));
            }
        } else {
            proof {
                assert(prev + (Seq::<char>::empty() + spec_keep_printable(s@.skip(i + 1))) =~=
                prev + spec_keep_printable(s@.skip(i + 1)));
            }
        }
        i = i + 1;
    }
    proof {
        assert(s@.skip(n as int) =~= Seq::<char>::empty());
        assert(out@ + Seq::<char>::empty() =~= out@);
    }
    out
}

/// One label candidate cleaned: trimmed, control characters dropped, double
/// spaces collapsed once, trimmed again.
pub open spec fn spec_label_clean(s: Seq<char>) -> Seq<char> {
    let f = spec_keep_printable(spec_trim(s));
    let g = if spec_has_sub(f, seq![' ', ' ']) {
        spec_replace(f, seq![' ', ' '], seq![' '])
    } else {
        f
    };
    spec_trim(g)
}

pub fn label_clean(s: &Vec<char>) -> (r: Vec<char>)
    ensures
        r@ == spec_label_clean(s@),
{
    let f = keep_printable(&trim_c(s));
    let mut two: Vec<char> = Vec::new();
    two.push(' ');
    two.push(' ');
    let mut one: Vec<char> = Vec::new();
    one.push(' ');
    proof {
        assert(two@ =~= seq![' ', ' ']);
        assert(one@ =~= seq![' ']);
    }
    let g = if contains_c(&f, &two) {
        replace_c(&f, &two, &one)
    } else {
        f
    };
    trim_c(&g)
}

pub open spec fn kategorie_marker() -> Seq<char> {
    seq!['k', 'a', 't', 'e', 'g', 'o', 'r', 'i', 'e']
}

pub open spec fn forward_marker() -> Seq<char> {
    seq!['f', 'o', 'r', 'w', 'a', 'r', 'd', ' ', 't', 'o']
}

/// Whether a cleaned label is kept: non-empty, and its lowercase form starts
/// with neither the category marker nor the forward-to marker.
pub open spec fn spec_label_keep(l: Seq<char>) -> bool {
    l.len() > 0 && !spec_starts_with(lower_of(l), kategorie_marker()) && !spec_starts_with(
        lower_of(l),
        forward_marker(),
    )
}

fn label_keep(l: &Vec<char>) -> (r: bool)
    ensures
        r == spec_label_keep(l@),
{
    if l.len() == 0 {
        return false;
    }
    let low = to_chars(lowercase(chars_to_string(l).as_str()).as_str());
    let mut kat: Vec<char> = Vec::new();
    kat.push('k');
    kat.push('a');
    kat.push('t');
    kat.push('e');
    kat.push('g');
    kat.push('o');
    kat.push('r');
    kat.push('i');
    kat.push('e');
    let mut fwd: Vec<char> = Vec::new();
    fwd.push('f');
    fwd.push('o');
    fwd.push('r');
    fwd.push('w');
    fwd.push('a');
    fwd.push('r');
    fwd.push('d');
    fwd.push(' ');
    fwd.push('t');
    fwd.push('o');
    proof {
        assert(kat@ =~= kategorie_marker());
        assert(fwd@ =~= forward_marker());
    }
    !starts_with_c(&low, &kat) && !starts_with_c(&low, &fwd)
}

/// The label list of a decoded `X-Gmail-Labels` value: comma pieces cleaned,
/// the kept ones in order, duplicates untouched.
pub open spec fn spec_labels_from(pieces: Seq<Seq<char>>) -> Seq<Seq<char>>
    decreases pieces.len(),
{
    if pieces.len() == 0 {
        Seq::<Seq<char>>::empty()
    } else {
        let c = spec_label_clean(pieces[0]);
        (if spec_label_keep(c) {
            seq![c]
        } else {
            Seq::<Seq<char>>::empty()
        }) + spec_labels_from(pieces.drop_first())
    }
}

pub open spec fn spec_labels(s: Seq<char>) -> Seq<Seq<char>> {
    spec_labels_from(spec_split_commas(s))
}

pub fn split_labels(s: &Vec<char>) -> (r: Vec<String>)
    ensures
        r.deep_view() == spec_labels(s@),
{
    let pieces = split_commas(s);
    let ghost pv = pieces.deep_view();
    let n = pieces.len();
    let mut out: Vec<String> = Vec::new();
    proof {
        assert(pv.skip(0) =~= pv);
        assert(Seq::<Seq<char>>::empty() + spec_labels_from(pv) =~= spec_labels_from(pv));
    }
    let mut i: usize = 0;
    while i < n
        invariant
            i <= n,
            n == pieces@.len(),
            pv == pieces.deep_view(),
            pv.len() == n,
            spec_labels_from(pv) == out.deep_view() + spec_labels_from(pv.skip(i as int)),
        decreases n - i,
    {
        let ghost prev = out.deep_view();
        proof {
            assert(pv.skip(i as int)[0] == pv[i as int]);
            assert(pv.skip(i as int).drop_first() =~= pv.skip(i + 1));
            assert(pv[i as int] == pieces@[i as int].deep_view());
            assert(pv[i as int] =~= pieces@[i as int]@);
        }
        let c = label_clean(&pieces[i]);
        if label_keep(&c) {
            let ghost cv = c@;
            out.push(chars_to_string(&c));
            proof {
                assert(out.deep_view() =~~= prev.push(cv));
                assert(prev.push(cv) =~= prev + seq![cv]);
                assert((prev + seq![cv]) + spec_labels_from(pv.skip(i + 1)) =~= prev + (seq![cv]
                    + spec_labels_from(pv.skip(i + 1))));
            }
        } else {
            proof {
                assert(prev + (Seq::<Seq<char>>::empty() + spec_labels_from(pv.skip(i + 1))) =~=
                prev + spec_labels_from(pv.skip(i + 1)));
            }
        }
        i = i + 1;
    }
    proof {
        assert(pv.skip(n as int) =~= Seq::<Seq<char>>::empty());
        assert(out.deep_view() + Seq::<Seq<char>>::empty() =~= out.deep_view());
    }
    out
}

// ---------- HTML stripping and the snippet ----------

pub open spec fn script_open() -> Seq<char> {
    seq!['<', 's', 'c', 'r', 'i', 'p', 't']
}

pub open spec fn script_close() -> Seq<char> {
    seq!['<', '/', 's', 'c', 'r', 'i', 'p', 't', '>']
}

pub open spec fn style_open() -> Seq<char> {
    seq!['<', 's', 't', 'y', 'l', 'e']
}

pub open spec fn style_close() -> Seq<char> {
    seq!['<', '/', 's', 't', 'y', 'l', 'e', '>']
}

/// Where a block starting at the front of `s` ends (one past its closing
/// marker), if the front carries the opener and a closer follows.
pub open spec fn spec_block_end(s: Seq<char>, opener: Seq<char>, closer: Seq<char>) -> Option<
    int,
> {
    if opener.len() > 0 && closer.len() > 0 && spec_starts_with(s, opener) {
        match spec_find_sub_cs(s, closer, opener.len() as int) {
            Option::Some(q) => Option::Some(q + closer.len() as int),
            Option::None => Option::<int>::None,
        }
    } else {
        Option::<int>::None
    }
}

/// Removes every `opener ... closer` block, scanning left to right.
pub open spec fn spec_strip_blocks(s: Seq<char>, opener: Seq<char>, closer: Seq<char>) -> Seq<
    char,
>
    decreases s.len(),
    via strip_blocks_dec
{
    if s.len() == 0 {
        Seq::<char>::empty()
    } else {
        match spec_block_end(s, opener, closer) {
            Option::Some(e) => spec_strip_blocks(s.skip(e), opener, closer),
            Option::None => seq![s[0]] + spec_strip_blocks(s.drop_first(), opener, closer),
        }
    }
}

#[via_fn]
proof fn strip_blocks_dec(s: Seq<char>, opener: Seq<char>, closer: Seq<char>) {
    if s.len() > 0 && opener.len() > 0 && closer.len() > 0 && spec_starts_with(s, opener) {
        lemma_find_sub_cs_in_range(s, closer, opener.len() as int);
    }
}

fn strip_blocks(s: &Vec<char>, opener: &Vec<char>, closer: &Vec<char>) -> (r: Vec<char>)
    requires
        opener@.len() > 0,
        closer@.len() > 0,
    ensures
        r@ == spec_strip_blocks(s@, opener@, closer@),
{
    let n = s.len();
    let mut out: Vec<char> = Vec::new();
    proof {
        assert(s@.skip(0) =~= s@);
        assert(Seq::<char>::empty() + spec_strip_blocks(s@, opener@, closer@) =~=
        spec_strip_blocks(s@, opener@, closer@));
    }
    let mut i: usize = 0;
    while i < n
        invariant
            i <= n,
            n == s@.len(),
            opener@.len() > 0,
            closer@.len() > 0,
            spec_strip_blocks(s@, opener@, closer@) == out@ + spec_strip_blocks(
                s@.skip(i as int),
                opener@,
                closer@,
            ),
        decreases n - i,
    {
        let ghost t = s@.skip(i as int);
        let ghost prev = out@;
        let mut jumped = false;
        if opener.len() <= n - i && match_at_c(s, opener, i) {
            proof {
                lemma_match_at_shift(s@, opener@, i as int, 0);
                assert(t.skip(0) =~= t);
                assert(t.take(opener@.len() as int) =~= t.subrange(0, opener@.len() as int));
                assert(spec_starts_with(t, opener@));
            }
            match crate::text::find_sub_c(s, closer, i + opener.len()) {
                Some(q) => {
                    proof {
                        lemma_match_at_shift(s@, closer@, i as int, q - i);
                        assert forall|j: int| opener@.len() <= j < q - i implies !spec_match_at(
                            t,
                            closer@,
                            j,
                        ) by {
                            lemma_match_at_shift(s@, closer@, i as int, j);
                        };
                        lemma_find_sub_cs_some(t, closer@, opener@.len() as int, q - i);
                        assert(spec_block_end(t, opener@, closer@) == Option::Some(
                            q - i + closer@.len() as int,
                        ));
                        assert(t.skip(q - i + closer@.len() as int) =~= s@.skip(
                            q + closer@.len(),
                        ));
                    }
                    i = q + closer.len();
                    jumped = true;
                },
                None => {
                    proof {
                        assert forall|j: int| opener@.len() as int <= j implies !spec_match_at(
                            t,
                            closer@,
                            j,
                        ) by {
                            if j <= t.len() {
                                lemma_match_at_shift(s@, closer@, i as int, j);
                            }
                        };
                        lemma_find_sub_cs_none(t, closer@, opener@.len() as int);
                        assert(spec_block_end(t, opener@, closer@) is None);
                    }
                },
            }
        } else {
            proof {
                if spec_starts_with(t, opener@) {
                    lemma_match_at_shift(s@, opener@, i as int, 0);
                    assert(t.take(opener@.len() as int) =~= t.subrange(
                        0,
                        opener@.len() as int,
                    ));
                    assert(spec_match_at(s@, opener@, i as int));
                }
                assert(spec_block_end(t, opener@, closer@) is None);
            }
        }
        if !jumped {
            proof {
                assert(spec_block_end(t, opener@, closer@) is None);
                assert(t[0] == s@[i as int]);
                assert(t.drop_first() =~= s@.skip(i + 1));
            }
            out.push(s[i]);
            proof {
                assert(out@ =~= prev + seq![s@[i as int]]);
                assert((prev + seq![s@[i as int]]) + spec_strip_blocks(
                    s@.skip(i + 1),
                    opener@,
                    closer@,
                ) =~= prev + (seq![s@[i as int]] + spec_strip_blocks(
                    s@.skip(i + 1),
                    opener@,
                    closer@,
                )));
            }
            i = i + 1;
        }
    }
    proof {
        assert(s@.skip(n as int) =~= Seq::<char>::empty());
        assert(out@ + Seq::<char>::empty() =~= out@);
    }
    out
}

/// Removes every `<...>` tag: from each `<`, through the next `>`.
pub open spec fn spec_strip_tags(s: Seq<char>) -> Seq<char>
    decreases s.len(),
    via strip_tags_dec
{
    if s.len() == 0 {
        Seq::<char>::empty()
    } else if s[0] == '<' && spec_find_c(s, '>', 1) is Some {
        match spec_find_c(s, '>', 1) {
            Option::Some(q) => spec_strip_tags(s.skip(q + 1)),
            Option::None => Seq::<char>::empty(),
        }
    } else {
        seq![s[0]] + spec_strip_tags(s.drop_first())
    }
}

#[via_fn]
proof fn strip_tags_dec(s: Seq<char>) {
    if s.len() > 0 && s[0] == '<' {
        lemma_find_c_in_range(s, '>', 1);
    }
}

fn strip_tags(s: &Vec<char>) -> (r: Vec<char>)
    ensures
        r@ == spec_strip_tags(s@),
{
    let n = s.len();
    let mut out: Vec<char> = Vec::new();
    proof {
        assert(s@.skip(0) =~= s@);
        assert(Seq::<char>::empty() + spec_strip_tags(s@) =~= spec_strip_tags(s@));
    }
    let mut i: usize = 0;
    while i < n
        invariant
            i <= n,
            n == s@.len(),
            spec_strip_tags(s@) == out@ + spec_strip_tags(s@.skip(i as int)),
        decreases n - i,
    {
        let ghost t = s@.skip(i as int);
        let ghost prev = out@;
        let mut jumped = false;
        proof {
            assert(t[0] == s@[i as int]);
        }
        if s[i] == '<' {
            match find_char(s, '>', i + 1) {
                Some(q) => {
                    proof {
                        assert(t[q - i] == s@[q as int]);
                        assert forall|j: int| 1 <= j < q - i implies t[j] != '>' by {
                            assert(t[j] == s@[i + j]);
                        };
                        lemma_find_c_some(t, '>', 1, q - i);
                        assert(t.skip(q - i + 1) =~= s@.skip(q + 1));
                    }
                    i = q + 1;
                    jumped = true;
                },
                None => {
                    proof {
                        assert forall|j: int| 1 <= j < t.len() implies t[j] != '>' by {
                            assert(t[j] == s@[i + j]);
                        };
                        lemma_find_c_none(t, '>', 1);
                    }
                },
            }
        }
        if !jumped {
            proof {
                assert(t.drop_first() =~= s@.skip(i + 1));
            }
            out.push(s[i]);
            proof {
                assert(out@ =~= prev + seq![s@[i as int]]);
                assert((prev + seq![s@[i as int]]) + spec_strip_tags(s@.skip(i + 1)) =~= prev + (
                seq![s@[i as int]] + spec_strip_tags(s@.skip(i + 1))));
            }
            i = i + 1;
        }
    }
    proof {
        assert(s@.skip(n as int) =~= Seq::<char>::empty());
        assert(out@ + Seq::<char>::empty() =~= out@);
    }
    out
}

pub open spec fn nbsp_entity() -> Seq<char> {
    seq!['&', 'n', 'b', 's', 'p', ';']
}

pub open spec fn amp_entity() -> Seq<char> {
    seq!['&', 'a', 'm', 'p', ';']
}

pub open spec fn lt_entity() -> Seq<char> {
    seq!['&', 'l', 't', ';']
}

pub open spec fn gt_entity() -> Seq<char> {
    seq!['&', 'g', 't', ';']
}

pub open spec fn quot_entity() -> Seq<char> {
    seq!['&', 'q', 'u', 'o', 't', ';']
}

/// The small set of HTML entities unescaped, in a fixed order.
pub open spec fn spec_unescape(s: Seq<char>) -> Seq<char> {
    spec_replace(
        spec_replace(
            spec_replace(
                spec_replace(spec_replace(s, nbsp_entity(), seq![' ']), amp_entity(), seq!['&']),
                lt_entity(),
                seq!['<'],
            ),
            gt_entity(),
            seq!['>'],
        ),
        quot_entity(),
        seq!['"'],
    )
}

/// Plain text of an HTML body: script and style blocks removed, tags
/// stripped, the common entities unescaped.
pub open spec fn spec_strip_html(s: Seq<char>) -> Seq<char> {
    spec_unescape(
        spec_strip_tags(
            spec_strip_blocks(
                spec_strip_blocks(s, script_open(), script_close()),
                style_open(),
                style_close(),
            ),
        ),
    )
}

fn push_all(v: &mut Vec<char>, s: &[char])
    ensures
        final(v)@ == old(v)@ + s@,
{
    v.extend_from_slice(s);
}

/// Strips an HTML body to plain text.
pub fn strip_html(html: &str) -> (r: String)
    ensures
        r@ == spec_strip_html(html@),
{
    let v = to_chars(html);
    let mut sc_open: Vec<char> = Vec::new();
    push_all(&mut sc_open, &['<', 's', 'c', 'r', 'i', 'p', 't']);
    let mut sc_close: Vec<char> = Vec::new();
    push_all(&mut sc_close, &['<', '/', 's', 'c', 'r', 'i', 'p', 't', '>']);
    let mut st_open: Vec<char> = Vec::new();
    push_all(&mut st_open, &['<', 's', 't', 'y', 'l', 'e']);
    let mut st_close: Vec<char> = Vec::new();
    push_all(&mut st_close, &['<', '/', 's', 't', 'y', 'l', 'e', '>']);
    proof {
        assert(sc_open@ =~= script_open());
        assert(sc_close@ =~= script_close());
        assert(st_open@ =~= style_open());
        assert(st_close@ =~= style_close());
    }
    let a = strip_blocks(&v, &sc_open, &sc_close);
    let b = strip_blocks(&a, &st_open, &st_close);
    let c = strip_tags(&b);
    let mut nbsp: Vec<char> = Vec::new();
    push_all(&mut nbsp, &['&', 'n', 'b', 's', 'p', ';']);
    let mut amp: Vec<char> = Vec::new();
    push_all(&mut amp, &['&', 'a', 'm', 'p', ';']);
    let mut lte: Vec<char> = Vec::new();
    push_all(&mut lte, &['&', 'l', 't', ';']);
    let mut gte: Vec<char> = Vec::new();
    push_all(&mut gte, &['&', 'g', 't', ';']);
    let mut quo: Vec<char> = Vec::new();
    push_all(&mut quo, &['&', 'q', 'u', 'o', 't', ';']);
    let mut sp: Vec<char> = Vec::new();
    sp.push(' ');
    let mut am: Vec<char> = Vec::new();
    am.push('&');
    let mut lt1: Vec<char> = Vec::new();
    lt1.push('<');
    let mut gt1: Vec<char> = Vec::new();
    gt1.push('>');
    let mut qu1: Vec<char> = Vec::new();
    qu1.push('"');
    proof {
        assert(nbsp@ =~= nbsp_entity());
        assert(amp@ =~= amp_entity());
        assert(lte@ =~= lt_entity());
        assert(gte@ =~= gt_entity());
        assert(quo@ =~= quot_entity());
        assert(sp@ =~= seq![' ']);
        assert(am@ =~= seq!['&']);
        assert(lt1@ =~= seq!['<']);
        assert(gt1@ =~= seq!['>']);
        assert(qu1@ =~= seq!['"']);
    }
    let e1 = replace_c(&c, &nbsp, &sp);
    let e2 = replace_c(&e1, &amp, &am);
    let e3 = replace_c(&e2, &lte, &lt1);
    let e4 = replace_c(&e3, &gte, &gt1);
    let e5 = replace_c(&e4, &quo, &qu1);
    chars_to_string(&e5)
}

/// The cleaned snippet text: newlines become spaces, carriage returns are
/// dropped, the result is trimmed.
pub open spec fn spec_clean_snippet(s: Seq<char>) -> Seq<char> {
    spec_trim(spec_replace(spec_replace(s, seq!['\n'], seq![' ']), seq!['\r'], Seq::<char>::empty()))
}

/// The snippet: the cleaned text, cut to 150 characters with an ellipsis
/// marker when longer.
pub open spec fn spec_snippet(s: Seq<char>) -> Seq<char> {
    let c = spec_clean_snippet(s);
    if c.len() > 150 {
        c.take(150) + seq!['.', '.', '.']
    } else {
        c
    }
}

pub fn make_snippet(body: &Vec<char>) -> (r: Vec<char>)
    ensures
        r@ == spec_snippet(body@),
{
    let mut nl: Vec<char> = Vec::new();
    nl.push('\n');
    let mut cr: Vec<char> = Vec::new();
    cr.push('\r');
    let mut sp: Vec<char> = Vec::new();
    sp.push(' ');
    let empty: Vec<char> = Vec::new();
    proof {
        assert(nl@ =~= seq!['\n']);
        assert(cr@ =~= seq!['\r']);
        assert(sp@ =~= seq![' ']);
        assert(empty@ =~= Seq::<char>::empty());
    }
    let cleaned = trim_c(&replace_c(&replace_c(body, &nl, &sp), &cr, &empty));
    if cleaned.len() > 150 {
        let mut cut = slice_to_vec(slice_subrange(cleaned.as_slice(), 0, 150));
        cut.push('.');
        cut.push('.');
        cut.push('.');
        proof {
            assert(cut@ =~= cleaned@.take(150) + seq!['.', '.', '.']);
        }
        cut
    } else {
        cleaned
    }
}

// ---------- the extractor ----------

/// The message bytes handed to the MIME parser.
pub open spec fn spec_stripped(d: Seq<u8>) -> Seq<u8> {
    spec_strip_envelope(d)
}

/// The manually scanned headers of the message's header block.
pub open spec fn spec_hdrs(d: Seq<u8>) -> Seq<(Seq<u8>, Seq<u8>)> {
    spec_manual_headers(spec_stripped(d).take(spec_header_end(spec_stripped(d))))
}

pub open spec fn subject_key() -> Seq<u8> {
    seq![115u8, 117u8, 98u8, 106u8, 101u8, 99u8, 116u8]
}

pub open spec fn from_key() -> Seq<u8> {
    seq![102u8, 114u8, 111u8, 109u8]
}

pub open spec fn to_key() -> Seq<u8> {
    seq![116u8, 111u8]
}

pub open spec fn cc_key() -> Seq<u8> {
    seq![99u8, 99u8]
}

pub open spec fn labels_key() -> Seq<u8> {
    seq![120u8, 45u8, 103u8, 109u8, 97u8, 105u8, 108u8, 45u8, 108u8, 97u8, 98u8, 101u8, 108u8,
        115u8]
}

pub open spec fn spec_subject_of(d: Seq<u8>) -> Option<Seq<char>> {
    spec_best(spec_stripped(d), spec_hdrs(d), "Subject"@, subject_key())
}

pub open spec fn spec_sender_name_of(d: Seq<u8>) -> Option<Seq<char>> {
    spec_best(spec_stripped(d), spec_hdrs(d), "From"@, from_key())
}

pub open spec fn spec_sender_address_of(d: Seq<u8>) -> Option<Seq<char>> {
    match spec_sender_name_of(d) {
        Option::Some(s) => Option::Some(spec_get_address(s)),
        Option::None => Option::<Seq<char>>::None,
    }
}

pub open spec fn spec_to_addresses_of(d: Seq<u8>) -> Option<Seq<Seq<char>>> {
    match spec_best(spec_stripped(d), spec_hdrs(d), "To"@, to_key()) {
        Option::Some(t) => Option::Some(spec_addresses(t)),
        Option::None => Option::<Seq<Seq<char>>>::None,
    }
}

pub open spec fn spec_cc_addresses_of(d: Seq<u8>) -> Option<Seq<Seq<char>>> {
    match spec_best(spec_stripped(d), spec_hdrs(d), "Cc"@, cc_key()) {
        Option::Some(t) => Option::Some(spec_addresses(t)),
        Option::None => Option::<Seq<Seq<char>>>::None,
    }
}

pub open spec fn spec_gmail_labels_of(d: Seq<u8>) -> Option<Seq<Seq<char>>> {
    match spec_best(spec_stripped(d), spec_hdrs(d), "X-Gmail-Labels"@, labels_key()) {
        Option::Some(t) => Option::Some(spec_labels(t)),
        Option::None => Option::<Seq<Seq<char>>>::None,
    }
}

/// The attachment inventory: each parser part with its declared type
/// defaulted and its size taken from the decoded contents.
pub open spec fn spec_atts_of(d: Seq<u8>) -> Seq<AttV> {
    crate::mime::mime_parts_of(spec_stripped(d)).map_values(
        |p: PartV|
            AttV {
                filename: p.filename,
                mime: match p.mime {
                    Option::Some(m) => m,
                    Option::None => "application/octet-stream"@,
                },
                size: p.contents.len(),
                content_id: p.content_id,
            },
    )
}

/// The snippet source and its cleaning: the HTML body stripped, else the
/// plain-text body; absent when the message has neither.
pub open spec fn spec_snippet_of(d: Seq<u8>) -> Option<Seq<char>> {
    match crate::mime::mime_html_of(spec_stripped(d)) {
        Option::Some(h) => Option::Some(spec_snippet(spec_strip_html(h))),
        Option::None => match crate::mime::mime_text_of(spec_stripped(d)) {
            Option::Some(t) => Option::Some(spec_snippet(t)),
            Option::None => Option::<Seq<char>>::None,
        },
    }
}

/// Extracts the metadata summary of one raw message. Returns nothing exactly
/// when the stripped bytes do not parse as a MIME message; otherwise every
/// field is the one its specification names, the record is well formed, and
/// its size is the exact byte length of the raw message.
pub fn extract_metadata(eml_data: &[u8], id: String) -> (r: Option<MetadataEntry>)
    ensures
        (r is Some) == mime_parses(spec_stripped(eml_data@)),
        match r {
            Option::Some(e) => {
                &&& e@.id == id@
                &&& e@.rfc822_size == eml_data@.len()
                &&& entry_wf(e@)
                &&& e@.subject == spec_subject_of(eml_data@)
                &&& e@.sender_name == spec_sender_name_of(eml_data@)
                &&& e@.sender_address == spec_sender_address_of(eml_data@)
                &&& e@.to_addresses == spec_to_addresses_of(eml_data@)
                &&& e@.cc_addresses == spec_cc_addresses_of(eml_data@)
                &&& e@.date_sent_iso == crate::mime::mime_date_of(spec_stripped(eml_data@))
                &&& e@.internal_date == e@.date_sent_iso
                &&& e@.gmail_labels == spec_gmail_labels_of(eml_data@)
                &&& e@.message_id == crate::mime::mime_message_id_of(spec_stripped(eml_data@))
                &&& e@.has_attachment == (spec_atts_of(eml_data@).len() > 0)
                &&& e@.attachments == (if spec_atts_of(eml_data@).len() > 0 {
                    Option::Some(spec_atts_of(eml_data@))
                } else {
                    Option::<Seq<AttV>>::None
                })
                &&& e@.snippet == spec_snippet_of(eml_data@)
            },
            Option::None => true,
        },
{
    let ghost dv = eml_data@;
    let total = eml_data.len();
    let k = strip_envelope(eml_data);
    let data = slice_subrange(eml_data, k, total);
    proof {
        assert(data@ =~= dv.skip(k as int));
        assert(data@ == spec_stripped(dv));
    }
    if !crate::mime::mime_parse_ok(data) {
        return None;
    }
    let he = header_end(data);
    let hdr_block = slice_subrange(data, 0, he);
    proof {
        assert(hdr_block@ =~= data@.take(he as int));
    }
    let hdrs = scan_headers(hdr_block);
    proof {
        assert(hdrs.deep_view() == spec_hdrs(dv));
    }

    let mut k_subject: Vec<u8> = Vec::new();
    k_subject.push(115u8);
    k_subject.push(117u8);
    k_subject.push(98u8);
    k_subject.push(106u8);
    k_subject.push(101u8);
    k_subject.push(99u8);
    k_subject.push(116u8);
    let mut k_from: Vec<u8> = Vec::new();
    k_from.push(102u8);
    k_from.push(114u8);
    k_from.push(111u8);
    k_from.push(109u8);
    let mut k_to: Vec<u8> = Vec::new();
    k_to.push(116u8);
    k_to.push(111u8);
    let mut k_cc: Vec<u8> = Vec::new();
    k_cc.push(99u8);
    k_cc.push(99u8);
    let mut k_labels: Vec<u8> = Vec::new();
    k_labels.push(120u8);
    k_labels.push(45u8);
    k_labels.push(103u8);
    k_labels.push(109u8);
    k_labels.push(97u8);
    k_labels.push(105u8);
    k_labels.push(108u8);
    k_labels.push(45u8);
    k_labels.push(108u8);
    k_labels.push(97u8);
    k_labels.push(98u8);
    k_labels.push(101u8);
    k_labels.push(108u8);
    k_labels.push(115u8);
    proof {
        assert(k_subject@ =~= subject_key());
        assert(k_from@ =~= from_key());
        assert(k_to@ =~= to_key());
        assert(k_cc@ =~= cc_key());
        assert(k_labels@ =~= labels_key());
    }

    let subject = best_header(data, &hdrs, "Subject", k_subject.as_slice());
    let sender_name = best_header(data, &hdrs, "From", k_from.as_slice());
    let sender_address = match &sender_name {
        Some(s) => Some(chars_to_string(&get_address(&to_chars(s.as_str())))),
        None => None,
    };
    let to_raw = best_header(data, &hdrs, "To", k_to.as_slice());
    let to_addresses = match &to_raw {
        Some(t) => Some(split_addresses(&to_chars(t.as_str()))),
        None => None,
    };
    let cc_raw = best_header(data, &hdrs, "Cc", k_cc.as_slice());
    let cc_addresses = match &cc_raw {
        Some(t) => Some(split_addresses(&to_chars(t.as_str()))),
        None => None,
    };
    let date_sent_iso = crate::mime::mime_date_iso(data);
    let internal_date = crate::model::clone_opt_string(&date_sent_iso);
    let labels_raw = best_header(data, &hdrs, "X-Gmail-Labels", k_labels.as_slice());
    let gmail_labels = match &labels_raw {
        Some(t) => Some(split_labels(&to_chars(t.as_str()))),
        None => None,
    };
    let message_id = crate::mime::mime_message_id(data);

    let parts = crate::mime::mime_attachment_parts(data);
    let np = parts.len();
    let mut atts: Vec<AttachmentMetadata> = Vec::new();
    let mut j: usize = 0;
    while j < np
        invariant
            j <= np,
            np == parts@.len(),
            parts.deep_view() == crate::mime::mime_parts_of(data@),
            data@ == spec_stripped(dv),
            atts@.len() == j,
            forall|x: int| 0 <= x < j ==> atts.deep_view()[x] == spec_atts_of(dv)[x],
        decreases np - j,
    {
        let ghost prevlen = atts@.len();
        let p = &parts[j];
        proof {
            assert(parts.deep_view()[j as int] == parts@[j as int].deep_view());
        }
        let mime_s = match &p.mime {
            Some(m) => crate::model::clone_string(m),
            None => String::from_str("application/octet-stream"),
        };
        atts.push(
            AttachmentMetadata {
                filename: crate::model::clone_opt_string(&p.filename),
                mime: mime_s,
                size: p.contents.len(),
                content_id: crate::model::clone_opt_string(&p.content_id),
            },
        );
        j = j + 1;
        proof {
            assert forall|x: int| 0 <= x < j implies atts.deep_view()[x] == spec_atts_of(dv)[x]
            by {
                assert(atts.deep_view()[x] == atts@[x].deep_view());
                if x < j - 1 {
                }
            };
        }
    }
    proof {
        assert(spec_atts_of(dv).len() == parts.deep_view().len());
        assert(atts.deep_view() =~= spec_atts_of(dv));
    }
    let has_attachment = atts.len() > 0;
    let attachments = if has_attachment {
        Some(atts)
    } else {
        None
    };

    let snippet = match crate::mime::mime_body_html(data) {
        Some(h) => {
            let stripped_html = strip_html(h.as_str());
            Some(chars_to_string(&make_snippet(&to_chars(stripped_html.as_str()))))
        },
        None => match crate::mime::mime_body_text(data) {
            Some(t) => Some(chars_to_string(&make_snippet(&to_chars(t.as_str())))),
            None => None,
        },
    };

    Some(
        MetadataEntry {
            id,
            subject,
            sender_name,
            sender_address,
            to_addresses,
            cc_addresses,
            date_sent_iso,
            internal_date,
            gmail_labels,
            rfc822_size: total,
            message_id,
            has_attachment,
            snippet,
            attachments,
        },
    )
}

} // verus!
