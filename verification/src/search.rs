//! The query engine's filtering core: the filter semantics over the
//! metadata index, pagination, label listing, and the laws that the result
//! count is monotone under added filters and that pages tile the filtered
//! result exactly.

use vstd::prelude::*;
use crate::codec::{lowercase, lower_of};
use crate::model::{clone_entry, hidden_labels, labels_of, special_labels, EntryV, MetadataEntry,
    Settings, SettingsV};
use crate::text::{chars_to_string, contains_c, lex_lt_c, spec_has_sub, spec_lex_lt, to_chars};

verus! {

// ---------- the query shape ----------

pub struct SearchQuery {
    pub any: Option<String>,
    pub sender: Option<String>,
    pub subject: Option<String>,
    pub label: Option<String>,
    pub has_attachment: Option<bool>,
    pub date_from: Option<String>,
    pub date_to: Option<String>,
    pub limit: Option<usize>,
    pub offset: Option<usize>,
}

pub ghost struct QueryV {
    pub any: Option<Seq<char>>,
    pub sender: Option<Seq<char>>,
    pub subject: Option<Seq<char>>,
    pub label: Option<Seq<char>>,
    pub has_attachment: Option<bool>,
    pub date_from: Option<Seq<char>>,
    pub date_to: Option<Seq<char>>,
    pub limit: Option<nat>,
    pub offset: Option<nat>,
}

impl View for SearchQuery {
    type V = QueryV;

    open spec fn view(&self) -> QueryV {
        QueryV {
            any: self.any.deep_view(),
            sender: self.sender.deep_view(),
            subject: self.subject.deep_view(),
            label: self.label.deep_view(),
            has_attachment: self.has_attachment,
            date_from: self.date_from.deep_view(),
            date_to: self.date_to.deep_view(),
            limit: match self.limit {
                Option::Some(l) => Option::Some(l as nat),
                Option::None => Option::<nat>::None,
            },
            offset: match self.offset {
                Option::Some(o) => Option::Some(o as nat),
                Option::None => Option::<nat>::None,
            },
        }
    }
}

/// The synthetic catch-all label, always offered first.
pub open spec fn catch_all() -> Seq<char> {
    seq!['A', 'l', 'l', 'e', ' ', 'M', 'a', 'i', 'l', 's']
}

// ---------- filter semantics ----------

/// A text filter that imposes nothing: absent or empty.
pub open spec fn text_inactive(f: Option<Seq<char>>) -> bool {
    match f {
        Option::Some(s) => s.len() == 0,
        Option::None => true,
    }
}

/// Case-insensitive substring match of `q` against an optional field; an
/// absent field never matches.
pub open spec fn field_has(v: Option<Seq<char>>, q: Seq<char>) -> bool {
    match v {
        Option::Some(s) => spec_has_sub(lower_of(s), lower_of(q)),
        Option::None => false,
    }
}

/// Whether the query's label filter targets an administrator-designated
/// special label, which lets those entries be browsed explicitly.
pub open spec fn searching_special(q: QueryV, st: SettingsV) -> bool {
    match q.label {
        Option::Some(l) => special_labels(st).contains(l),
        Option::None => false,
    }
}

/// Whether an entry carries any special label.
pub open spec fn carries_special(e: EntryV, st: SettingsV) -> bool {
    exists|i: int| 0 <= i < labels_of(e).len() && special_labels(st).contains(labels_of(e)[i])
}

/// The whole filter: the baseline special-label exclusion and the seven
/// conjunctive filters of the query.
pub open spec fn spec_passes(e: EntryV, q: QueryV, st: SettingsV) -> bool {
    &&& (searching_special(q, st) || !carries_special(e, st))
    &&& match q.label {
        Option::Some(l) => l.len() == 0 || l == catch_all() || labels_of(e).contains(l),
        Option::None => true,
    }
    &&& match q.subject {
        Option::Some(s) => s.len() == 0 || field_has(e.subject, s),
        Option::None => true,
    }
    &&& match q.has_attachment {
        Option::Some(b) => !b || e.has_attachment,
        Option::None => true,
    }
    &&& match q.date_from {
        Option::Some(f) => f.len() == 0 || match e.date_sent_iso {
            Option::Some(d) => !spec_lex_lt(d, f),
            Option::None => false,
        },
        Option::None => true,
    }
    &&& match q.date_to {
        Option::Some(t) => t.len() == 0 || match e.date_sent_iso {
            Option::Some(d) => !spec_lex_lt(t, d),
            Option::None => false,
        },
        Option::None => true,
    }
    &&& match q.any {
        Option::Some(a) => a.len() == 0 || field_has(e.subject, a) || field_has(e.sender_name, a)
            || field_has(e.sender_address, a),
        Option::None => true,
    }
    &&& match q.sender {
        Option::Some(s) => s.len() == 0 || field_has(e.sender_name, s) || field_has(
            e.sender_address,
            s,
        ),
        Option::None => true,
    }
}

/// The matching entries in archive order.
pub open spec fn spec_filtered(entries: Seq<EntryV>, q: QueryV, st: SettingsV) -> Seq<EntryV>
    decreases entries.len(),
{
    if entries.len() == 0 {
        Seq::<EntryV>::empty()
    } else {
        (if spec_passes(entries[0], q, st) {
            seq![entries[0]]
        } else {
            Seq::<EntryV>::empty()
        }) + spec_filtered(entries.drop_first(), q, st)
    }
}

// ---------- pagination ----------

pub open spec fn spec_limit(q: QueryV) -> nat {
    match q.limit {
        Option::Some(l) => l,
        Option::None => 50,
    }
}

pub open spec fn spec_offset(q: QueryV) -> nat {
    match q.offset {
        Option::Some(o) => o,
        Option::None => 0,
    }
}

/// One page: skip `offset`, take at most `limit`.
pub open spec fn spec_page(f: Seq<EntryV>, limit: nat, offset: nat) -> Seq<EntryV> {
    let a = if offset <= f.len() {
        offset as int
    } else {
        f.len() as int
    };
    let b = if offset + limit <= f.len() {
        (offset + limit) as int
    } else {
        f.len() as int
    };
    f.subrange(a, b)
}

/// An entry as displayed: hidden labels stripped from its label list.
pub open spec fn spec_visible_labels(l: Seq<Seq<char>>, hid: Seq<Seq<char>>) -> Seq<Seq<char>>
    decreases l.len(),
{
    if l.len() == 0 {
        Seq::<Seq<char>>::empty()
    } else {
        (if hid.contains(l[0]) {
            Seq::<Seq<char>>::empty()
        } else {
            seq![l[0]]
        }) + spec_visible_labels(l.drop_first(), hid)
    }
}

pub open spec fn strip_hidden(e: EntryV, st: SettingsV) -> EntryV {
    EntryV {
        gmail_labels: match e.gmail_labels {
            Option::Some(l) => Option::Some(spec_visible_labels(l, hidden_labels(st))),
            Option::None => Option::<Seq<Seq<char>>>::None,
        },
        ..e
    }
}

/// The page a search returns, hidden labels stripped for display.
pub open spec fn spec_search_page(entries: Seq<EntryV>, q: QueryV, st: SettingsV) -> Seq<EntryV> {
    spec_page(spec_filtered(entries, q, st), spec_limit(q), spec_offset(q)).map_values(
        |e: EntryV| strip_hidden(e, st),
    )
}

// ---------- laws ----------

proof fn lemma_filtered_len_le(entries: Seq<EntryV>, q1: QueryV, q2: QueryV, st: SettingsV)
    requires
        forall|e: EntryV| spec_passes(e, q2, st) ==> spec_passes(e, q1, st),
    ensures
        spec_filtered(entries, q2, st).len() <= spec_filtered(entries, q1, st).len(),
    decreases entries.len(),
{
    if entries.len() > 0 {
        lemma_filtered_len_le(entries.drop_first(), q1, q2, st);
    }
}

/// `q2` asks at least as much as `q1`: the label filter either agrees, or
/// `q1`'s is inactive while `q2`'s does not switch on special-label
/// browsing; every other filter of `q1` is inactive or agrees with `q2`'s.
pub open spec fn query_weaker(q1: QueryV, q2: QueryV, st: SettingsV) -> bool {
    &&& (q1.label == q2.label || ((match q1.label {
        Option::Some(l) => l.len() == 0 || l == catch_all(),
        Option::None => true,
    }) && !searching_special(q2, st) && !searching_special(q1, st)))
    &&& (q1.any == q2.any || text_inactive(q1.any))
    &&& (q1.sender == q2.sender || text_inactive(q1.sender))
    &&& (q1.subject == q2.subject || text_inactive(q1.subject))
    &&& (q1.date_from == q2.date_from || text_inactive(q1.date_from))
    &&& (q1.date_to == q2.date_to || text_inactive(q1.date_to))
    &&& (q1.has_attachment == q2.has_attachment || q1.has_attachment is None
        || q1.has_attachment == Option::Some(false))
}

/// Adding filters never increases the match count: when every filter of
/// `q1` is inactive or shared by `q2`, the total under `q2` is at most the
/// total under `q1`.
pub proof fn lemma_total_monotone(entries: Seq<EntryV>, q1: QueryV, q2: QueryV, st: SettingsV)
    requires
        query_weaker(q1, q2, st),
    ensures
        spec_filtered(entries, q2, st).len() <= spec_filtered(entries, q1, st).len(),
{
    assert forall|e: EntryV| spec_passes(e, q2, st) implies spec_passes(e, q1, st) by {};
    lemma_filtered_len_le(entries, q1, q2, st);
}

proof fn lemma_take_one_more(f: Seq<EntryV>, a: int, b: int)
    requires
        0 <= a <= b <= f.len(),
    ensures
        f.take(a) + f.subrange(a, b) =~= f.take(b),
{
}

/// The pagination law: walking offsets 0, limit, 2·limit, … and
/// concatenating the pages reproduces the filtered result exactly — after
/// `k` pages, precisely the first `min(k·limit, total)` entries have been
/// seen, in order, without duplicates or gaps; once `k·limit` reaches the
/// total, that is the whole filtered sequence.
pub open spec fn spec_pages_concat(f: Seq<EntryV>, limit: nat, k: nat) -> Seq<EntryV>
    decreases k,
{
    if k == 0 {
        Seq::<EntryV>::empty()
    } else {
        spec_pages_concat(f, limit, (k - 1) as nat) + spec_page(f, limit, (k - 1) as nat * limit)
    }
}

pub proof fn lemma_pagination(f: Seq<EntryV>, limit: nat, k: nat)
    requires
        limit > 0,
    ensures
        spec_pages_concat(f, limit, k) == f.take(if k * limit <= f.len() {
            (k * limit) as int
        } else {
            f.len() as int
        }),
        k * limit >= f.len() ==> spec_pages_concat(f, limit, k) == f,
    decreases k,
{
    if k == 0 {
        assert(f.take(0) =~= Seq::<EntryV>::empty());
        if k * limit >= f.len() {
            assert(f.len() == 0);
            assert(f.take(0) =~= f);
        }
    } else {
        let km = (k - 1) as nat;
        lemma_pagination(f, limit, km);
        assert(km * limit + limit == k * limit) by (nonlinear_arith)
            requires
                km + 1 == k,
        ;
        assert(km * limit <= k * limit) by (nonlinear_arith)
            requires
                km + 1 == k,
        ;
        let prev_end: int = if km * limit <= f.len() {
            (km * limit) as int
        } else {
            f.len() as int
        };
        let this_end: int = if k * limit <= f.len() {
            (k * limit) as int
        } else {
            f.len() as int
        };
        let a = if km * limit <= f.len() {
            (km * limit) as int
        } else {
            f.len() as int
        };
        let b: int = if km * limit + limit <= f.len() {
            (km * limit + limit) as int
        } else {
            f.len() as int
        };
        assert(a == prev_end);
        assert(b == this_end);
        lemma_take_one_more(f, prev_end, this_end);
        if k * limit >= f.len() {
            assert(f.take(f.len() as int) =~= f);
        }
    }
}

// ---------- executable matching ----------

/// Case-insensitive substring test of the lowered query characters against
/// an optional field.
fn field_has_exec(v: &Option<String>, q: &String) -> (r: bool)
    ensures
        r == (match v.deep_view() {
            Option::Some(s) => spec_has_sub(lower_of(s), lower_of(q@)),
            Option::None => false,
        }),
{
    match v {
        Some(s) => {
            let hs = lowercase(s.as_str());
            let qs = lowercase(q.as_str());
            contains_c(&to_chars(hs.as_str()), &to_chars(qs.as_str()))
        },
        None => false,
    }
}

/// Whether the string list contains exactly `s`.
fn contains_string(v: &Vec<String>, s: &String) -> (r: bool)
    ensures
        r == v.deep_view().contains(s@),
{
    let n = v.len();
    let mut i: usize = 0;
    while i < n
        invariant
            i <= n,
            n == v@.len(),
            forall|j: int| 0 <= j < i ==> v.deep_view()[j] != s@,
        decreases n - i,
    {
        proof {
            assert(v.deep_view()[i as int] == v@[i as int].deep_view());
        }
        if v[i].eq(s) {
            proof {
                assert(v.deep_view()[i as int] == s@);
            }
            return true;
        }
        i = i + 1;
    }
    proof {
        if v.deep_view().contains(s@) {
            let j = choose|j: int| 0 <= j < v.deep_view().len() && v.deep_view()[j] == s@;
            assert(v.deep_view()[j] != s@);
        }
    }
    false
}

fn opt_contains(o: &Option<Vec<String>>, s: &String) -> (r: bool)
    ensures
        r == (match o.deep_view() {
            Option::Some(l) => l.contains(s@),
            Option::None => false,
        }),
{
    match o {
        Some(v) => contains_string(v, s),
        None => false,
    }
}

/// Whether the entry carries a special label.
fn carries_special_exec(e: &MetadataEntry, st: &Settings) -> (r: bool)
    ensures
        r == carries_special(e@, st@),
{
    match (&e.gmail_labels, &st.special_labels) {
        (Some(ls), Some(_sp)) => {
            let n = ls.len();
            let mut i: usize = 0;
            while i < n
                invariant
                    i <= n,
                    n == ls@.len(),
                    e@.gmail_labels == Option::Some(ls.deep_view()),
                    forall|j: int| 0 <= j < i ==> !special_labels(st@).contains(
                        labels_of(e@)[j],
                    ),
                decreases n - i,
            {
                proof {
                    assert(labels_of(e@)[i as int] == ls@[i as int].deep_view());
                }
                if opt_contains(&st.special_labels, &ls[i]) {
                    return true;
                }
                i = i + 1;
            }
            proof {
                if carries_special(e@, st@) {
                    let j = choose|j: int|
                        0 <= j < labels_of(e@).len() && special_labels(st@).contains(
                            labels_of(e@)[j],
                        );
                    assert(!special_labels(st@).contains(labels_of(e@)[j]));
                }
            }
            false
        },
        _ => {
            proof {
                if carries_special(e@, st@) {
                    let j = choose|j: int|
                        0 <= j < labels_of(e@).len() && special_labels(st@).contains(
                            labels_of(e@)[j],
                        );
                }
            }
            false
        },
    }
}

/// Whether one entry passes the whole filter.
pub fn entry_passes(e: &MetadataEntry, q: &SearchQuery, st: &Settings) -> (r: bool)
    ensures
        r == spec_passes(e@, q@, st@),
{
    let special_target = match &q.label {
        Some(l) => opt_contains(&st.special_labels, l),
        None => false,
    };
    if !special_target && carries_special_exec(e, st) {
        return false;
    }
    match &q.label {
        Some(l) => {
            let mut ca: Vec<char> = Vec::new();
            ca.push('A');
            ca.push('l');
            ca.push('l');
            ca.push('e');
            ca.push(' ');
            ca.push('M');
            ca.push('a');
            ca.push('i');
            ca.push('l');
            ca.push('s');
            proof {
                assert(ca@ =~= catch_all());
            }
            let ca_s = chars_to_string(&ca);
            if !l.as_str().is_empty() && !l.eq(&ca_s) {
                if !opt_contains(&e.gmail_labels, l) {
                    proof {
                        assert(!labels_of(e@).contains(l@));
                    }
                    return false;
                }
            }
        },
        None => {},
    }
    match &q.subject {
        Some(s) => {
            if !s.as_str().is_empty() && !field_has_exec(&e.subject, s) {
                return false;
            }
        },
        None => {},
    }
    match q.has_attachment {
        Some(b) => {
            if b && !e.has_attachment {
                return false;
            }
        },
        None => {},
    }
    match &q.date_from {
        Some(f) => {
            if !f.as_str().is_empty() {
                match &e.date_sent_iso {
                    Some(d) => {
                        if lex_lt_c(&to_chars(d.as_str()), &to_chars(f.as_str())) {
                            return false;
                        }
                    },
                    None => {
                        return false;
                    },
                }
            }
        },
        None => {},
    }
    match &q.date_to {
        Some(t) => {
            if !t.as_str().is_empty() {
                match &e.date_sent_iso {
                    Some(d) => {
                        if lex_lt_c(&to_chars(t.as_str()), &to_chars(d.as_str())) {
                            return false;
                        }
                    },
                    None => {
                        return false;
                    },
                }
            }
        },
        None => {},
    }
    match &q.any {
        Some(a) => {
            if !a.as_str().is_empty() && !field_has_exec(&e.subject, a) && !field_has_exec(&e.sender_name, a)
                && !field_has_exec(&e.sender_address, a) {
                return false;
            }
        },
        None => {},
    }
    match &q.sender {
        Some(s) => {
            if !s.as_str().is_empty() && !field_has_exec(&e.sender_name, s) && !field_has_exec(
                &e.sender_address,
                s,
            ) {
                return false;
            }
        },
        None => {},
    }
    true
}

// ---------- executable search ----------

pub struct SearchResult {
    pub total: usize,
    pub messages: Vec<MetadataEntry>,
}

/// The labels of `l` that are not hidden.
pub fn visible_labels(l: &Vec<String>, hidden: &Option<Vec<String>>) -> (r: Vec<String>)
    ensures
        r.deep_view() == spec_visible_labels(
            l.deep_view(),
            match hidden.deep_view() {
                Option::Some(h) => h,
                Option::None => Seq::<Seq<char>>::empty(),
            },
        ),
{
    let ghost lv = l.deep_view();
    let ghost hid = match hidden.deep_view() {
        Option::Some(h) => h,
        Option::None => Seq::<Seq<char>>::empty(),
    };
    let n = l.len();
    let mut out: Vec<String> = Vec::new();
    proof {
        assert(lv.skip(0) =~= lv);
        assert(Seq::<Seq<char>>::empty() + spec_visible_labels(lv, hid) =~= spec_visible_labels(
            lv,
            hid,
        ));
    }
    let mut i: usize = 0;
    while i < n
        invariant
            i <= n,
            n == l@.len(),
            lv == l.deep_view(),
            lv.len() == n,
            hid == (match hidden.deep_view() {
                Option::Some(h) => h,
                Option::None => Seq::<Seq<char>>::empty(),
            }),
            spec_visible_labels(lv, hid) == out.deep_view() + spec_visible_labels(
                lv.skip(i as int),
                hid,
            ),
        decreases n - i,
    {
        let ghost prev = out.deep_view();
        proof {
            assert(lv.skip(i as int)[0] == lv[i as int]);
            assert(lv.skip(i as int).drop_first() =~= lv.skip(i + 1));
            assert(lv[i as int] == l@[i as int].deep_view());
        }
        if !opt_contains(hidden, &l[i]) {
            let ghost xv = lv[i as int];
            out.push(l[i].clone());
            proof {
                assert(out.deep_view() =~~= prev.push(xv));
                assert(prev.push(xv) =~= prev + seq![xv]);
                assert((prev + seq![xv]) + spec_visible_labels(lv.skip(i + 1), hid) =~= prev + (
                seq![xv] + spec_visible_labels(lv.skip(i + 1), hid)));
            }
        } else {
            proof {
                assert(prev + (Seq::<Seq<char>>::empty() + spec_visible_labels(
                    lv.skip(i + 1),
                    hid,
                )) =~= prev + spec_visible_labels(lv.skip(i + 1), hid));
            }
        }
        i = i + 1;
    }
    proof {
        assert(lv.skip(n as int) =~= Seq::<Seq<char>>::empty());
        assert(out.deep_view() + Seq::<Seq<char>>::empty() =~= out.deep_view());
    }
    out
}

/// Runs the filter over the whole index and returns the requested page with
/// hidden labels stripped; `total` counts every match, before pagination.
pub fn search_messages(entries: &Vec<MetadataEntry>, q: &SearchQuery, st: &Settings) -> (r:
    SearchResult)
    ensures
        r.total == spec_filtered(entries.deep_view(), q@, st@).len(),
        r.messages.deep_view() == spec_search_page(entries.deep_view(), q@, st@),
{
    let ghost ev = entries.deep_view();
    let n = entries.len();
    let mut filtered: Vec<MetadataEntry> = Vec::new();
    proof {
        assert(ev.skip(0) =~= ev);
        assert(Seq::<EntryV>::empty() + spec_filtered(ev, q@, st@) =~= spec_filtered(
            ev,
            q@,
            st@,
        ));
    }
    let mut i: usize = 0;
    while i < n
        invariant
            i <= n,
            n == entries@.len(),
            ev == entries.deep_view(),
            ev.len() == n,
            spec_filtered(ev, q@, st@) == filtered.deep_view() + spec_filtered(
                ev.skip(i as int),
                q@,
                st@,
            ),
        decreases n - i,
    {
        let ghost prev = filtered.deep_view();
        proof {
            assert(ev.skip(i as int)[0] == ev[i as int]);
            assert(ev.skip(i as int).drop_first() =~= ev.skip(i + 1));
            assert(ev[i as int] == entries@[i as int].deep_view());
        }
        if entry_passes(&entries[i], q, st) {
            let c = clone_entry(&entries[i]);
            let ghost cv = c@;
            filtered.push(c);
            proof {
                assert(filtered.deep_view() =~~= prev.push(cv));
                assert(prev.push(cv) =~= prev + seq![cv]);
                assert(cv == ev[i as int]);
                assert((prev + seq![ev[i as int]]) + spec_filtered(ev.skip(i + 1), q@, st@) =~=
                prev + (seq![ev[i as int]] + spec_filtered(ev.skip(i + 1), q@, st@)));
            }
        } else {
            proof {
                assert(prev + (Seq::<EntryV>::empty() + spec_filtered(ev.skip(i + 1), q@, st@))
                    =~= prev + spec_filtered(ev.skip(i + 1), q@, st@));
            }
        }
        i = i + 1;
    }
    proof {
        assert(ev.skip(n as int) =~= Seq::<EntryV>::empty());
        assert(filtered.deep_view() + Seq::<EntryV>::empty() =~= filtered.deep_view());
    }
    let ghost fv = filtered.deep_view();
    let total = filtered.len();
    let limit = match q.limit {
        Some(l) => l,
        None => 50,
    };
    let offset = match q.offset {
        Some(o) => o,
        None => 0,
    };
    let a = if offset <= total {
        offset
    } else {
        total
    };
    let b = if limit <= total - a && offset <= total {
        a + limit
    } else {
        total
    };
    proof {
        assert(a as int == (if spec_offset(q@) <= fv.len() {
            spec_offset(q@) as int
        } else {
            fv.len() as int
        }));
        assert(b as int == (if spec_offset(q@) + spec_limit(q@) <= fv.len() {
            (spec_offset(q@) + spec_limit(q@)) as int
        } else {
            fv.len() as int
        }));
    }
    let mut messages: Vec<MetadataEntry> = Vec::new();
    let mut k = a;
    while k < b
        invariant
            a <= k <= b <= total,
            total == filtered@.len(),
            fv == filtered.deep_view(),
            fv.len() == total,
            messages@.len() == k - a,
            forall|x: int| 0 <= x < k - a ==> messages.deep_view()[x] == strip_hidden(
                fv[a + x],
                st@,
            ),
        decreases b - k,
    {
        let e = &filtered[k];
        proof {
            assert(fv[k as int] == filtered@[k as int].deep_view());
        }
        let vis = match &e.gmail_labels {
            Some(l) => Some(visible_labels(l, &st.filter_labels)),
            None => None,
        };
        let mut c = clone_entry(e);
        c.gmail_labels = vis;
        proof {
            assert(c@.gmail_labels == (match fv[k as int].gmail_labels {
                Option::Some(l) => Option::Some(spec_visible_labels(l, hidden_labels(st@))),
                Option::None => Option::<Seq<Seq<char>>>::None,
            }));
            assert(c@ == strip_hidden(fv[k as int], st@));
        }
        let ghost cv = c@;
        let ghost prevm = messages@;
        let ghost prevdv = messages.deep_view();
        messages.push(c);
        k = k + 1;
        proof {
            assert forall|x: int| 0 <= x < k - a implies messages.deep_view()[x] == strip_hidden(
                fv[a + x],
                st@,
            ) by {
                assert(messages.deep_view()[x] == messages@[x].deep_view());
                if x == k - a - 1 {
                    assert(messages@[x].deep_view() == cv);
                } else {
                    assert(messages@[x] == prevm[x]);
                    assert(prevdv[x] == prevm[x].deep_view());
                    assert(prevdv[x] == strip_hidden(fv[a + x], st@));
                }
            };
        }
    }
    proof {
        let page = spec_page(fv, spec_limit(q@), spec_offset(q@));
        assert(page.len() == b - a);
        assert forall|x: int| 0 <= x < b - a implies page.map_values(
            |e: EntryV| strip_hidden(e, st@),
        )[x] == messages.deep_view()[x] by {
            assert(page[x] == fv[a + x]);
        };
        assert(messages.deep_view() =~= page.map_values(|e: EntryV| strip_hidden(e, st@)));
    }
    SearchResult { total, messages }
}

// ---------- the label catalogue ----------

/// Strict lexicographic sortedness: sorted with no duplicates.
pub open spec fn sorted_strict(s: Seq<Seq<char>>) -> bool {
    forall|i: int, j: int| 0 <= i < j < s.len() ==> spec_lex_lt(s[i], s[j])
}

proof fn lemma_lex_connex(a: Seq<char>, b: Seq<char>)
    ensures
        a == b || spec_lex_lt(a, b) || spec_lex_lt(b, a),
    decreases a.len(),
{
    if b.len() == 0 {
        if a.len() == 0 {
            assert(a =~= b);
        }
    } else if a.len() == 0 {
    } else if a[0] == b[0] {
        lemma_lex_connex(a.drop_first(), b.drop_first());
        if a.drop_first() == b.drop_first() {
            assert(a =~= seq![a[0]] + a.drop_first());
            assert(b =~= seq![b[0]] + b.drop_first());
            assert(seq![a[0]] + a.drop_first() == seq![b[0]] + b.drop_first());
        }
    }
}

proof fn lemma_lex_trans(a: Seq<char>, b: Seq<char>, c: Seq<char>)
    requires
        spec_lex_lt(a, b),
        spec_lex_lt(b, c),
    ensures
        spec_lex_lt(a, c),
    decreases a.len(),
{
    if a.len() > 0 && b.len() > 0 && c.len() > 0 {
        if a[0] == b[0] && b[0] == c[0] {
            lemma_lex_trans(a.drop_first(), b.drop_first(), c.drop_first());
        }
    }
}

proof fn lemma_lex_irrefl(a: Seq<char>, b: Seq<char>)
    requires
        spec_lex_lt(a, b),
    ensures
        a != b,
    decreases a.len(),
{
    if a.len() > 0 && b.len() > 0 && a[0] == b[0] {
        lemma_lex_irrefl(a.drop_first(), b.drop_first());
        if a == b {
            assert(a.drop_first() =~= b.drop_first());
        }
    }
}

/// Inserts a label into a sorted, duplicate-free list, keeping it so.
fn insert_sorted_unique(v: &mut Vec<String>, s: String)
    requires
        sorted_strict(old(v).deep_view()),
    ensures
        sorted_strict(final(v).deep_view()),
        forall|x: Seq<char>|
            final(v).deep_view().contains(x) <==> (old(v).deep_view().contains(x) || x == s@),
{
    let ghost dv = v.deep_view();
    let ghost sv = s@;
    let n = v.len();
    let mut p: usize = 0;
    while p < n && lex_lt_c(&to_chars(v[p].as_str()), &to_chars(s.as_str()))
        invariant
            p <= n,
            n == v@.len(),
            dv == v.deep_view(),
            dv.len() == n,
            sv == s@,
            forall|j: int| 0 <= j < p ==> spec_lex_lt(dv[j], sv),
        decreases n - p,
    {
        proof {
            assert(dv[p as int] == v@[p as int].deep_view());
        }
        p = p + 1;
    }
    proof {
        if p < n {
            assert(dv[p as int] == v@[p as int].deep_view());
        }
    }
    if p < n && v[p].eq(&s) {
        // already present
        proof {
            assert(dv[p as int] == sv);
            assert(dv.contains(sv));
        }
        return ;
    }
    proof {
        if p < n {
            lemma_lex_connex(dv[p as int], sv);
            assert(spec_lex_lt(sv, dv[p as int]));
        }
    }
    v.insert(p, s);
    proof {
        let nv = v.deep_view();
        assert(nv.len() == dv.len() + 1);
        assert forall|j: int| 0 <= j < nv.len() implies nv[j] == (if j < p {
            dv[j]
        } else if j == p {
            sv
        } else {
            dv[j - 1]
        }) by {
            assert(nv[j] == v@[j].deep_view());
            if j < p {
                assert(v@[j] == old(v)@[j]);
            } else if j > p {
                assert(v@[j] == old(v)@[j - 1]);
            }
            assert(dv[j] == (if j < dv.len() {
                old(v)@[j].deep_view()
            } else {
                dv[j]
            }));
            if j > p {
                assert(dv[j - 1] == old(v)@[j - 1].deep_view());
            }
        };
        assert forall|i: int, j: int| 0 <= i < j < nv.len() implies spec_lex_lt(nv[i], nv[j]) by {
            if j < p {
            } else if i < p && j == p {
            } else if i == p && j > p {
                if j - 1 > p {
                    lemma_lex_trans(sv, dv[p as int], dv[j - 1]);
                }
            } else if i < p && j > p {
                if i < j - 1 {
                } else {
                    assert(i == j - 1);
                    assert(i < p && j - 1 >= p);
                    assert(false);
                }
            }
        };
        assert forall|x: Seq<char>| nv.contains(x) <==> (dv.contains(x) || x == sv) by {
            if nv.contains(x) {
                let j = choose|j: int| 0 <= j < nv.len() && nv[j] == x;
                if j < p {
                    assert(dv[j] == x);
                } else if j > p {
                    assert(dv[j - 1] == x);
                }
            }
            if dv.contains(x) {
                let j = choose|j: int| 0 <= j < dv.len() && dv[j] == x;
                if j < p {
                    assert(nv[j] == x);
                } else {
                    assert(nv[j + 1] == x);
                }
            }
            if x == sv {
                assert(nv[p as int] == x);
            }
        };
    }
}

/// Whether `x` occurs as a label of any entry.
pub open spec fn label_in_entries(es: Seq<EntryV>, x: Seq<char>) -> bool {
    exists|a: int, b: int|
        0 <= a < es.len() && 0 <= b < labels_of(es[a]).len() && labels_of(es[a])[b] == x
}

/// The deduplicated, sorted catalogue of every label seen across the index.
pub fn collect_labels(entries: &Vec<MetadataEntry>) -> (r: Vec<String>)
    ensures
        sorted_strict(r.deep_view()),
        forall|x: Seq<char>|
            r.deep_view().contains(x) <==> label_in_entries(entries.deep_view(), x),
{
    let ghost ev = entries.deep_view();
    let n = entries.len();
    let mut out: Vec<String> = Vec::new();
    let mut i: usize = 0;
    while i < n
        invariant
            i <= n,
            n == entries@.len(),
            ev == entries.deep_view(),
            ev.len() == n,
            sorted_strict(out.deep_view()),
            forall|x: Seq<char>| out.deep_view().contains(x) ==> label_in_entries(ev, x),
            forall|a: int, b: int|
                0 <= a < i && 0 <= b < labels_of(ev[a]).len() ==> out.deep_view().contains(
                    labels_of(ev[a])[b],
                ),
        decreases n - i,
    {
        proof {
            assert(ev[i as int] == entries@[i as int].deep_view());
        }
        match &entries[i].gmail_labels {
            Some(ls) => {
                let m = ls.len();
                let mut b: usize = 0;
                while b < m
                    invariant
                        b <= m,
                        m == ls@.len(),
                        i < n,
                        n == entries@.len(),
                        ev == entries.deep_view(),
                        ev.len() == n,
                        labels_of(ev[i as int]) == ls.deep_view(),
                        ls.deep_view().len() == m,
                        sorted_strict(out.deep_view()),
                        forall|x: Seq<char>|
                            out.deep_view().contains(x) ==> label_in_entries(ev, x),
                        forall|a: int, c: int|
                            0 <= a < i && 0 <= c < labels_of(ev[a]).len()
                                ==> out.deep_view().contains(labels_of(ev[a])[c]),
                        forall|c: int|
                            0 <= c < b ==> out.deep_view().contains(labels_of(ev[i as int])[c]),
                    decreases m - b,
                {
                    proof {
                        assert(ls.deep_view()[b as int] == ls@[b as int].deep_view());
                        assert(label_in_entries(ev, labels_of(ev[i as int])[b as int]));
                    }
                    insert_sorted_unique(&mut out, ls[b].clone());
                    b = b + 1;
                }
            },
            None => {},
        }
        i = i + 1;
    }
    out
}

/// The label catalogue as offered to a caller: the catch-all label first,
/// followed by every visible label other than the catch-all itself.
pub fn list_labels(all: &Vec<String>, st: &Settings) -> (r: Vec<String>)
    ensures
        r.deep_view() == seq![catch_all()] + spec_visible_labels(
            spec_visible_labels(all.deep_view(), hidden_labels(st@)),
            seq![catch_all()],
        ),
{
    let f = visible_labels(all, &st.filter_labels);
    let mut ca: Vec<char> = Vec::new();
    ca.push('A');
    ca.push('l');
    ca.push('l');
    ca.push('e');
    ca.push(' ');
    ca.push('M');
    ca.push('a');
    ca.push('i');
    ca.push('l');
    ca.push('s');
    proof {
        assert(ca@ =~= catch_all());
    }
    let ca_s = chars_to_string(&ca);
    let mut ca_list: Vec<String> = Vec::new();
    ca_list.push(crate::model::clone_string(&ca_s));
    let ca_hidden: Option<Vec<String>> = Some(ca_list);
    proof {
        match ca_hidden.deep_view() {
            Option::Some(h) => {
                assert(h =~= seq![catch_all()]);
            },
            Option::None => {},
        }
    }
    let mut g = visible_labels(&f, &ca_hidden);
    let ghost gv = g.deep_view();
    let ghost gexec = g@;
    g.insert(0, ca_s);
    proof {
        let nv = g.deep_view();
        assert forall|j: int| 0 <= j < nv.len() implies nv[j] == (seq![catch_all()] + gv)[j] by {
            assert(nv[j] == g@[j].deep_view());
            if j > 0 {
                assert(g@[j] == gexec[j - 1]);
                assert(gv[j - 1] == gexec[j - 1].deep_view());
            }
        };
        assert(nv =~= seq![catch_all()] + gv);
    }
    g
}

/// The position of the entry with the given id, scanning in archive order.
pub fn find_by_id(entries: &Vec<MetadataEntry>, id: &String) -> (r: Option<usize>)
    ensures
        match r {
            Option::Some(i) => i < entries.deep_view().len() && entries.deep_view()[i as int].id
                == id@ && forall|j: int|
                0 <= j < i ==> entries.deep_view()[j].id != id@,
            Option::None => forall|j: int|
                0 <= j < entries.deep_view().len() ==> entries.deep_view()[j].id != id@,
        },
{
    let n = entries.len();
    let mut i: usize = 0;
    while i < n
        invariant
            i <= n,
            n == entries@.len(),
            forall|j: int| 0 <= j < i ==> entries.deep_view()[j].id != id@,
        decreases n - i,
    {
        proof {
            assert(entries.deep_view()[i as int] == entries@[i as int].deep_view());
        }
        if entries[i].id.eq(id) {
            return Some(i);
        }
        i = i + 1;
    }
    None
}

} // verus!
