//! The archive reader: an in-memory metadata index, a derived label
//! catalogue, and a cached handle to the per-message byte store, serving
//! label listing, filtered search, message detail and attachment download.

use vstd::prelude::*;
use vstd::slice::slice_to_vec;
use vstd::string::StringExecFns;
use crate::headers::{decode_header_robust, spec_decode_header};
use crate::mime::{mime_attachment_parts, mime_body_html, mime_body_text, mime_html_of,
    mime_parse_ok, mime_parses, mime_parts_of, mime_text_of, PartV};
use crate::model::{clone_opt_string, clone_string, hidden_labels, labels_of, EntryV,
    MetadataEntry, Settings};
use crate::search::{catch_all, collect_labels, find_by_id, label_in_entries, list_labels,
    search_messages, sorted_strict, spec_visible_labels, SearchQuery, SearchResult};
use crate::text::chars_to_string;
use crate::zipio::{za_entries, za_readable, zip_open, zip_read_entry, ZipReadOutcome};

verus! {

/// How a lookup fails: the requested thing is not in the archive, or the
/// archive's stored data cannot be used.
#[derive(Debug)]
pub enum FetchError {
    NotFound,
    Internal,
}

pub struct AttachmentInfo {
    pub filename: String,
    pub content_type: Option<String>,
    pub content_id: Option<String>,
}

pub ghost struct AttInfoV {
    pub filename: Seq<char>,
    pub content_type: Option<Seq<char>>,
    pub content_id: Option<Seq<char>>,
}

impl View for AttachmentInfo {
    type V = AttInfoV;

    open spec fn view(&self) -> AttInfoV {
        AttInfoV {
            filename: self.filename@,
            content_type: self.content_type.deep_view(),
            content_id: self.content_id.deep_view(),
        }
    }
}

impl DeepView for AttachmentInfo {
    type V = AttInfoV;

    open spec fn deep_view(&self) -> AttInfoV {
        self.view()
    }
}

pub struct MessageDetail {
    pub id: String,
    pub subject: String,
    pub from_line: String,
    pub to_line: String,
    pub date: String,
    pub body: String,
    pub is_html: bool,
    pub attachments: Vec<AttachmentInfo>,
    pub labels: Vec<String>,
}

pub struct AttachmentDownload {
    pub filename: String,
    pub content_type: String,
    pub bytes: Vec<u8>,
}

// ---------- display specifications ----------

pub open spec fn no_content_marker() -> Seq<char> {
    seq!['[', 'K', 'e', 'i', 'n', ' ', 'I', 'n', 'h', 'a', 'l', 't', ']']
}

pub open spec fn unnamed_marker() -> Seq<char> {
    seq!['u', 'n', 'n', 'a', 'm', 'e', 'd']
}

pub open spec fn octet_stream_marker() -> Seq<char> {
    "application/octet-stream"@
}

/// The displayed body: the HTML body, else the plain text, else the
/// no-content placeholder.
pub open spec fn spec_body(raw: Seq<u8>) -> Seq<char> {
    match mime_html_of(raw) {
        Option::Some(h) => h,
        Option::None => match mime_text_of(raw) {
            Option::Some(t) => t,
            Option::None => no_content_marker(),
        },
    }
}

/// The attachment descriptors of a message, filenames defaulted.
pub open spec fn spec_att_infos(raw: Seq<u8>) -> Seq<AttInfoV> {
    mime_parts_of(raw).map_values(
        |p: PartV|
            AttInfoV {
                filename: match p.filename {
                    Option::Some(f) => f,
                    Option::None => unnamed_marker(),
                },
                content_type: p.mime,
                content_id: p.content_id,
            },
    )
}

/// The first metadata record under an id.
pub open spec fn spec_find_entry(es: Seq<EntryV>, id: Seq<char>) -> Option<EntryV>
    decreases es.len(),
{
    if es.len() == 0 {
        Option::<EntryV>::None
    } else if es[0].id == id {
        Option::Some(es[0])
    } else {
        spec_find_entry(es.drop_first(), id)
    }
}

proof fn lemma_find_entry_at(es: Seq<EntryV>, id: Seq<char>, i: int)
    requires
        0 <= i < es.len(),
        es[i].id == id,
        forall|j: int| 0 <= j < i ==> es[j].id != id,
    ensures
        spec_find_entry(es, id) == Option::Some(es[i]),
    decreases i,
{
    if i > 0 {
        lemma_find_entry_at(es.drop_first(), id, i - 1);
    }
}

proof fn lemma_find_entry_none(es: Seq<EntryV>, id: Seq<char>)
    requires
        forall|j: int| 0 <= j < es.len() ==> es[j].id != id,
    ensures
        spec_find_entry(es, id) is None,
    decreases es.len(),
{
    if es.len() > 0 {
        lemma_find_entry_none(es.drop_first(), id);
    }
}

pub open spec fn opt_or_empty(o: Option<Seq<char>>) -> Seq<char> {
    match o {
        Option::Some(s) => s,
        Option::None => Seq::<char>::empty(),
    }
}

/// The displayed sender: `name <address>` when both are present and the
/// name is non-empty; otherwise whichever part exists.
pub open spec fn spec_from_line(e: Option<EntryV>) -> Seq<char> {
    match e {
        Option::Some(en) => match (en.sender_name, en.sender_address) {
            (Option::Some(n), Option::Some(a)) => if n.len() == 0 {
                a
            } else {
                n + seq![' ', '<'] + a + seq!['>']
            },
            (Option::None, Option::Some(a)) => a,
            (Option::Some(n), Option::None) => n,
            (Option::None, Option::None) => Seq::<char>::empty(),
        },
        Option::None => Seq::<char>::empty(),
    }
}

/// Comma-and-space join of the recipient list.
pub open spec fn spec_join_comma(parts: Seq<Seq<char>>) -> Seq<char>
    decreases parts.len(),
{
    if parts.len() == 0 {
        Seq::<char>::empty()
    } else if parts.len() == 1 {
        parts[0]
    } else {
        parts[0] + seq![',', ' '] + spec_join_comma(parts.drop_first())
    }
}

pub open spec fn spec_to_line(e: Option<EntryV>) -> Seq<char> {
    match e {
        Option::Some(en) => match en.to_addresses {
            Option::Some(v) => spec_join_comma(v),
            Option::None => Seq::<char>::empty(),
        },
        Option::None => Seq::<char>::empty(),
    }
}

proof fn lemma_join_step(parts: Seq<Seq<char>>, k: int)
    requires
        1 <= k < parts.len(),
    ensures
        spec_join_comma(parts.take(k + 1)) == spec_join_comma(parts.take(k)) + seq![',', ' ']
            + parts[k],
    decreases k,
{
    let a = parts.take(k + 1);
    let b = parts.take(k);
    if k == 1 {
        assert(a.len() == 2);
        assert(a.drop_first() =~= seq![parts[1]]);
        assert(a[0] == parts[0]);
        assert(b =~= seq![parts[0]]);
        assert(spec_join_comma(seq![parts[1]]) == parts[1]);
        assert(spec_join_comma(seq![parts[0]]) == parts[0]);
    } else {
        lemma_join_step(parts.drop_first(), k - 1);
        assert(a.drop_first() =~= parts.drop_first().take(k));
        assert(b.drop_first() =~= parts.drop_first().take(k - 1));
        assert(a[0] == parts[0]);
        assert(b[0] == parts[0]);
        assert(parts.drop_first()[k - 1] == parts[k]);
        assert((parts[0] + seq![',', ' '] + spec_join_comma(b.drop_first())) + seq![',', ' ']
            + parts[k] =~= parts[0] + seq![',', ' '] + (spec_join_comma(b.drop_first()) + seq![
            ',',
            ' ',
        ] + parts[k]));
    }
}

/// Joins strings with `, `.
pub fn join_comma(v: &Vec<String>) -> (r: String)
    ensures
        r@ == spec_join_comma(v.deep_view()),
{
    let ghost dv = v.deep_view();
    if v.len() == 0 {
        let r = String::new();
        proof {
            assert(r@ =~= spec_join_comma(dv));
        }
        return r;
    }
    let mut out = clone_string(&v[0]);
    proof {
        assert(dv[0] == v@[0].deep_view());
        assert(dv.take(1) =~= seq![dv[0]]);
    }
    let mut i: usize = 1;
    while i < v.len()
        invariant
            1 <= i <= v@.len(),
            dv == v.deep_view(),
            dv.len() == v@.len(),
            out@ == spec_join_comma(dv.take(i as int)),
        decreases v@.len() - i,
    {
        proof {
            assert(dv[i as int] == v@[i as int].deep_view());
        }
        let mut sepv: Vec<char> = Vec::new();
        sepv.push(',');
        sepv.push(' ');
        proof {
            assert(sepv@ =~= seq![',', ' ']);
        }
        let sep = chars_to_string(&sepv);
        out.append(sep.as_str());
        out.append(v[i].as_str());
        proof {
            lemma_join_step(dv, i as int);
        }
        i = i + 1;
    }
    proof {
        assert(dv.take(dv.len() as int) =~= dv);
    }
    out
}

/// The first attachment part whose (defaulted) filename is exactly `name`.
pub open spec fn spec_find_part(parts: Seq<PartV>, name: Seq<char>) -> Option<PartV>
    decreases parts.len(),
{
    if parts.len() == 0 {
        Option::<PartV>::None
    } else if opt_or_empty(parts[0].filename) == name {
        Option::Some(parts[0])
    } else {
        spec_find_part(parts.drop_first(), name)
    }
}

proof fn lemma_find_part_at(parts: Seq<PartV>, name: Seq<char>, i: int)
    requires
        0 <= i < parts.len(),
        opt_or_empty(parts[i].filename) == name,
        forall|j: int| 0 <= j < i ==> opt_or_empty(parts[j].filename) != name,
    ensures
        spec_find_part(parts, name) == Option::Some(parts[i]),
    decreases i,
{
    if i > 0 {
        lemma_find_part_at(parts.drop_first(), name, i - 1);
    }
}

proof fn lemma_find_part_none(parts: Seq<PartV>, name: Seq<char>)
    requires
        forall|j: int| 0 <= j < parts.len() ==> opt_or_empty(parts[j].filename) != name,
    ensures
        spec_find_part(parts, name) is None,
    decreases parts.len(),
{
    if parts.len() > 0 {
        lemma_find_part_none(parts.drop_first(), name);
    }
}

// ---------- the reader ----------

/// An opened archive: the metadata index, the derived label catalogue, the
/// configuration in force, and the byte-store handle.
pub struct Reader {
    pub settings: Settings,
    pub entries: Vec<MetadataEntry>,
    pub labels: Vec<String>,
    pub archive: zip::ZipArchive<std::io::Cursor<Vec<u8>>>,
}

impl Reader {
    /// The label catalogue is the sorted, deduplicated set of labels of the
    /// index.
    pub open spec fn wf(&self) -> bool {
        &&& sorted_strict(self.labels.deep_view())
        &&& forall|x: Seq<char>|
            self.labels.deep_view().contains(x) <==> label_in_entries(
                self.entries.deep_view(),
                x,
            )
    }

    /// Opens a produced container around an already-loaded metadata index.
    /// Fails exactly when the bytes are not a readable container.
    pub fn open(container: Vec<u8>, entries: Vec<MetadataEntry>, settings: Settings) -> (r:
        Option<Reader>)
        ensures
            match r {
                Option::Some(rd) => {
                    &&& rd.wf()
                    &&& rd.entries@ == entries@
                    &&& rd.settings == settings
                    &&& crate::zipio::zip_content(container@) == Option::Some(
                        za_entries(rd.archive),
                    )
                },
                Option::None => crate::zipio::zip_content(container@) is None,
            },
    {
        let labels = collect_labels(&entries);
        match zip_open(container) {
            Some(archive) => Some(Reader { settings, entries, labels, archive }),
            None => None,
        }
    }

    /// The visible label catalogue: the catch-all label first, then every
    /// other visible label.
    pub fn list_labels(&self) -> (r: Vec<String>)
        ensures
            r.deep_view() == seq![catch_all()] + spec_visible_labels(
                spec_visible_labels(self.labels.deep_view(), hidden_labels(self.settings@)),
                seq![catch_all()],
            ),
    {
        list_labels(&self.labels, &self.settings)
    }

    /// Filtered, paginated search over the metadata index.
    pub fn search(&self, q: &SearchQuery) -> (r: SearchResult)
        ensures
            r.total == crate::search::spec_filtered(
                self.entries.deep_view(),
                q@,
                self.settings@,
            ).len(),
            r.messages.deep_view() == crate::search::spec_search_page(
                self.entries.deep_view(),
                q@,
                self.settings@,
            ),
    {
        search_messages(&self.entries, q, &self.settings)
    }

    /// One message rendered for display. The raw bytes come from the byte
    /// store; the headers shown come from the metadata index, decoded anew.
    pub fn get_message(&mut self, id: &String) -> (r: Result<MessageDetail, FetchError>)
        requires
            old(self).wf(),
        ensures
            final(self).wf(),
            final(self).entries@ == old(self).entries@,
            final(self).settings == old(self).settings,
            final(self).labels@ == old(self).labels@,
            za_entries(final(self).archive) == za_entries(old(self).archive),
            match r {
                Result::Ok(m) => {
                    let store = za_entries(old(self).archive);
                    let raw = store[id@];
                    let entry = spec_find_entry(old(self).entries.deep_view(), id@);
                    &&& store.contains_key(id@)
                    &&& mime_parses(raw)
                    &&& m.id@ == id@
                    &&& m.body@ == spec_body(raw)
                    &&& m.is_html == (mime_html_of(raw) is Some)
                    &&& m.attachments.deep_view() == spec_att_infos(raw)
                    &&& m.subject@ == spec_decode_header(
                        opt_or_empty(
                            match entry {
                                Option::Some(en) => en.subject,
                                Option::None => Option::<Seq<char>>::None,
                            },
                        ),
                    )
                    &&& m.from_line@ == spec_decode_header(spec_from_line(entry))
                    &&& m.to_line@ == spec_decode_header(spec_to_line(entry))
                    &&& m.date@ == opt_or_empty(
                        match entry {
                            Option::Some(en) => en.date_sent_iso,
                            Option::None => Option::<Seq<char>>::None,
                        },
                    )
                    &&& m.labels.deep_view() == spec_visible_labels(
                        match entry {
                            Option::Some(en) => labels_of(en),
                            Option::None => Seq::<Seq<char>>::empty(),
                        },
                        hidden_labels(old(self).settings@),
                    )
                },
                Result::Err(FetchError::NotFound) => !za_entries(
                    old(self).archive,
                ).contains_key(id@),
                Result::Err(FetchError::Internal) => {
                    let store = za_entries(old(self).archive);
                    store.contains_key(id@) && (!za_readable(old(self).archive, id@)
                        || !mime_parses(store[id@]))
                },
            },
    {
        let raw = match zip_read_entry(&mut self.archive, id.as_str()) {
            ZipReadOutcome::Found(b) => b,
            ZipReadOutcome::Missing => {
                return Err(FetchError::NotFound);
            },
            ZipReadOutcome::Corrupt => {
                return Err(FetchError::Internal);
            },
        };
        if !mime_parse_ok(raw.as_slice()) {
            return Err(FetchError::Internal);
        }
        let body = match mime_body_html(raw.as_slice()) {
            Some(h) => h,
            None => match mime_body_text(raw.as_slice()) {
                Some(t) => t,
                None => {
                    let mut v: Vec<char> = Vec::new();
                    v.push('[');
                    v.push('K');
                    v.push('e');
                    v.push('i');
                    v.push('n');
                    v.push(' ');
                    v.push('I');
                    v.push('n');
                    v.push('h');
                    v.push('a');
                    v.push('l');
                    v.push('t');
                    v.push(']');
                    proof {
                        assert(v@ =~= no_content_marker());
                    }
                    chars_to_string(&v)
                },
            },
        };
        let is_html = match mime_body_html(raw.as_slice()) {
            Some(_) => true,
            None => false,
        };
        let parts = mime_attachment_parts(raw.as_slice());
        let np = parts.len();
        let mut infos: Vec<AttachmentInfo> = Vec::new();
        let mut j: usize = 0;
        while j < np
            invariant
                j <= np,
                np == parts@.len(),
                parts.deep_view() == mime_parts_of(raw@),
                infos@.len() == j,
                forall|x: int| 0 <= x < j ==> infos.deep_view()[x] == spec_att_infos(raw@)[x],
            decreases np - j,
        {
            let p = &parts[j];
            proof {
                assert(parts.deep_view()[j as int] == parts@[j as int].deep_view());
            }
            let fname = match &p.filename {
                Some(f) => clone_string(f),
                None => {
                    let mut v: Vec<char> = Vec::new();
                    v.push('u');
                    v.push('n');
                    v.push('n');
                    v.push('a');
                    v.push('m');
                    v.push('e');
                    v.push('d');
                    proof {
                        assert(v@ =~= unnamed_marker());
                    }
                    chars_to_string(&v)
                },
            };
            let info = AttachmentInfo {
                filename: fname,
                content_type: clone_opt_string(&p.mime),
                content_id: clone_opt_string(&p.content_id),
            };
            proof {
                assert(info@ == spec_att_infos(raw@)[j as int]);
            }
            let ghost iv = info@;
            let ghost prevm = infos@;
            let ghost prevdv = infos.deep_view();
            infos.push(info);
            j = j + 1;
            proof {
                assert forall|x: int| 0 <= x < j implies infos.deep_view()[x] == spec_att_infos(
                    raw@,
                )[x] by {
                    assert(infos.deep_view()[x] == infos@[x].deep_view());
                    if x == j - 1 {
                        assert(infos@[x].deep_view() == iv);
                    } else {
                        assert(infos@[x] == prevm[x]);
                        assert(prevdv[x] == prevm[x].deep_view());
                        assert(prevdv[x] == spec_att_infos(raw@)[x]);
                    }
                };
            }
        }
        proof {
            assert(infos.deep_view() =~= spec_att_infos(raw@));
        }
        let ghost entriesv = self.entries.deep_view();
        let found = find_by_id(&self.entries, id);
        proof {
            match found {
                Option::Some(i) => {
                    lemma_find_entry_at(entriesv, id@, i as int);
                },
                Option::None => {
                    lemma_find_entry_none(entriesv, id@);
                },
            }
        }
        let (subject_raw, from_raw, to_raw, date_str, label_list) = match found {
            Some(i) => {
                let e = &self.entries[i];
                proof {
                    assert(entriesv[i as int] == self.entries@[i as int].deep_view());
                }
                let subject_raw = match &e.subject {
                    Some(s) => clone_string(s),
                    None => String::new(),
                };
                let from_raw = match (&e.sender_name, &e.sender_address) {
                    (Some(n), Some(a)) => {
                        if n.as_str().is_empty() {
                            clone_string(a)
                        } else {
                            let mut f = clone_string(n);
                            let mut ob: Vec<char> = Vec::new();
                            ob.push(' ');
                            ob.push('<');
                            let mut cb: Vec<char> = Vec::new();
                            cb.push('>');
                            proof {
                                assert(ob@ =~= seq![' ', '<']);
                                assert(cb@ =~= seq!['>']);
                            }
                            let obs = chars_to_string(&ob);
                            let cbs = chars_to_string(&cb);
                            f.append(obs.as_str());
                            f.append(a.as_str());
                            f.append(cbs.as_str());
                            f
                        }
                    },
                    (None, Some(a)) => clone_string(a),
                    (Some(n), None) => clone_string(n),
                    (None, None) => String::new(),
                };
                let to_raw = match &e.to_addresses {
                    Some(v) => join_comma(v),
                    None => String::new(),
                };
                let date_str = match &e.date_sent_iso {
                    Some(d) => clone_string(d),
                    None => String::new(),
                };
                let label_list = match &e.gmail_labels {
                    Some(l) => crate::model::clone_vec_string(l),
                    None => Vec::new(),
                };
                (subject_raw, from_raw, to_raw, date_str, label_list)
            },
            None => (String::new(), String::new(), String::new(), String::new(), Vec::new()),
        };
        let labels = crate::search::visible_labels(&label_list, &self.settings.filter_labels);
        Ok(
            MessageDetail {
                id: clone_string(id),
                subject: decode_header_robust(subject_raw.as_str()),
                from_line: decode_header_robust(from_raw.as_str()),
                to_line: decode_header_robust(to_raw.as_str()),
                date: date_str,
                body,
                is_html,
                attachments: infos,
                labels,
            },
        )
    }

    /// One attachment fetched by exact filename; the first match wins.
    pub fn get_attachment(&mut self, id: &String, filename: &String) -> (r: Result<
        AttachmentDownload,
        FetchError,
    >)
        requires
            old(self).wf(),
        ensures
            final(self).wf(),
            final(self).entries@ == old(self).entries@,
            final(self).settings == old(self).settings,
            final(self).labels@ == old(self).labels@,
            za_entries(final(self).archive) == za_entries(old(self).archive),
            match r {
                Result::Ok(d) => {
                    let store = za_entries(old(self).archive);
                    let raw = store[id@];
                    &&& store.contains_key(id@)
                    &&& match spec_find_part(mime_parts_of(raw), filename@) {
                        Option::Some(p) => d.bytes@ == p.contents && d.content_type@ == (
                        match p.mime {
                            Option::Some(m) => m,
                            Option::None => octet_stream_marker(),
                        }) && d.filename@ == filename@,
                        Option::None => false,
                    }
                },
                Result::Err(FetchError::NotFound) => !za_entries(
                    old(self).archive,
                ).contains_key(id@) || (za_readable(old(self).archive, id@) && mime_parses(
                    za_entries(old(self).archive)[id@],
                ) && spec_find_part(
                    mime_parts_of(za_entries(old(self).archive)[id@]),
                    filename@,
                ) is None),
                Result::Err(FetchError::Internal) => {
                    let store = za_entries(old(self).archive);
                    store.contains_key(id@) && (!za_readable(old(self).archive, id@)
                        || !mime_parses(store[id@]))
                },
            },
    {
        let raw = match zip_read_entry(&mut self.archive, id.as_str()) {
            ZipReadOutcome::Found(b) => b,
            ZipReadOutcome::Missing => {
                return Err(FetchError::NotFound);
            },
            ZipReadOutcome::Corrupt => {
                return Err(FetchError::Internal);
            },
        };
        if !mime_parse_ok(raw.as_slice()) {
            return Err(FetchError::Internal);
        }
        let parts = mime_attachment_parts(raw.as_slice());
        let ghost pv = parts.deep_view();
        let np = parts.len();
        let mut j: usize = 0;
        while j < np
            invariant
                j <= np,
                np == parts@.len(),
                pv == parts.deep_view(),
                pv.len() == np,
                self.wf(),
                self.entries@ == old(self).entries@,
                self.settings == old(self).settings,
                self.labels@ == old(self).labels@,
                za_entries(self.archive) == za_entries(old(self).archive),
                za_entries(old(self).archive).contains_key(id@),
                raw@ == za_entries(old(self).archive)[id@],
                mime_parses(raw@),
                pv == mime_parts_of(raw@),
                forall|x: int| 0 <= x < j ==> opt_or_empty(pv[x].filename) != filename@,
            decreases np - j,
        {
            let p = &parts[j];
            proof {
                assert(pv[j as int] == parts@[j as int].deep_view());
            }
            let hit = match &p.filename {
                Some(f) => f.eq(filename),
                None => filename.as_str().is_empty(),
            };
            if hit {
                proof {
                    assert(opt_or_empty(pv[j as int].filename) =~= filename@);
                    lemma_find_part_at(pv, filename@, j as int);
                }
                let ct = match &p.mime {
                    Some(m) => clone_string(m),
                    None => String::from_str("application/octet-stream"),
                };
                return Ok(
                    AttachmentDownload {
                        filename: clone_string(filename),
                        content_type: ct,
                        bytes: slice_to_vec(p.contents.as_slice()),
                    },
                );
            }
            proof {
                if opt_or_empty(pv[j as int].filename) == filename@ {
                    assert(false);
                }
            }
            j = j + 1;
        }
        proof {
            lemma_find_part_none(pv, filename@);
        }
        Err(FetchError::NotFound)
    }
}

} // verus!
