//! The relational index: one row per message plus a parallel full-text row,
//! built in memory and serialized into the container. The derivation of the
//! row values from a metadata record is verified; the database engine is
//! reached through trusted bridges whose model is the row sequences.

use vstd::prelude::*;
use crate::model::{EntryV, MetadataEntry};

verus! {

// ---------- joined string fields ----------

/// Space-separated join.
pub open spec fn spec_join_sp(parts: Seq<Seq<char>>) -> Seq<char>
    decreases parts.len(),
{
    if parts.len() == 0 {
        Seq::<char>::empty()
    } else if parts.len() == 1 {
        parts[0]
    } else {
        parts[0] + seq![' '] + spec_join_sp(parts.drop_first())
    }
}

proof fn lemma_join_sp_step(parts: Seq<Seq<char>>, k: int)
    requires
        1 <= k < parts.len(),
    ensures
        spec_join_sp(parts.take(k + 1)) == spec_join_sp(parts.take(k)) + seq![' '] + parts[k],
    decreases k,
{
    let a = parts.take(k + 1);
    let b = parts.take(k);
    if k == 1 {
        assert(a.len() == 2);
        assert(a.drop_first() =~= seq![parts[1]]);
        assert(a[0] == parts[0]);
        assert(b =~= seq![parts[0]]);
        assert(spec_join_sp(seq![parts[1]]) == parts[1]);
        assert(spec_join_sp(seq![parts[0]]) == parts[0]);
    } else {
        lemma_join_sp_step(parts.drop_first(), k - 1);
        assert(a.drop_first() =~= parts.drop_first().take(k));
        assert(b.drop_first() =~= parts.drop_first().take(k - 1));
        assert(a[0] == parts[0]);
        assert(b[0] == parts[0]);
        assert(parts.drop_first()[k - 1] == parts[k]);
        assert((parts[0] + seq![' '] + spec_join_sp(b.drop_first())) + seq![' '] + parts[k] =~=
        parts[0] + seq![' '] + (spec_join_sp(b.drop_first()) + seq![' '] + parts[k]));
    }
}

/// Joins strings with single spaces.
pub fn join_sp(v: &Vec<String>) -> (r: String)
    ensures
        r@ == spec_join_sp(v.deep_view()),
{
    let ghost dv = v.deep_view();
    if v.len() == 0 {
        let r = String::new();
        proof {
            assert(r@ =~= spec_join_sp(dv));
        }
        return r;
    }
    let mut out = crate::model::clone_string(&v[0]);
    proof {
        assert(dv[0] == v@[0].deep_view());
        assert(dv.take(1) =~= seq![dv[0]]);
    }
    let mut i: usize = 1;
    while i < v.len()
        invariant
            1 <= i <= v@.len(),
            dv == v.deep_view(),
            dv.len() == v@.len(),
            out@ == spec_join_sp(dv.take(i as int)),
        decreases v@.len() - i,
    {
        proof {
            assert(dv[i as int] == v@[i as int].deep_view());
        }
        let mut sepv: Vec<char> = Vec::new();
        sepv.push(' ');
        proof {
            assert(sepv@ =~= seq![' ']);
        }
        let sep = crate::text::chars_to_string(&sepv);
        out.append(sep.as_str());
        out.append(v[i].as_str());
        proof {
            lemma_join_sp_step(dv, i as int);
        }
        i = i + 1;
    }
    proof {
        assert(dv.take(dv.len() as int) =~= dv);
    }
    out
}

/// The attachment filenames that are present, in order.
pub open spec fn spec_att_names(atts: Seq<crate::model::AttV>) -> Seq<Seq<char>>
    decreases atts.len(),
{
    if atts.len() == 0 {
        Seq::<Seq<char>>::empty()
    } else {
        (match atts[0].filename {
            Option::Some(f) => seq![f],
            Option::None => Seq::<Seq<char>>::empty(),
        }) + spec_att_names(atts.drop_first())
    }
}

fn att_names_list(atts: &Vec<crate::model::AttachmentMetadata>) -> (r: Vec<String>)
    ensures
        r.deep_view() == spec_att_names(atts.deep_view()),
{
    let ghost av = atts.deep_view();
    let n = atts.len();
    let mut out: Vec<String> = Vec::new();
    proof {
        assert(av.skip(0) =~= av);
        assert(Seq::<Seq<char>>::empty() + spec_att_names(av) =~= spec_att_names(av));
    }
    let mut i: usize = 0;
    while i < n
        invariant
            i <= n,
            n == atts@.len(),
            av == atts.deep_view(),
            av.len() == n,
            spec_att_names(av) == out.deep_view() + spec_att_names(av.skip(i as int)),
        decreases n - i,
    {
        let ghost prev = out.deep_view();
        proof {
            assert(av.skip(i as int)[0] == av[i as int]);
            assert(av.skip(i as int).drop_first() =~= av.skip(i + 1));
            assert(av[i as int] == atts@[i as int].deep_view());
        }
        match &atts[i].filename {
            Some(f) => {
                let ghost fv = f@;
                out.push(crate::model::clone_string(f));
                proof {
                    assert(out.deep_view() =~~= prev.push(fv));
                    assert(prev.push(fv) =~= prev + seq![fv]);
                    assert((prev + seq![fv]) + spec_att_names(av.skip(i + 1)) =~= prev + (
                    seq![fv] + spec_att_names(av.skip(i + 1))));
                }
            },
            None => {
                proof {
                    assert(prev + (Seq::<Seq<char>>::empty() + spec_att_names(av.skip(i + 1)))
                        =~= prev + spec_att_names(av.skip(i + 1)));
                }
            },
        }
        i = i + 1;
    }
    proof {
        assert(av.skip(n as int) =~= Seq::<crate::model::AttV>::empty());
        assert(spec_att_names(av.skip(n as int)) =~= Seq::<Seq<char>>::empty());
        assert(out.deep_view() + Seq::<Seq<char>>::empty() =~= out.deep_view());
    }
    out
}

// ---------- row models ----------

pub ghost struct RowV {
    pub id: Seq<char>,
    pub subject: Option<Seq<char>>,
    pub sender_name: Option<Seq<char>>,
    pub sender_address: Option<Seq<char>>,
    pub date_sent_iso: Option<Seq<char>>,
    pub has_attachment: bool,
    pub labels: Seq<char>,
}

pub ghost struct FtsV {
    pub id: Seq<char>,
    pub subject: Option<Seq<char>>,
    pub sender_name: Option<Seq<char>>,
    pub sender_address: Option<Seq<char>>,
    pub recipients: Seq<char>,
    pub snippet: Option<Seq<char>>,
    pub attachment_names: Seq<char>,
}

pub open spec fn opt_labels(e: EntryV) -> Seq<Seq<char>> {
    crate::model::labels_of(e)
}

/// The `messages` row of a metadata record: core fields mirrored, labels
/// space-joined.
pub open spec fn spec_row_of(e: EntryV) -> RowV {
    RowV {
        id: e.id,
        subject: e.subject,
        sender_name: e.sender_name,
        sender_address: e.sender_address,
        date_sent_iso: e.date_sent_iso,
        has_attachment: e.has_attachment,
        labels: spec_join_sp(opt_labels(e)),
    }
}

pub open spec fn opt_seq(o: Option<Seq<Seq<char>>>) -> Seq<Seq<char>> {
    match o {
        Option::Some(v) => v,
        Option::None => Seq::<Seq<char>>::empty(),
    }
}

/// The recipients column: To then Cc, space-joined and trimmed.
pub open spec fn spec_recipients_of(e: EntryV) -> Seq<char> {
    crate::text::spec_trim(
        spec_join_sp(opt_seq(e.to_addresses)) + seq![' '] + spec_join_sp(opt_seq(e.cc_addresses)),
    )
}

/// The full-text row of a metadata record.
pub open spec fn spec_fts_of(e: EntryV) -> FtsV {
    FtsV {
        id: e.id,
        subject: e.subject,
        sender_name: e.sender_name,
        sender_address: e.sender_address,
        recipients: spec_recipients_of(e),
        snippet: e.snippet,
        attachment_names: spec_join_sp(
            spec_att_names(
                match e.attachments {
                    Option::Some(a) => a,
                    Option::None => Seq::<crate::model::AttV>::empty(),
                },
            ),
        ),
    }
}

// ---------- trusted bridges to the database engine ----------

#[verifier::external_type_specification]
#[verifier::external_body]
pub struct ExConnection(rusqlite::Connection);

/// The rows of the `messages` table, in insertion order.
pub uninterp spec fn db_rows(c: rusqlite::Connection) -> Seq<RowV>;

/// The rows of the `messages_fts` table, in insertion order.
pub uninterp spec fn db_fts(c: rusqlite::Connection) -> Seq<FtsV>;

/// The rows carried by a serialized database image; absent when the bytes
/// are not such an image.
pub uninterp spec fn db_image(data: Seq<u8>) -> Option<(Seq<RowV>, Seq<FtsV>)>;

/// Relies on `Connection::open_in_memory` and `Connection::execute_batch`
/// creating the container's schema: the `messages` table, its date index
/// and the `messages_fts` full-text table, all empty.
#[verifier::external_body]
pub(crate) fn db_create() -> (r: Option<rusqlite::Connection>)
    ensures
        match r {
            Option::Some(c) => db_rows(c) == Seq::<RowV>::empty() && db_fts(c) == Seq::<
                FtsV,
            >::empty(),
            Option::None => true,
        },
{
    let c = match rusqlite::Connection::open_in_memory() {
        Ok(c) => c,
        Err(_) => return None,
    };
    let schema = "CREATE TABLE messages (id TEXT PRIMARY KEY, subject TEXT, sender_name TEXT, sender_address TEXT, date_sent_iso TEXT, has_attachment INTEGER, labels TEXT); CREATE INDEX idx_messages_date ON messages(date_sent_iso); CREATE VIRTUAL TABLE messages_fts USING fts5(id UNINDEXED, subject, sender_name, sender_address, recipients, snippet, attachment_names);";
    match c.execute_batch(schema) {
        Ok(_) => Some(c),
        Err(_) => None,
    }
}

/// Relies on `Connection::prepare_cached` and `Statement::execute`: on
/// success exactly one row is appended to `messages`, with the attachment
/// flag stored as 0 or 1.
#[verifier::external_body]
pub(crate) fn db_insert_message(
    c: &mut rusqlite::Connection,
    id: &str,
    subject: &Option<String>,
    sender_name: &Option<String>,
    sender_address: &Option<String>,
    date: &Option<String>,
    has_attachment: bool,
    labels: &str,
) -> (r: bool)
    ensures
        r ==> db_rows(*final(c)) == db_rows(*old(c)).push(
            (RowV {
                id: id@,
                subject: subject.deep_view(),
                sender_name: sender_name.deep_view(),
                sender_address: sender_address.deep_view(),
                date_sent_iso: date.deep_view(),
                has_attachment: has_attachment,
                labels: labels@,
            }),
        ),
        r ==> db_fts(*final(c)) == db_fts(*old(c)),
{
    let mut stmt = match c.prepare_cached(
        "INSERT INTO messages (id, subject, sender_name, sender_address, date_sent_iso, has_attachment, labels) VALUES (?, ?, ?, ?, ?, ?, ?)",
    ) {
        Ok(s) => s,
        Err(_) => return false,
    };
    let flag: i64 = if has_attachment {
        1
    } else {
        0
    };
    stmt.execute((id, subject, sender_name, sender_address, date, flag, labels)).is_ok()
}

/// Relies on `Connection::prepare_cached` and `Statement::execute`: on
/// success exactly one row is appended to `messages_fts`.
#[verifier::external_body]
pub(crate) fn db_insert_fts(
    c: &mut rusqlite::Connection,
    id: &str,
    subject: &Option<String>,
    sender_name: &Option<String>,
    sender_address: &Option<String>,
    recipients: &str,
    snippet: &Option<String>,
    attachment_names: &str,
) -> (r: bool)
    ensures
        r ==> db_fts(*final(c)) == db_fts(*old(c)).push(
            (FtsV {
                id: id@,
                subject: subject.deep_view(),
                sender_name: sender_name.deep_view(),
                sender_address: sender_address.deep_view(),
                recipients: recipients@,
                snippet: snippet.deep_view(),
                attachment_names: attachment_names@,
            }),
        ),
        r ==> db_rows(*final(c)) == db_rows(*old(c)),
{
    let mut stmt = match c.prepare_cached(
        "INSERT INTO messages_fts (id, subject, sender_name, sender_address, recipients, snippet, attachment_names) VALUES (?, ?, ?, ?, ?, ?, ?)",
    ) {
        Ok(s) => s,
        Err(_) => return false,
    };
    stmt.execute((id, subject, sender_name, sender_address, recipients, snippet, attachment_names))
        .is_ok()
}

/// Relies on `Connection::serialize`: the produced image carries exactly
/// the database's rows.
#[verifier::external_body]
pub(crate) fn db_serialize(c: &rusqlite::Connection) -> (r: Option<Vec<u8>>)
    ensures
        match r {
            Option::Some(b) => db_image(b@) == Option::Some((db_rows(*c), db_fts(*c))),
            Option::None => true,
        },
{
    match c.serialize(rusqlite::MAIN_DB) {
        Ok(d) => Some(d.to_vec()),
        Err(_) => None,
    }
}

// ---------- building the whole index ----------

pub open spec fn rows_of_entries(es: Seq<EntryV>) -> Seq<RowV> {
    es.map_values(|e: EntryV| spec_row_of(e))
}

pub open spec fn fts_of_entries(es: Seq<EntryV>) -> Seq<FtsV> {
    es.map_values(|e: EntryV| spec_fts_of(e))
}

/// Builds and serializes the relational index for a metadata list: one
/// `messages` row and one `messages_fts` row per entry, in order. Absent
/// only when the database engine reports an error.
pub fn build_database(entries: &Vec<MetadataEntry>) -> (r: Option<Vec<u8>>)
    ensures
        match r {
            Option::Some(b) => db_image(b@) == Option::Some(
                (rows_of_entries(entries.deep_view()), fts_of_entries(entries.deep_view())),
            ),
            Option::None => true,
        },
{
    let ghost ev = entries.deep_view();
    let mut conn = match db_create() {
        Some(c) => c,
        None => {
            return None;
        },
    };
    let n = entries.len();
    let mut i: usize = 0;
    proof {
        assert(db_rows(conn) =~= rows_of_entries(ev.take(0)));
        assert(db_fts(conn) =~= fts_of_entries(ev.take(0)));
    }
    while i < n
        invariant
            i <= n,
            n == entries@.len(),
            ev == entries.deep_view(),
            ev.len() == n,
            db_rows(conn) == rows_of_entries(ev.take(i as int)),
            db_fts(conn) == fts_of_entries(ev.take(i as int)),
        decreases n - i,
    {
        let e = &entries[i];
        proof {
            assert(ev[i as int] == entries@[i as int].deep_view());
        }
        let labels_joined = match &e.gmail_labels {
            Some(l) => join_sp(l),
            None => String::new(),
        };
        proof {
            assert(labels_joined@ == spec_join_sp(opt_labels(ev[i as int])));
        }
        let to_joined = match &e.to_addresses {
            Some(l) => join_sp(l),
            None => String::new(),
        };
        let cc_joined = match &e.cc_addresses {
            Some(l) => join_sp(l),
            None => String::new(),
        };
        let mut rec = crate::text::to_chars(to_joined.as_str());
        rec.push(' ');
        let ccc = crate::text::to_chars(cc_joined.as_str());
        rec.extend_from_slice(ccc.as_slice());
        proof {
            assert(rec@ =~= spec_join_sp(opt_seq(ev[i as int].to_addresses)) + seq![' ']
                + spec_join_sp(opt_seq(ev[i as int].cc_addresses)));
        }
        let recipients = crate::text::chars_to_string(&crate::text::trim_c(&rec));
        let att_list = match &e.attachments {
            Some(a) => att_names_list(a),
            None => Vec::new(),
        };
        proof {
            match ev[i as int].attachments {
                Option::Some(_) => {},
                Option::None => {
                    assert(att_list.deep_view() =~= spec_att_names(
                        Seq::<crate::model::AttV>::empty(),
                    ));
                },
            }
        }
        let att_joined = join_sp(&att_list);
        if !db_insert_message(
            &mut conn,
            e.id.as_str(),
            &e.subject,
            &e.sender_name,
            &e.sender_address,
            &e.date_sent_iso,
            e.has_attachment,
            labels_joined.as_str(),
        ) {
            return None;
        }
        proof {
            assert(db_rows(conn) =~= rows_of_entries(ev.take(i + 1)));
        }
        if !db_insert_fts(
            &mut conn,
            e.id.as_str(),
            &e.subject,
            &e.sender_name,
            &e.sender_address,
            recipients.as_str(),
            &e.snippet,
            att_joined.as_str(),
        ) {
            return None;
        }
        proof {
            assert(db_fts(conn) =~= fts_of_entries(ev.take(i + 1)));
        }
        i = i + 1;
    }
    proof {
        assert(ev.take(n as int) =~= ev);
    }
    db_serialize(&conn)
}

} // verus!
