//! The data model: one metadata record per archived message, the attachment
//! inventory, the configuration object and the conversion status record,
//! together with their mathematical views.

use vstd::prelude::*;
use vstd::string::StringExecFns;

verus! {

// ---------- attachment inventory ----------

pub struct AttachmentMetadata {
    pub filename: Option<String>,
    pub mime: String,
    pub size: usize,
    pub content_id: Option<String>,
}

pub ghost struct AttV {
    pub filename: Option<Seq<char>>,
    pub mime: Seq<char>,
    pub size: nat,
    pub content_id: Option<Seq<char>>,
}

impl View for AttachmentMetadata {
    type V = AttV;

    open spec fn view(&self) -> AttV {
        AttV {
            filename: self.filename.deep_view(),
            mime: self.mime@,
            size: self.size as nat,
            content_id: self.content_id.deep_view(),
        }
    }
}

impl DeepView for AttachmentMetadata {
    type V = AttV;

    open spec fn deep_view(&self) -> AttV {
        self.view()
    }
}

// ---------- metadata record ----------

pub struct MetadataEntry {
    pub id: String,
    pub subject: Option<String>,
    pub sender_name: Option<String>,
    pub sender_address: Option<String>,
    pub to_addresses: Option<Vec<String>>,
    pub cc_addresses: Option<Vec<String>>,
    pub date_sent_iso: Option<String>,
    pub internal_date: Option<String>,
    pub gmail_labels: Option<Vec<String>>,
    pub rfc822_size: usize,
    pub message_id: Option<String>,
    pub has_attachment: bool,
    pub snippet: Option<String>,
    pub attachments: Option<Vec<AttachmentMetadata>>,
}

pub ghost struct EntryV {
    pub id: Seq<char>,
    pub subject: Option<Seq<char>>,
    pub sender_name: Option<Seq<char>>,
    pub sender_address: Option<Seq<char>>,
    pub to_addresses: Option<Seq<Seq<char>>>,
    pub cc_addresses: Option<Seq<Seq<char>>>,
    pub date_sent_iso: Option<Seq<char>>,
    pub internal_date: Option<Seq<char>>,
    pub gmail_labels: Option<Seq<Seq<char>>>,
    pub rfc822_size: nat,
    pub message_id: Option<Seq<char>>,
    pub has_attachment: bool,
    pub snippet: Option<Seq<char>>,
    pub attachments: Option<Seq<AttV>>,
}

impl View for MetadataEntry {
    type V = EntryV;

    open spec fn view(&self) -> EntryV {
        EntryV {
            id: self.id@,
            subject: self.subject.deep_view(),
            sender_name: self.sender_name.deep_view(),
            sender_address: self.sender_address.deep_view(),
            to_addresses: self.to_addresses.deep_view(),
            cc_addresses: self.cc_addresses.deep_view(),
            date_sent_iso: self.date_sent_iso.deep_view(),
            internal_date: self.internal_date.deep_view(),
            gmail_labels: self.gmail_labels.deep_view(),
            rfc822_size: self.rfc822_size as nat,
            message_id: self.message_id.deep_view(),
            has_attachment: self.has_attachment,
            snippet: self.snippet.deep_view(),
            attachments: self.attachments.deep_view(),
        }
    }
}

impl DeepView for MetadataEntry {
    type V = EntryV;

    open spec fn deep_view(&self) -> EntryV {
        self.view()
    }
}

/// The labels carried by an entry, the empty sequence when absent.
pub open spec fn labels_of(e: EntryV) -> Seq<Seq<char>> {
    match e.gmail_labels {
        Option::Some(l) => l,
        Option::None => Seq::<Seq<char>>::empty(),
    }
}

/// Well-formedness of a generated entry: the attachment list is never stored
/// empty, `has_attachment` agrees with it, and the internal date mirrors the
/// sent date.
pub open spec fn entry_wf(e: EntryV) -> bool {
    &&& match e.attachments {
        Option::Some(a) => a.len() > 0,
        Option::None => true,
    }
    &&& e.has_attachment == (e.attachments is Some)
    &&& e.internal_date == e.date_sent_iso
}

// ---------- configuration ----------

pub struct Settings {
    pub zip_path: String,
    pub filter_labels: Option<Vec<String>>,
    pub special_labels: Option<Vec<String>>,
    pub browser: Option<String>,
    pub source_path: Option<String>,
}

pub ghost struct SettingsV {
    pub zip_path: Seq<char>,
    pub filter_labels: Option<Seq<Seq<char>>>,
    pub special_labels: Option<Seq<Seq<char>>>,
    pub browser: Option<Seq<char>>,
    pub source_path: Option<Seq<char>>,
}

impl View for Settings {
    type V = SettingsV;

    open spec fn view(&self) -> SettingsV {
        SettingsV {
            zip_path: self.zip_path@,
            filter_labels: self.filter_labels.deep_view(),
            special_labels: self.special_labels.deep_view(),
            browser: self.browser.deep_view(),
            source_path: self.source_path.deep_view(),
        }
    }
}

/// The hidden labels: stripped from every displayed label list.
pub open spec fn hidden_labels(s: SettingsV) -> Seq<Seq<char>> {
    match s.filter_labels {
        Option::Some(l) => l,
        Option::None => Seq::<Seq<char>>::empty(),
    }
}

/// The special labels: excluded from search results unless targeted.
pub open spec fn special_labels(s: SettingsV) -> Seq<Seq<char>> {
    match s.special_labels {
        Option::Some(l) => l,
        Option::None => Seq::<Seq<char>>::empty(),
    }
}

impl Settings {
    /// The built-in configuration used when no settings file is found.
    pub fn fallback_default() -> (r: Settings)
        ensures
            r@.zip_path == "data/md_data.mbxc"@,
            r@.filter_labels == Option::Some(Seq::<Seq<char>>::empty()),
            r@.special_labels == Option::Some(
                seq!["Spam"@, "Papierkorb"@, "Gelöscht"@, "Gesendet"@],
            ),
            r@.browser is None,
            r@.source_path is None,
    {
        let mut special: Vec<String> = Vec::new();
        special.push(String::from_str("Spam"));
        special.push(String::from_str("Papierkorb"));
        special.push(String::from_str("Gelöscht"));
        special.push(String::from_str("Gesendet"));
        proof {
            assert(special.deep_view() =~= seq!["Spam"@, "Papierkorb"@, "Gelöscht"@, "Gesendet"@]);
        }
        Settings {
            zip_path: String::from_str("data/md_data.mbxc"),
            filter_labels: Some(Vec::new()),
            special_labels: Some(special),
            browser: None,
            source_path: None,
        }
    }
}

// ---------- conversion status ----------

pub struct ConversionStatus {
    pub progress_percent: u8,
    pub current_message: u64,
    pub total_bytes: u64,
    pub total_bytes_read: u64,
    pub is_running: bool,
    pub error: Option<String>,
}

impl Default for ConversionStatus {
    fn default() -> (r: ConversionStatus)
        ensures
            r.progress_percent == 0,
            r.current_message == 0,
            r.total_bytes == 0,
            r.total_bytes_read == 0,
            !r.is_running,
            r.error is None,
    {
        ConversionStatus {
            progress_percent: 0,
            current_message: 0,
            total_bytes: 0,
            total_bytes_read: 0,
            is_running: false,
            error: None,
        }
    }
}

impl ConversionStatus {
    /// Folds one progress report into the status; the percentage is the
    /// bytes read over the total, zero while the total is unknown.
    pub fn record_progress(&mut self, bytes_read: u64, total_bytes: u64, msg_count: u64)
        ensures
            final(self).current_message == msg_count,
            final(self).total_bytes == total_bytes,
            final(self).total_bytes_read == bytes_read,
            total_bytes > 0 ==> final(self).progress_percent == (bytes_read as nat * 100
                / total_bytes as nat) as u8,
            total_bytes == 0 ==> final(self).progress_percent == old(self).progress_percent,
            final(self).is_running == old(self).is_running,
            final(self).error == old(self).error,
    {
        self.current_message = msg_count;
        self.total_bytes = total_bytes;
        self.total_bytes_read = bytes_read;
        if total_bytes > 0 {
            let pct = (bytes_read as u128 * 100 / total_bytes as u128) as u8;
            self.progress_percent = pct;
        }
    }
}

// ---------- request shapes handed in by the surrounding service ----------

pub struct ConvertRequest {
    pub mbox_path: String,
    pub mbxc_path: String,
}

pub struct SettingsUpdateRequest {
    pub zip_path: String,
    pub browser: Option<String>,
}

pub struct RestartRequest {
    pub settings_path: String,
}

pub struct CreateSettingsRequest {
    pub toml_path: String,
    pub zip_path: String,
    pub filter_labels: Vec<String>,
    pub special_labels: Vec<String>,
}

// ---------- verified cloning helpers ----------

pub fn clone_string(s: &String) -> (r: String)
    ensures
        r@ == s@,
{
    s.clone()
}

pub fn clone_opt_string(o: &Option<String>) -> (r: Option<String>)
    ensures
        r.deep_view() == o.deep_view(),
{
    match o {
        Some(s) => Some(s.clone()),
        None => None,
    }
}

pub fn clone_vec_string(v: &Vec<String>) -> (r: Vec<String>)
    ensures
        r.deep_view() == v.deep_view(),
{
    let mut out: Vec<String> = Vec::new();
    let mut i: usize = 0;
    while i < v.len()
        invariant
            i <= v@.len(),
            out@.len() == i,
            forall|j: int| 0 <= j < i ==> out.deep_view()[j] == v.deep_view()[j],
        decreases v@.len() - i,
    {
        let ghost prev = out@;
        out.push(v[i].clone());
        i = i + 1;
        proof {
            assert forall|j: int| 0 <= j < i implies out.deep_view()[j] == v.deep_view()[j] by {
                assert(out.deep_view()[j] == out@[j].deep_view());
                assert(v.deep_view()[j] == v@[j].deep_view());
                if j < i - 1 {
                    assert(out@[j] == prev[j]);
                }
            };
        }
    }
    proof {
        assert(out.deep_view() =~= v.deep_view());
    }
    out
}

pub fn clone_opt_vec_string(o: &Option<Vec<String>>) -> (r: Option<Vec<String>>)
    ensures
        r.deep_view() == o.deep_view(),
{
    match o {
        Some(v) => Some(clone_vec_string(v)),
        None => None,
    }
}

pub fn clone_attachment(a: &AttachmentMetadata) -> (r: AttachmentMetadata)
    ensures
        r@ == a@,
{
    AttachmentMetadata {
        filename: clone_opt_string(&a.filename),
        mime: a.mime.clone(),
        size: a.size,
        content_id: clone_opt_string(&a.content_id),
    }
}

pub fn clone_opt_attachments(o: &Option<Vec<AttachmentMetadata>>) -> (r: Option<
    Vec<AttachmentMetadata>,
>)
    ensures
        r.deep_view() == o.deep_view(),
{
    match o {
        Some(v) => {
            let mut out: Vec<AttachmentMetadata> = Vec::new();
            let mut i: usize = 0;
            while i < v.len()
                invariant
                    i <= v@.len(),
                    out@.len() == i,
                    forall|j: int| 0 <= j < i ==> out.deep_view()[j] == v.deep_view()[j],
                decreases v@.len() - i,
            {
                let ghost prev = out@;
                out.push(clone_attachment(&v[i]));
                i = i + 1;
                proof {
                    assert forall|j: int| 0 <= j < i implies out.deep_view()[j] == v.deep_view()[j]
                    by {
                        assert(out.deep_view()[j] == out@[j].deep_view());
                        assert(v.deep_view()[j] == v@[j].deep_view());
                        if j < i - 1 {
                            assert(out@[j] == prev[j]);
                        }
                    };
                }
            }
            proof {
                assert(out.deep_view() =~= v.deep_view());
            }
            Some(out)
        },
        None => None,
    }
}

pub fn clone_entry(e: &MetadataEntry) -> (r: MetadataEntry)
    ensures
        r@ == e@,
{
    MetadataEntry {
        id: e.id.clone(),
        subject: clone_opt_string(&e.subject),
        sender_name: clone_opt_string(&e.sender_name),
        sender_address: clone_opt_string(&e.sender_address),
        to_addresses: clone_opt_vec_string(&e.to_addresses),
        cc_addresses: clone_opt_vec_string(&e.cc_addresses),
        date_sent_iso: clone_opt_string(&e.date_sent_iso),
        internal_date: clone_opt_string(&e.internal_date),
        gmail_labels: clone_opt_vec_string(&e.gmail_labels),
        rfc822_size: e.rfc822_size,
        message_id: clone_opt_string(&e.message_id),
        has_attachment: e.has_attachment,
        snippet: clone_opt_string(&e.snippet),
        attachments: clone_opt_attachments(&e.attachments),
    }
}

} // verus!
