//! The archive writer: drives segmentation and extraction over a whole
//! input, assigns sequence-derived ids, honours cooperative cancellation
//! before each message, and assembles the container with the per-message
//! bytes first, the serialized metadata next and the relational index last.

use vstd::prelude::*;
use vstd::slice::slice_to_vec;
use crate::extract::{extract_metadata, spec_atts_of, spec_cc_addresses_of, spec_gmail_labels_of,
    spec_sender_address_of, spec_sender_name_of, spec_snippet_of, spec_stripped, spec_subject_of,
    spec_to_addresses_of};
use crate::mime::{mime_date_of, mime_message_id_of, mime_parses};
use crate::model::{clone_string, AttV, EntryV, MetadataEntry};
use crate::segment::{concat_of, segment_all};
use crate::text::chars_to_string;
use crate::zipio::{zip_add_entry, zip_finish, zip_writer_new, zw_entries};

verus! {

// ---------- sequence-derived message ids ----------

pub open spec fn digit_char(d: nat) -> char {
    if d == 0 {
        '0'
    } else if d == 1 {
        '1'
    } else if d == 2 {
        '2'
    } else if d == 3 {
        '3'
    } else if d == 4 {
        '4'
    } else if d == 5 {
        '5'
    } else if d == 6 {
        '6'
    } else if d == 7 {
        '7'
    } else if d == 8 {
        '8'
    } else {
        '9'
    }
}

/// The decimal digits of `n`, most significant first.
pub open spec fn spec_dec(n: nat) -> Seq<char>
    decreases n,
{
    if n < 10 {
        seq![digit_char(n)]
    } else {
        spec_dec(n / 10).push(digit_char(n % 10))
    }
}

pub open spec fn spec_zeros(k: nat) -> Seq<char>
    decreases k,
{
    if k == 0 {
        Seq::<char>::empty()
    } else {
        seq!['0'] + spec_zeros((k - 1) as nat)
    }
}

/// The digits, zero-padded on the left to at least six places.
pub open spec fn spec_pad6(s: Seq<char>) -> Seq<char> {
    if s.len() >= 6 {
        s
    } else {
        spec_zeros((6 - s.len()) as nat) + s
    }
}

/// The archive-local id of message number `n`.
pub open spec fn spec_msg_id(n: nat) -> Seq<char> {
    seq!['m', 's', 'g', '_'] + spec_pad6(spec_dec(n)) + seq!['.', 'e', 'm', 'l']
}

fn digit_exec(d: u64) -> (r: char)
    requires
        d < 10,
    ensures
        r == digit_char(d as nat),
{
    if d == 0 {
        '0'
    } else if d == 1 {
        '1'
    } else if d == 2 {
        '2'
    } else if d == 3 {
        '3'
    } else if d == 4 {
        '4'
    } else if d == 5 {
        '5'
    } else if d == 6 {
        '6'
    } else if d == 7 {
        '7'
    } else if d == 8 {
        '8'
    } else {
        '9'
    }
}

pub fn dec_digits(n: u64) -> (r: Vec<char>)
    ensures
        r@ == spec_dec(n as nat),
    decreases n,
{
    if n < 10 {
        let mut v: Vec<char> = Vec::new();
        v.push(digit_exec(n));
        proof {
            assert(v@ =~= seq![digit_char(n as nat)]);
        }
        v
    } else {
        let mut v = dec_digits(n / 10);
        v.push(digit_exec(n % 10));
        v
    }
}

proof fn lemma_zeros_all(k: nat)
    ensures
        spec_zeros(k).len() == k,
        forall|j: int| 0 <= j < k ==> spec_zeros(k)[j] == '0',
    decreases k,
{
    if k > 0 {
        lemma_zeros_all((k - 1) as nat);
    }
}

/// Formats the id `msg_NNNNNN.eml` for message number `n`.
pub fn fmt_msg_id(n: u64) -> (r: String)
    ensures
        r@ == spec_msg_id(n as nat),
{
    let d = dec_digits(n);
    let mut v: Vec<char> = Vec::new();
    v.push('m');
    v.push('s');
    v.push('g');
    v.push('_');
    let mut pad: usize = 0;
    let need: usize = if d.len() >= 6 {
        0
    } else {
        6 - d.len()
    };
    while pad < need
        invariant
            pad <= need,
            v@.len() == 4 + pad,
            forall|j: int| 0 <= j < 4 ==> v@[j] == (seq!['m', 's', 'g', '_'])[j],
            forall|j: int| 4 <= j < v@.len() ==> v@[j] == '0',
        decreases need - pad,
    {
        v.push('0');
        pad = pad + 1;
    }
    proof {
        lemma_zeros_all(need as nat);
        assert(v@ =~= seq!['m', 's', 'g', '_'] + spec_zeros(need as nat));
    }
    v.extend_from_slice(d.as_slice());
    v.push('.');
    v.push('e');
    v.push('m');
    v.push('l');
    proof {
        assert(v@ =~= seq!['m', 's', 'g', '_'] + spec_pad6(spec_dec(n as nat)) + seq![
            '.',
            'e',
            'm',
            'l',
        ]);
    }
    chars_to_string(&v)
}

// ---------- ids never collide ----------

proof fn lemma_dec_len_pos(n: nat)
    ensures
        spec_dec(n).len() >= 1,
    decreases n,
{
    if n >= 10 {
        lemma_dec_len_pos(n / 10);
    }
}

proof fn lemma_dec_no_leading_zero(n: nat)
    requires
        n >= 1,
    ensures
        spec_dec(n)[0] != '0',
    decreases n,
{
    if n >= 10 {
        lemma_dec_no_leading_zero(n / 10);
        lemma_dec_len_pos(n / 10);
        assert(spec_dec(n)[0] == spec_dec(n / 10)[0]);
    }
}

proof fn lemma_dec_injective(a: nat, b: nat)
    requires
        spec_dec(a) == spec_dec(b),
    ensures
        a == b,
    decreases a,
{
    lemma_dec_len_pos(a);
    lemma_dec_len_pos(b);
    if a < 10 && b < 10 {
        assert(spec_dec(a)[0] == digit_char(a));
        assert(spec_dec(b)[0] == digit_char(b));
    } else if a < 10 {
        lemma_dec_len_pos(b / 10);
        assert(spec_dec(b).len() >= 2);
    } else if b < 10 {
        lemma_dec_len_pos(a / 10);
        assert(spec_dec(a).len() >= 2);
    } else {
        assert(spec_dec(a).last() == digit_char(a % 10));
        assert(spec_dec(b).last() == digit_char(b % 10));
        assert(a % 10 == b % 10);
        assert(spec_dec(a).drop_last() =~= spec_dec(a / 10));
        assert(spec_dec(b).drop_last() =~= spec_dec(b / 10));
        lemma_dec_injective(a / 10, b / 10);
    }
}

proof fn lemma_pad6_injective(a: nat, b: nat)
    requires
        a >= 1,
        b >= 1,
        spec_pad6(spec_dec(a)) == spec_pad6(spec_dec(b)),
    ensures
        a == b,
{
    let da = spec_dec(a);
    let db = spec_dec(b);
    lemma_dec_len_pos(a);
    lemma_dec_len_pos(b);
    lemma_dec_no_leading_zero(a);
    lemma_dec_no_leading_zero(b);
    lemma_zeros_all((6 - da.len()) as nat);
    lemma_zeros_all((6 - db.len()) as nat);
    if da.len() >= 6 && db.len() >= 6 {
        lemma_dec_injective(a, b);
    } else if da.len() >= 6 {
        // the padded form of b starts with a zero, the unpadded a cannot
        assert(spec_pad6(db)[0] == '0');
        assert(spec_pad6(da)[0] == da[0]);
        assert(false);
    } else if db.len() >= 6 {
        assert(spec_pad6(da)[0] == '0');
        assert(spec_pad6(db)[0] == db[0]);
        assert(false);
    } else {
        // both padded to exactly six places; the first non-zero position is
        // where the digits start
        assert(spec_pad6(da).len() == 6);
        if da.len() < db.len() {
            assert(spec_pad6(da)[6 - db.len()] == '0');
            assert(spec_pad6(db)[6 - db.len()] == db[0]);
            assert(false);
        }
        if db.len() < da.len() {
            assert(spec_pad6(db)[6 - da.len()] == '0');
            assert(spec_pad6(da)[6 - da.len()] == da[0]);
            assert(false);
        }
        assert forall|j: int| 0 <= j < da.len() implies da[j] == db[j] by {
            assert(spec_pad6(da)[6 - da.len() + j] == da[j]);
            assert(spec_pad6(db)[6 - db.len() + j] == db[j]);
        };
        assert(da =~= db);
        lemma_dec_injective(a, b);
    }
}

/// Distinct messages get distinct archive ids.
pub proof fn lemma_msg_id_injective(a: nat, b: nat)
    requires
        a >= 1,
        b >= 1,
        spec_msg_id(a) == spec_msg_id(b),
    ensures
        a == b,
{
    let pa = spec_pad6(spec_dec(a));
    let pb = spec_pad6(spec_dec(b));
    assert(spec_msg_id(a).len() == 4 + pa.len() + 4);
    assert(spec_msg_id(b).len() == 4 + pb.len() + 4);
    assert forall|j: int| 0 <= j < pa.len() implies pa[j] == pb[j] by {
        assert(spec_msg_id(a)[4 + j] == pa[j]);
        assert(spec_msg_id(b)[4 + j] == pb[j]);
    };
    assert(pa =~= pb);
    lemma_pad6_injective(a, b);
}

// ---------- the conversion plan ----------

/// Whether a segmented message contributes to the archive.
pub open spec fn spec_kept(m: Seq<u8>) -> bool {
    mime_parses(spec_stripped(m))
}

/// The metadata record that extraction produces for message `m` with
/// sequence number `idx`.
pub open spec fn spec_entry_of(m: Seq<u8>, idx: nat) -> EntryV {
    EntryV {
        id: spec_msg_id(idx),
        subject: spec_subject_of(m),
        sender_name: spec_sender_name_of(m),
        sender_address: spec_sender_address_of(m),
        to_addresses: spec_to_addresses_of(m),
        cc_addresses: spec_cc_addresses_of(m),
        date_sent_iso: mime_date_of(spec_stripped(m)),
        internal_date: mime_date_of(spec_stripped(m)),
        gmail_labels: spec_gmail_labels_of(m),
        rfc822_size: m.len(),
        message_id: mime_message_id_of(spec_stripped(m)),
        has_attachment: spec_atts_of(m).len() > 0,
        snippet: spec_snippet_of(m),
        attachments: if spec_atts_of(m).len() > 0 {
            Option::Some(spec_atts_of(m))
        } else {
            Option::<Seq<AttV>>::None
        },
    }
}

/// The metadata records of the first `k` messages that parse.
pub open spec fn spec_plan_entries(msgs: Seq<Seq<u8>>, k: int) -> Seq<EntryV>
    decreases k,
{
    if k <= 0 {
        Seq::<EntryV>::empty()
    } else {
        spec_plan_entries(msgs, k - 1) + (if spec_kept(msgs[k - 1]) {
            seq![spec_entry_of(msgs[k - 1], k as nat)]
        } else {
            Seq::<EntryV>::empty()
        })
    }
}

/// The ids under which the first `k` messages are stored.
pub open spec fn spec_plan_names(msgs: Seq<Seq<u8>>, k: int) -> Seq<Seq<char>>
    decreases k,
{
    if k <= 0 {
        Seq::<Seq<char>>::empty()
    } else {
        spec_plan_names(msgs, k - 1) + (if spec_kept(msgs[k - 1]) {
            seq![spec_msg_id(k as nat)]
        } else {
            Seq::<Seq<char>>::empty()
        })
    }
}

/// The raw bytes stored for the first `k` messages.
pub open spec fn spec_plan_blobs(msgs: Seq<Seq<u8>>, k: int) -> Seq<Seq<u8>>
    decreases k,
{
    if k <= 0 {
        Seq::<Seq<u8>>::empty()
    } else {
        spec_plan_blobs(msgs, k - 1) + (if spec_kept(msgs[k - 1]) {
            seq![msgs[k - 1]]
        } else {
            Seq::<Seq<u8>>::empty()
        })
    }
}

proof fn lemma_plan_names_range(msgs: Seq<Seq<u8>>, k: int, x: int)
    requires
        0 <= x < spec_plan_names(msgs, k).len(),
    ensures
        exists|t: int| 1 <= t <= k && spec_plan_names(msgs, k)[x] == #[trigger] spec_msg_id(t as nat),
    decreases k,
{
    if k > 0 {
        let prev = spec_plan_names(msgs, k - 1);
        if x < prev.len() {
            lemma_plan_names_range(msgs, k - 1, x);
            let t = choose|t: int| 1 <= t <= k - 1 && prev[x] == #[trigger] spec_msg_id(t as nat);
            assert(spec_plan_names(msgs, k)[x] == prev[x]);
            assert(1 <= t <= k && spec_plan_names(msgs, k)[x] == spec_msg_id(t as nat));
        } else {
            assert(spec_kept(msgs[k - 1]));
            assert(spec_plan_names(msgs, k)[x] == spec_msg_id(k as nat));
            assert(1 <= k <= k && spec_plan_names(msgs, k)[x] == spec_msg_id(k as nat));
        }
    }
}

/// Archive-internal cross-references never collide: the ids under which a
/// conversion stores its messages are pairwise distinct.
pub proof fn lemma_plan_names_distinct(msgs: Seq<Seq<u8>>, k: int)
    ensures
        forall|i: int, j: int|
            0 <= i < j < spec_plan_names(msgs, k).len() ==> spec_plan_names(msgs, k)[i]
                != spec_plan_names(msgs, k)[j],
    decreases k,
{
    if k > 0 {
        lemma_plan_names_distinct(msgs, k - 1);
        let prev = spec_plan_names(msgs, k - 1);
        let cur = spec_plan_names(msgs, k);
        assert forall|i: int, j: int| 0 <= i < j < cur.len() implies cur[i] != cur[j] by {
            if j < prev.len() {
                assert(cur[i] == prev[i]);
                assert(cur[j] == prev[j]);
            } else {
                assert(spec_kept(msgs[k - 1]));
                assert(j == prev.len());
                assert(cur[j] == spec_msg_id(k as nat));
                assert(cur[i] == prev[i]);
                lemma_plan_names_range(msgs, k - 1, i);
                let t = choose|t: int| 1 <= t <= k - 1 && prev[i] == #[trigger] spec_msg_id(t as nat);
                if cur[i] == cur[j] {
                    lemma_msg_id_injective(t as nat, k as nat);
                }
            }
        };
    }
}

/// A message contributes its id and its bytes together: the two plans have
/// equal length.
pub proof fn lemma_plan_lens(msgs: Seq<Seq<u8>>, k: int)
    ensures
        spec_plan_names(msgs, k).len() == spec_plan_blobs(msgs, k).len(),
    decreases k,
{
    if k > 0 {
        lemma_plan_lens(msgs, k - 1);
    }
}

/// The bytes consumed by the first `k` messages.
pub open spec fn spec_size_prefix(msgs: Seq<Seq<u8>>, k: int) -> nat
    decreases k,
{
    if k <= 0 {
        0
    } else {
        spec_size_prefix(msgs, k - 1) + msgs[k - 1].len()
    }
}

proof fn lemma_size_prefix_le(msgs: Seq<Seq<u8>>, k: int)
    requires
        0 <= k <= msgs.len(),
    ensures
        spec_size_prefix(msgs, k) <= concat_of(msgs).len(),
    decreases msgs.len(),
{
    lemma_size_prefix_le_gen(msgs, k);
}

proof fn lemma_concat_len(msgs: Seq<Seq<u8>>)
    ensures
        concat_of(msgs).len() == spec_size_prefix(msgs, msgs.len() as int),
    decreases msgs.len(),
{
    if msgs.len() > 0 {
        lemma_concat_len(msgs.drop_first());
        lemma_size_shift(msgs, msgs.len() as int);
    }
}

proof fn lemma_size_shift(msgs: Seq<Seq<u8>>, k: int)
    requires
        1 <= k <= msgs.len(),
    ensures
        spec_size_prefix(msgs, k) == msgs[0].len() + spec_size_prefix(msgs.drop_first(), k - 1),
    decreases k,
{
    if k == 1 {
        assert(spec_size_prefix(msgs, 0) == 0);
        assert(spec_size_prefix(msgs.drop_first(), 0) == 0);
    } else {
        lemma_size_shift(msgs, k - 1);
        assert(msgs.drop_first()[k - 2] == msgs[k - 1]);
    }
}

proof fn lemma_size_prefix_mono(msgs: Seq<Seq<u8>>, a: int, b: int)
    requires
        a <= b,
    ensures
        spec_size_prefix(msgs, a) <= spec_size_prefix(msgs, b),
    decreases b - a,
{
    if a < b {
        lemma_size_prefix_mono(msgs, a, b - 1);
    }
}

proof fn lemma_size_prefix_le_gen(msgs: Seq<Seq<u8>>, k: int)
    requires
        0 <= k <= msgs.len(),
    ensures
        spec_size_prefix(msgs, k) <= concat_of(msgs).len(),
{
    lemma_concat_len(msgs);
    lemma_size_prefix_mono(msgs, k, msgs.len() as int);
}

// ---------- the conversion machine ----------

pub enum ConvertOutcome {
    Completed,
    Aborted,
}

pub enum StepResult {
    Progressed,
    Finished,
    Cancelled,
}

/// One conversion in progress: the segmented messages, how many have been
/// handled, and the archive contributions collected so far.
pub struct Conversion {
    pub msgs: Vec<Vec<u8>>,
    pub next: usize,
    pub entries: Vec<MetadataEntry>,
    pub stored_names: Vec<String>,
    pub stored_blobs: Vec<Vec<u8>>,
    pub bytes_done: u64,
    pub total_bytes: u64,
}

impl Conversion {
    /// The state is exactly the plan for the handled prefix.
    pub open spec fn wf(&self) -> bool {
        &&& self.next <= self.msgs@.len()
        &&& self.entries.deep_view() == spec_plan_entries(self.msgs.deep_view(), self.next as int)
        &&& self.stored_names.deep_view() == spec_plan_names(
            self.msgs.deep_view(),
            self.next as int,
        )
        &&& self.stored_blobs.deep_view() == spec_plan_blobs(
            self.msgs.deep_view(),
            self.next as int,
        )
        &&& self.bytes_done == spec_size_prefix(self.msgs.deep_view(), self.next as int)
        &&& self.total_bytes == concat_of(self.msgs.deep_view()).len()
    }

    /// Segments the input; nothing is processed yet.
    pub fn start(input: &Vec<u8>) -> (r: Conversion)
        ensures
            r.wf(),
            r.next == 0,
            concat_of(r.msgs.deep_view()) == input@,
            r.total_bytes == input@.len(),
    {
        let msgs = segment_all(input);
        let total = input.len() as u64;
        let entries: Vec<MetadataEntry> = Vec::new();
        let stored_names: Vec<String> = Vec::new();
        let stored_blobs: Vec<Vec<u8>> = Vec::new();
        proof {
            assert(entries.deep_view() =~= spec_plan_entries(msgs.deep_view(), 0));
            assert(stored_names.deep_view() =~= spec_plan_names(msgs.deep_view(), 0));
            assert(stored_blobs.deep_view() =~= spec_plan_blobs(msgs.deep_view(), 0));
        }
        Conversion {
            msgs,
            next: 0,
            entries,
            stored_names,
            stored_blobs,
            bytes_done: 0,
            total_bytes: total,
        }
    }

    /// Handles the next message, unless cancellation is requested or the
    /// stream is spent. A message that does not parse contributes nothing;
    /// one that parses contributes its bytes and its metadata record, both
    /// under the sequence-derived id.
    pub fn step(&mut self, cancel: bool) -> (r: StepResult)
        requires
            old(self).wf(),
        ensures
            final(self).wf(),
            final(self).msgs@ == old(self).msgs@,
            final(self).total_bytes == old(self).total_bytes,
            match r {
                StepResult::Cancelled => cancel && *final(self) == *old(self),
                StepResult::Finished => !cancel && old(self).next == old(self).msgs@.len() && *
                final(self) == *old(self),
                StepResult::Progressed => !cancel && old(self).next < old(self).msgs@.len() &&
                final(self).next == old(self).next + 1,
            },
    {
        if cancel {
            return StepResult::Cancelled;
        }
        let n = self.msgs.len();
        if self.next >= n {
            return StepResult::Finished;
        }
        let ghost mv = self.msgs.deep_view();
        let i = self.next;
        let m = slice_to_vec(self.msgs[i].as_slice());
        proof {
            assert(mv[i as int] == self.msgs@[i as int].deep_view());
            assert(mv[i as int] =~= m@);
            lemma_size_prefix_le(mv, i + 1);
        }
        let seqno = (i as u64) + 1;
        let id = fmt_msg_id(seqno);
        let id_copy = clone_string(&id);
        let ghost prev_entries = self.entries.deep_view();
        let ghost prev_names = self.stored_names.deep_view();
        let ghost prev_blobs = self.stored_blobs.deep_view();
        match extract_metadata(m.as_slice(), id) {
            Some(e) => {
                proof {
                    assert(e@ == spec_entry_of(mv[i as int], (i + 1) as nat));
                }
                let ghost ev = e@;
                self.entries.push(e);
                self.stored_names.push(id_copy);
                let ghost bv = m@;
                self.stored_blobs.push(m);
                proof {
                    assert(self.entries.deep_view() =~~= prev_entries.push(ev));
                    assert(prev_entries.push(ev) =~= prev_entries + seq![ev]);
                    assert(self.stored_names.deep_view() =~~= prev_names.push(
                        spec_msg_id((i + 1) as nat),
                    ));
                    assert(prev_names.push(spec_msg_id((i + 1) as nat)) =~= prev_names + seq![
                        spec_msg_id((i + 1) as nat),
                    ]);
                    assert(self.stored_blobs.deep_view() =~~= prev_blobs.push(bv));
                    assert(prev_blobs.push(bv) =~= prev_blobs + seq![bv]);
                }
            },
            None => {
                proof {
                    assert(prev_entries + Seq::<EntryV>::empty() =~= prev_entries);
                    assert(prev_names + Seq::<Seq<char>>::empty() =~= prev_names);
                    assert(prev_blobs + Seq::<Seq<u8>>::empty() =~= prev_blobs);
                }
            },
        }
        let add = self.msgs[i].len() as u64;
        self.bytes_done = self.bytes_done + add;
        self.next = i + 1;
        StepResult::Progressed
    }

    /// The progress tuple: bytes consumed, total bytes, messages handled.
    pub fn progress(&self) -> (r: (u64, u64, u64))
        requires
            self.wf(),
        ensures
            r.0 == self.bytes_done,
            r.1 == self.total_bytes,
            r.2 == self.next,
    {
        (self.bytes_done, self.total_bytes, self.next as u64)
    }
}

/// The writer's reporting cadence: every 250th message, or once the whole
/// input has been consumed.
pub fn should_report(msg_idx: u64, cumulative: u64, total: u64) -> (r: bool)
    ensures
        r == (msg_idx % 250 == 0 || cumulative >= total),
{
    msg_idx % 250 == 0 || cumulative >= total
}

/// Runs a whole conversion under a cooperative cancellation flag, polled
/// before each message. Whatever the flag does, the result is the plan for
/// some prefix of the messages; completion means the whole stream.
pub fn convert_stream(input: &Vec<u8>, cancel: &std::sync::atomic::AtomicBool) -> (r: (
    ConvertOutcome,
    Conversion,
))
    ensures
        r.1.wf(),
        concat_of(r.1.msgs.deep_view()) == input@,
        r.0 is Completed ==> r.1.next == r.1.msgs@.len(),
{
    let mut c = Conversion::start(input);
    loop
        invariant
            c.wf(),
            concat_of(c.msgs.deep_view()) == input@,
        decreases c.msgs@.len() - c.next,
    {
        let flag = cancel.load(core::sync::atomic::Ordering::Relaxed);
        match c.step(flag) {
            StepResult::Progressed => {},
            StepResult::Finished => {
                return (ConvertOutcome::Completed, c);
            },
            StepResult::Cancelled => {
                return (ConvertOutcome::Aborted, c);
            },
        }
    }
}

// ---------- container assembly ----------

/// The map of per-message entries after the first `k` stored pairs.
pub open spec fn spec_entries_map(names: Seq<Seq<char>>, blobs: Seq<Seq<u8>>, k: int) -> Map<
    Seq<char>,
    Seq<u8>,
>
    decreases k,
{
    if k <= 0 {
        Map::empty()
    } else {
        spec_entries_map(names, blobs, k - 1).insert(names[k - 1], blobs[k - 1])
    }
}

/// The whole container: the stored messages, then the metadata index, then
/// the relational index.
pub open spec fn spec_container(
    names: Seq<Seq<char>>,
    blobs: Seq<Seq<u8>>,
    json: Seq<u8>,
    db: Seq<u8>,
) -> Map<Seq<char>, Seq<u8>> {
    spec_entries_map(names, blobs, names.len() as int).insert("metadata.json"@, json).insert(
        "metadata.db"@,
        db,
    )
}

/// Assembles the container bytes from a conversion's stored messages plus
/// the serialized metadata index and the relational index image.
pub fn build_container(c: &Conversion, json_bytes: &[u8], db_bytes: &[u8]) -> (r: Option<Vec<u8>>)
    requires
        c.wf(),
    ensures
        match r {
            Option::Some(bytes) => crate::zipio::zip_content(bytes@) == Option::Some(
                spec_container(
                    c.stored_names.deep_view(),
                    c.stored_blobs.deep_view(),
                    json_bytes@,
                    db_bytes@,
                ),
            ),
            Option::None => true,
        },
{
    let ghost names = c.stored_names.deep_view();
    let ghost blobs = c.stored_blobs.deep_view();
    let mut w = zip_writer_new();
    let n = c.stored_names.len();
    let mut k: usize = 0;
    proof {
        lemma_plan_lens(c.msgs.deep_view(), c.next as int);
        assert(c.stored_blobs@.len() == blobs.len());
        assert(c.stored_names@.len() == names.len());
        assert(zw_entries(w) =~= spec_entries_map(names, blobs, 0));
    }
    while k < n
        invariant
            k <= n,
            n == c.stored_names@.len(),
            n == c.stored_blobs@.len(),
            names == c.stored_names.deep_view(),
            blobs == c.stored_blobs.deep_view(),
            zw_entries(w) == spec_entries_map(names, blobs, k as int),
        decreases n - k,
    {
        proof {
            assert(names[k as int] == c.stored_names@[k as int].deep_view());
            assert(blobs[k as int] == c.stored_blobs@[k as int].deep_view());
            assert(blobs[k as int] =~= c.stored_blobs@[k as int]@);
        }
        let ok = zip_add_entry(&mut w, c.stored_names[k].as_str(), c.stored_blobs[k].as_slice());
        if !ok {
            return None;
        }
        proof {
            assert(zw_entries(w) == spec_entries_map(names, blobs, k as int).insert(
                names[k as int],
                blobs[k as int],
            ));
        }
        k = k + 1;
    }
    if !zip_add_entry(&mut w, "metadata.json", json_bytes) {
        return None;
    }
    if !zip_add_entry(&mut w, "metadata.db", db_bytes) {
        return None;
    }
    proof {
        assert(names.len() == n);
    }
    zip_finish(w)
}

} // verus!
