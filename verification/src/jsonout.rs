//! A verified emitter for the metadata index: the container's
//! `metadata.json` entry is a JSON array of the metadata records, field
//! names in declaration order, absent fields as `null`, strings escaped the
//! way the surrounding ecosystem's serializers do it.

use vstd::prelude::*;
use crate::model::{AttV, EntryV, MetadataEntry};
use crate::text::{chars_to_string, to_chars};
use crate::writer::{digit_char, spec_dec};

verus! {

// ---------- escaping ----------

pub open spec fn hex_char(d: nat) -> char {
    if d < 10 {
        digit_char(d)
    } else if d == 10 {
        'a'
    } else if d == 11 {
        'b'
    } else if d == 12 {
        'c'
    } else if d == 13 {
        'd'
    } else if d == 14 {
        'e'
    } else {
        'f'
    }
}

/// One character in a JSON string: quote and backslash escaped, the named
/// control escapes used where they exist, other control characters written
/// as a `\u00..` sequence.
pub open spec fn spec_esc_char(c: char) -> Seq<char> {
    if c == '"' {
        seq!['\\', '"']
    } else if c == '\\' {
        seq!['\\', '\\']
    } else if c == '\u{8}' {
        seq!['\\', 'b']
    } else if c == '\t' {
        seq!['\\', 't']
    } else if c == '\n' {
        seq!['\\', 'n']
    } else if c == '\u{c}' {
        seq!['\\', 'f']
    } else if c == '\r' {
        seq!['\\', 'r']
    } else if (c as u32) < 32 {
        seq!['\\', 'u', '0', '0', hex_char((c as u32) as nat / 16), hex_char(
            (c as u32) as nat % 16,
        )]
    } else {
        seq![c]
    }
}

pub open spec fn spec_esc(s: Seq<char>) -> Seq<char>
    decreases s.len(),
{
    if s.len() == 0 {
        Seq::<char>::empty()
    } else {
        spec_esc_char(s[0]) + spec_esc(s.drop_first())
    }
}

pub open spec fn spec_jstr(s: Seq<char>) -> Seq<char> {
    seq!['"'] + spec_esc(s) + seq!['"']
}

pub open spec fn null_chars() -> Seq<char> {
    seq!['n', 'u', 'l', 'l']
}

pub open spec fn spec_jopt_str(o: Option<Seq<char>>) -> Seq<char> {
    match o {
        Option::Some(s) => spec_jstr(s),
        Option::None => null_chars(),
    }
}

// ---------- arrays of strings ----------

pub open spec fn spec_jstr_items(v: Seq<Seq<char>>) -> Seq<char>
    decreases v.len(),
{
    if v.len() == 0 {
        Seq::<char>::empty()
    } else if v.len() == 1 {
        spec_jstr(v[0])
    } else {
        spec_jstr(v[0]) + seq![','] + spec_jstr_items(v.drop_first())
    }
}

pub open spec fn spec_jarr_str(v: Seq<Seq<char>>) -> Seq<char> {
    seq!['['] + spec_jstr_items(v) + seq![']']
}

pub open spec fn spec_jopt_arr(o: Option<Seq<Seq<char>>>) -> Seq<char> {
    match o {
        Option::Some(v) => spec_jarr_str(v),
        Option::None => null_chars(),
    }
}

// ---------- numbers and booleans ----------

pub open spec fn spec_jbool(b: bool) -> Seq<char> {
    if b {
        seq!['t', 'r', 'u', 'e']
    } else {
        seq!['f', 'a', 'l', 's', 'e']
    }
}

// ---------- attachments ----------

/// One attachment object, fields in declaration order.
pub open spec fn spec_json_att(a: AttV) -> Seq<char> {
    seq!['{', '"', 'f', 'i', 'l', 'e', 'n', 'a', 'm', 'e', '"', ':'] + spec_jopt_str(a.filename)
        + seq![',', '"', 'm', 'i', 'm', 'e', '"', ':'] + spec_jstr(a.mime) + seq![
        ',',
        '"',
        's',
        'i',
        'z',
        'e',
        '"',
        ':',
    ] + spec_dec(a.size) + seq![',', '"', 'c', 'o', 'n', 't', 'e', 'n', 't', '_', 'i', 'd', '"', ':']
        + spec_jopt_str(a.content_id) + seq!['}']
}

pub open spec fn spec_jatt_items(v: Seq<AttV>) -> Seq<char>
    decreases v.len(),
{
    if v.len() == 0 {
        Seq::<char>::empty()
    } else if v.len() == 1 {
        spec_json_att(v[0])
    } else {
        spec_json_att(v[0]) + seq![','] + spec_jatt_items(v.drop_first())
    }
}

pub open spec fn spec_jopt_atts(o: Option<Seq<AttV>>) -> Seq<char> {
    match o {
        Option::Some(v) => seq!['['] + spec_jatt_items(v) + seq![']'],
        Option::None => null_chars(),
    }
}

// ---------- records ----------

/// One metadata record as a JSON object, fields in declaration order,
/// written as seven consecutive chunks.
pub open spec fn spec_json_entry(e: EntryV) -> Seq<char> {
    spec_entry_c1(e) + spec_entry_c2(e) + spec_entry_c3(e) + spec_entry_c4(e) + spec_entry_c5(e)
        + spec_entry_c6(e) + spec_entry_c7(e)
}

pub open spec fn spec_entry_c1(e: EntryV) -> Seq<char> {
    seq!['{', '"', 'i', 'd', '"', ':'] + spec_jstr(e.id) + seq![
        ',',
        '"',
        's',
        'u',
        'b',
        'j',
        'e',
        'c',
        't',
        '"',
        ':',
    ] + spec_jopt_str(e.subject)
}

pub open spec fn spec_entry_c2(e: EntryV) -> Seq<char> {
    key_sender_name() + spec_jopt_str(e.sender_name) + key_sender_address() + spec_jopt_str(
        e.sender_address,
    )
}

pub open spec fn spec_entry_c3(e: EntryV) -> Seq<char> {
    key_to_addresses() + spec_jopt_arr(e.to_addresses) + key_cc_addresses() + spec_jopt_arr(
        e.cc_addresses,
    )
}

pub open spec fn spec_entry_c4(e: EntryV) -> Seq<char> {
    key_date_sent_iso() + spec_jopt_str(e.date_sent_iso) + key_internal_date() + spec_jopt_str(
        e.internal_date,
    )
}

pub open spec fn spec_entry_c5(e: EntryV) -> Seq<char> {
    key_gmail_labels() + spec_jopt_arr(e.gmail_labels) + key_rfc822_size() + spec_dec(
        e.rfc822_size,
    )
}

pub open spec fn spec_entry_c6(e: EntryV) -> Seq<char> {
    key_message_id() + spec_jopt_str(e.message_id) + key_has_attachment() + spec_jbool(
        e.has_attachment,
    )
}

pub open spec fn spec_entry_c7(e: EntryV) -> Seq<char> {
    key_snippet() + spec_jopt_str(e.snippet) + key_attachments() + spec_jopt_atts(e.attachments)
        + seq!['}']
}

pub open spec fn key_sender_name() -> Seq<char> {
    seq![',', '"', 's', 'e', 'n', 'd', 'e', 'r', '_', 'n', 'a', 'm', 'e', '"', ':']
}

pub open spec fn key_sender_address() -> Seq<char> {
    seq![',', '"', 's', 'e', 'n', 'd', 'e', 'r', '_', 'a', 'd', 'd', 'r', 'e', 's', 's', '"', ':']
}

pub open spec fn key_to_addresses() -> Seq<char> {
    seq![',', '"', 't', 'o', '_', 'a', 'd', 'd', 'r', 'e', 's', 's', 'e', 's', '"', ':']
}

pub open spec fn key_cc_addresses() -> Seq<char> {
    seq![',', '"', 'c', 'c', '_', 'a', 'd', 'd', 'r', 'e', 's', 's', 'e', 's', '"', ':']
}

pub open spec fn key_date_sent_iso() -> Seq<char> {
    seq![',', '"', 'd', 'a', 't', 'e', '_', 's', 'e', 'n', 't', '_', 'i', 's', 'o', '"', ':']
}

pub open spec fn key_internal_date() -> Seq<char> {
    seq![',', '"', 'i', 'n', 't', 'e', 'r', 'n', 'a', 'l', '_', 'd', 'a', 't', 'e', '"', ':']
}

pub open spec fn key_gmail_labels() -> Seq<char> {
    seq![',', '"', 'g', 'm', 'a', 'i', 'l', '_', 'l', 'a', 'b', 'e', 'l', 's', '"', ':']
}

pub open spec fn key_rfc822_size() -> Seq<char> {
    seq![',', '"', 'r', 'f', 'c', '8', '2', '2', '_', 's', 'i', 'z', 'e', '"', ':']
}

pub open spec fn key_message_id() -> Seq<char> {
    seq![',', '"', 'm', 'e', 's', 's', 'a', 'g', 'e', '_', 'i', 'd', '"', ':']
}

pub open spec fn key_has_attachment() -> Seq<char> {
    seq![',', '"', 'h', 'a', 's', '_', 'a', 't', 't', 'a', 'c', 'h', 'm', 'e', 'n', 't', '"', ':']
}

pub open spec fn key_snippet() -> Seq<char> {
    seq![',', '"', 's', 'n', 'i', 'p', 'p', 'e', 't', '"', ':']
}

pub open spec fn key_attachments() -> Seq<char> {
    seq![',', '"', 'a', 't', 't', 'a', 'c', 'h', 'm', 'e', 'n', 't', 's', '"', ':']
}

pub open spec fn spec_jentry_items(v: Seq<EntryV>) -> Seq<char>
    decreases v.len(),
{
    if v.len() == 0 {
        Seq::<char>::empty()
    } else if v.len() == 1 {
        spec_json_entry(v[0])
    } else {
        spec_json_entry(v[0]) + seq![','] + spec_jentry_items(v.drop_first())
    }
}

/// The whole metadata index document.
pub open spec fn spec_json_entries(v: Seq<EntryV>) -> Seq<char> {
    seq!['['] + spec_jentry_items(v) + seq![']']
}

// ---------- executable emission ----------

fn push_lit(out: &mut Vec<char>, s: &[char])
    ensures
        final(out)@ == old(out)@ + s@,
{
    out.extend_from_slice(s);
}

fn hex_exec(d: u32) -> (r: char)
    requires
        d < 16,
    ensures
        r == hex_char(d as nat),
{
    if d == 0 {
        '0'
    } else if d == 1 {
        '1'
    } else if d == 2 {
        '2'
    } else if d == 3 {
        '3'
    } else if d == 4 {
        '4'
    } else if d == 5 {
        '5'
    } else if d == 6 {
        '6'
    } else if d == 7 {
        '7'
    } else if d == 8 {
        '8'
    } else if d == 9 {
        '9'
    } else if d == 10 {
        'a'
    } else if d == 11 {
        'b'
    } else if d == 12 {
        'c'
    } else if d == 13 {
        'd'
    } else if d == 14 {
        'e'
    } else {
        'f'
    }
}

fn emit_esc_char(out: &mut Vec<char>, c: char)
    ensures
        final(out)@ == old(out)@ + spec_esc_char(c),
{
    let ghost prev = out@;
    if c == '"' {
        out.push('\\');
        out.push('"');
        proof {
            assert(out@ =~= prev + spec_esc_char(c));
        }
    } else if c == '\\' {
        out.push('\\');
        out.push('\\');
        proof {
            assert(out@ =~= prev + spec_esc_char(c));
        }
    } else if c == '\u{8}' {
        out.push('\\');
        out.push('b');
        proof {
            assert(out@ =~= prev + spec_esc_char(c));
        }
    } else if c == '\t' {
        out.push('\\');
        out.push('t');
        proof {
            assert(out@ =~= prev + spec_esc_char(c));
        }
    } else if c == '\n' {
        out.push('\\');
        out.push('n');
        proof {
            assert(out@ =~= prev + spec_esc_char(c));
        }
    } else if c == '\u{c}' {
        out.push('\\');
        out.push('f');
        proof {
            assert(out@ =~= prev + spec_esc_char(c));
        }
    } else if c == '\r' {
        out.push('\\');
        out.push('r');
        proof {
            assert(out@ =~= prev + spec_esc_char(c));
        }
    } else if (c as u32) < 32 {
        let u = c as u32;
        out.push('\\');
        out.push('u');
        out.push('0');
        out.push('0');
        out.push(hex_exec(u / 16));
        out.push(hex_exec(u % 16));
        proof {
            assert(out@ =~= prev + spec_esc_char(c));
        }
    } else {
        out.push(c);
        proof {
            assert(out@ =~= prev + spec_esc_char(c));
        }
    }
}

fn emit_jstr(out: &mut Vec<char>, s: &str)
    ensures
        final(out)@ == old(out)@ + spec_jstr(s@),
{
    let ghost base = out@;
    out.push('"');
    let v = to_chars(s);
    let n = v.len();
    let mut i: usize = 0;
    proof {
        assert(v@.skip(0) =~= v@);
        assert(out@ =~= base + seq!['"'] + spec_esc(Seq::<char>::empty()));
    }
    while i < n
        invariant
            i <= n,
            n == v@.len(),
            v@ == s@,
            out@ + spec_esc(v@.skip(i as int)) == base + seq!['"'] + spec_esc(v@),
        decreases n - i,
    {
        let ghost t = v@.skip(i as int);
        proof {
            assert(t[0] == v@[i as int]);
            assert(t.drop_first() =~= v@.skip(i + 1));
        }
        let ghost before = out@;
        emit_esc_char(out, v[i]);
        proof {
            assert((before + spec_esc_char(v@[i as int])) + spec_esc(v@.skip(i + 1)) =~= before
                + (spec_esc_char(v@[i as int]) + spec_esc(v@.skip(i + 1))));
        }
        i = i + 1;
    }
    proof {
        assert(v@.skip(n as int) =~= Seq::<char>::empty());
        assert(out@ + Seq::<char>::empty() =~= out@);
    }
    out.push('"');
    proof {
        assert(out@ =~= base + spec_jstr(s@));
    }
}

fn emit_jopt_str(out: &mut Vec<char>, o: &Option<String>)
    ensures
        final(out)@ == old(out)@ + spec_jopt_str(o.deep_view()),
{
    match o {
        Some(s) => emit_jstr(out, s.as_str()),
        None => push_lit(out, &['n', 'u', 'l', 'l']),
    }
}

fn emit_dec(out: &mut Vec<char>, n: u64)
    ensures
        final(out)@ == old(out)@ + spec_dec(n as nat),
{
    let d = crate::writer::dec_digits(n);
    out.extend_from_slice(d.as_slice());
}

proof fn lemma_jstr_items_step(v: Seq<Seq<char>>, k: int)
    requires
        1 <= k < v.len(),
    ensures
        spec_jstr_items(v.take(k + 1)) == spec_jstr_items(v.take(k)) + seq![','] + spec_jstr(
            v[k],
        ),
    decreases k,
{
    let a = v.take(k + 1);
    let b = v.take(k);
    if k == 1 {
        assert(a.drop_first() =~= seq![v[1]]);
        assert(a[0] == v[0]);
        assert(b =~= seq![v[0]]);
        assert(spec_jstr_items(seq![v[1]]) == spec_jstr(v[1]));
        assert(spec_jstr_items(seq![v[0]]) == spec_jstr(v[0]));
    } else {
        lemma_jstr_items_step(v.drop_first(), k - 1);
        assert(a.drop_first() =~= v.drop_first().take(k));
        assert(b.drop_first() =~= v.drop_first().take(k - 1));
        assert(a[0] == v[0]);
        assert(b[0] == v[0]);
        assert(v.drop_first()[k - 1] == v[k]);
        assert((spec_jstr(v[0]) + seq![','] + spec_jstr_items(b.drop_first())) + seq![',']
            + spec_jstr(v[k]) =~= spec_jstr(v[0]) + seq![','] + (spec_jstr_items(b.drop_first())
            + seq![','] + spec_jstr(v[k])));
    }
}

fn emit_jarr_str(out: &mut Vec<char>, v: &Vec<String>)
    ensures
        final(out)@ == old(out)@ + spec_jarr_str(v.deep_view()),
{
    let ghost base = out@;
    let ghost dv = v.deep_view();
    out.push('[');
    let n = v.len();
    if n > 0 {
        proof {
            assert(dv[0] == v@[0].deep_view());
        }
        emit_jstr(out, v[0].as_str());
        proof {
            assert(dv.take(1) =~= seq![dv[0]]);
            assert(out@ =~= base + seq!['['] + spec_jstr_items(dv.take(1)));
        }
        let mut i: usize = 1;
        while i < n
            invariant
                1 <= i <= n,
                n == v@.len(),
                dv == v.deep_view(),
                dv.len() == n,
                out@ == base + seq!['['] + spec_jstr_items(dv.take(i as int)),
            decreases n - i,
        {
            proof {
                assert(dv[i as int] == v@[i as int].deep_view());
            }
            out.push(',');
            let ghost mid = out@;
            emit_jstr(out, v[i].as_str());
            proof {
                lemma_jstr_items_step(dv, i as int);
                assert(out@ =~= base + seq!['['] + spec_jstr_items(dv.take(i + 1)));
            }
            i = i + 1;
        }
        proof {
            assert(dv.take(n as int) =~= dv);
        }
    } else {
        proof {
            assert(spec_jstr_items(dv) == Seq::<char>::empty());
            assert(out@ =~= base + seq!['['] + spec_jstr_items(dv));
        }
    }
    out.push(']');
    proof {
        assert(out@ =~= base + spec_jarr_str(dv));
    }
}

fn emit_jopt_arr(out: &mut Vec<char>, o: &Option<Vec<String>>)
    ensures
        final(out)@ == old(out)@ + spec_jopt_arr(o.deep_view()),
{
    match o {
        Some(v) => emit_jarr_str(out, v),
        None => push_lit(out, &['n', 'u', 'l', 'l']),
    }
}

fn emit_att(out: &mut Vec<char>, a: &crate::model::AttachmentMetadata)
    ensures
        final(out)@ == old(out)@ + spec_json_att(a@),
{
    let ghost base = out@;
    push_lit(out, &['{', '"', 'f', 'i', 'l', 'e', 'n', 'a', 'm', 'e', '"', ':']);
    emit_jopt_str(out, &a.filename);
    push_lit(out, &[',', '"', 'm', 'i', 'm', 'e', '"', ':']);
    emit_jstr(out, a.mime.as_str());
    push_lit(out, &[',', '"', 's', 'i', 'z', 'e', '"', ':']);
    emit_dec(out, a.size as u64);
    push_lit(out, &[',', '"', 'c', 'o', 'n', 't', 'e', 'n', 't', '_', 'i', 'd', '"', ':']);
    emit_jopt_str(out, &a.content_id);
    out.push('}');
    proof {
        assert(out@ =~= base + spec_json_att(a@));
    }
}

proof fn lemma_jatt_items_step(v: Seq<AttV>, k: int)
    requires
        1 <= k < v.len(),
    ensures
        spec_jatt_items(v.take(k + 1)) == spec_jatt_items(v.take(k)) + seq![','] + spec_json_att(
            v[k],
        ),
    decreases k,
{
    let a = v.take(k + 1);
    let b = v.take(k);
    if k == 1 {
        assert(a.drop_first() =~= seq![v[1]]);
        assert(a[0] == v[0]);
        assert(b =~= seq![v[0]]);
        assert(spec_jatt_items(seq![v[1]]) == spec_json_att(v[1]));
        assert(spec_jatt_items(seq![v[0]]) == spec_json_att(v[0]));
    } else {
        lemma_jatt_items_step(v.drop_first(), k - 1);
        assert(a.drop_first() =~= v.drop_first().take(k));
        assert(b.drop_first() =~= v.drop_first().take(k - 1));
        assert(a[0] == v[0]);
        assert(b[0] == v[0]);
        assert(v.drop_first()[k - 1] == v[k]);
        assert((spec_json_att(v[0]) + seq![','] + spec_jatt_items(b.drop_first())) + seq![',']
            + spec_json_att(v[k]) =~= spec_json_att(v[0]) + seq![','] + (spec_jatt_items(
            b.drop_first(),
        ) + seq![','] + spec_json_att(v[k])));
    }
}

fn emit_jopt_atts(out: &mut Vec<char>, o: &Option<Vec<crate::model::AttachmentMetadata>>)
    ensures
        final(out)@ == old(out)@ + spec_jopt_atts(o.deep_view()),
{
    let ghost base = out@;
    match o {
        Some(v) => {
            let ghost dv = v.deep_view();
            out.push('[');
            let n = v.len();
            if n > 0 {
                proof {
                    assert(dv[0] == v@[0].deep_view());
                }
                emit_att(out, &v[0]);
                proof {
                    assert(dv.take(1) =~= seq![dv[0]]);
                    assert(out@ =~= base + seq!['['] + spec_jatt_items(dv.take(1)));
                }
                let mut i: usize = 1;
                while i < n
                    invariant
                        1 <= i <= n,
                        n == v@.len(),
                        dv == v.deep_view(),
                        dv.len() == n,
                        base == old(out)@,
                        out@ == base + seq!['['] + spec_jatt_items(dv.take(i as int)),
                    decreases n - i,
                {
                    proof {
                        assert(dv[i as int] == v@[i as int].deep_view());
                    }
                    out.push(',');
                    emit_att(out, &v[i]);
                    proof {
                        lemma_jatt_items_step(dv, i as int);
                        assert(out@ =~= base + seq!['['] + spec_jatt_items(dv.take(i + 1)));
                    }
                    i = i + 1;
                }
                proof {
                    assert(dv.take(n as int) =~= dv);
                }
            } else {
                proof {
                    assert(spec_jatt_items(dv) == Seq::<char>::empty());
                    assert(out@ =~= base + seq!['['] + spec_jatt_items(dv));
                }
            }
            out.push(']');
            proof {
                assert(out@ =~= base + spec_jopt_atts(o.deep_view()));
            }
        },
        None => {
            push_lit(out, &['n', 'u', 'l', 'l']);
        },
    }
}

fn emit_entry_c1(out: &mut Vec<char>, e: &MetadataEntry)
    ensures
        final(out)@ == old(out)@ + spec_entry_c1(e@),
{
    let ghost base = out@;
    push_lit(out, &['{', '"', 'i', 'd', '"', ':']);
    emit_jstr(out, e.id.as_str());
    push_lit(out, &[',', '"', 's', 'u', 'b', 'j', 'e', 'c', 't', '"', ':']);
    emit_jopt_str(out, &e.subject);
    proof {
        assert(out@ =~= base + spec_entry_c1(e@));
    }
}

fn emit_entry_c2(out: &mut Vec<char>, e: &MetadataEntry)
    ensures
        final(out)@ == old(out)@ + spec_entry_c2(e@),
{
    let ghost base = out@;
    push_lit(out, &[',', '"', 's', 'e', 'n', 'd', 'e', 'r', '_', 'n', 'a', 'm', 'e', '"', ':']);
    emit_jopt_str(out, &e.sender_name);
    push_lit(
        out,
        &[
            ',',
            '"',
            's',
            'e',
            'n',
            'd',
            'e',
            'r',
            '_',
            'a',
            'd',
            'd',
            'r',
            'e',
            's',
            's',
            '"',
            ':',
        ],
    );
    emit_jopt_str(out, &e.sender_address);
    proof {
        assert(out@ =~= base + spec_entry_c2(e@));
    }
}

fn emit_entry_c3(out: &mut Vec<char>, e: &MetadataEntry)
    ensures
        final(out)@ == old(out)@ + spec_entry_c3(e@),
{
    let ghost base = out@;
    push_lit(
        out,
        &[',', '"', 't', 'o', '_', 'a', 'd', 'd', 'r', 'e', 's', 's', 'e', 's', '"', ':'],
    );
    emit_jopt_arr(out, &e.to_addresses);
    push_lit(
        out,
        &[',', '"', 'c', 'c', '_', 'a', 'd', 'd', 'r', 'e', 's', 's', 'e', 's', '"', ':'],
    );
    emit_jopt_arr(out, &e.cc_addresses);
    proof {
        assert(out@ =~= base + spec_entry_c3(e@));
    }
}

fn emit_entry_c4(out: &mut Vec<char>, e: &MetadataEntry)
    ensures
        final(out)@ == old(out)@ + spec_entry_c4(e@),
{
    let ghost base = out@;
    push_lit(
        out,
        &[',', '"', 'd', 'a', 't', 'e', '_', 's', 'e', 'n', 't', '_', 'i', 's', 'o', '"', ':'],
    );
    emit_jopt_str(out, &e.date_sent_iso);
    push_lit(
        out,
        &[',', '"', 'i', 'n', 't', 'e', 'r', 'n', 'a', 'l', '_', 'd', 'a', 't', 'e', '"', ':'],
    );
    emit_jopt_str(out, &e.internal_date);
    proof {
        assert(out@ =~= base + spec_entry_c4(e@));
    }
}

fn emit_entry_c5(out: &mut Vec<char>, e: &MetadataEntry)
    ensures
        final(out)@ == old(out)@ + spec_entry_c5(e@),
{
    let ghost base = out@;
    push_lit(
        out,
        &[',', '"', 'g', 'm', 'a', 'i', 'l', '_', 'l', 'a', 'b', 'e', 'l', 's', '"', ':'],
    );
    emit_jopt_arr(out, &e.gmail_labels);
    push_lit(
        out,
        &[',', '"', 'r', 'f', 'c', '8', '2', '2', '_', 's', 'i', 'z', 'e', '"', ':'],
    );
    emit_dec(out, e.rfc822_size as u64);
    proof {
        assert(out@ =~= base + spec_entry_c5(e@));
    }
}

fn emit_entry_c6(out: &mut Vec<char>, e: &MetadataEntry)
    ensures
        final(out)@ == old(out)@ + spec_entry_c6(e@),
{
    let ghost base = out@;
    push_lit(out, &[',', '"', 'm', 'e', 's', 's', 'a', 'g', 'e', '_', 'i', 'd', '"', ':']);
    emit_jopt_str(out, &e.message_id);
    push_lit(
        out,
        &[
            ',',
            '"',
            'h',
            'a',
            's',
            '_',
            'a',
            't',
            't',
            'a',
            'c',
            'h',
            'm',
            'e',
            'n',
            't',
            '"',
            ':',
        ],
    );
    if e.has_attachment {
        push_lit(out, &['t', 'r', 'u', 'e']);
    } else {
        push_lit(out, &['f', 'a', 'l', 's', 'e']);
    }
    proof {
        assert(out@ =~= base + spec_entry_c6(e@));
    }
}

fn emit_entry_c7(out: &mut Vec<char>, e: &MetadataEntry)
    ensures
        final(out)@ == old(out)@ + spec_entry_c7(e@),
{
    let ghost base = out@;
    push_lit(out, &[',', '"', 's', 'n', 'i', 'p', 'p', 'e', 't', '"', ':']);
    emit_jopt_str(out, &e.snippet);
    push_lit(
        out,
        &[',', '"', 'a', 't', 't', 'a', 'c', 'h', 'm', 'e', 'n', 't', 's', '"', ':'],
    );
    emit_jopt_atts(out, &e.attachments);
    out.push('}');
    proof {
        assert(out@ =~= base + spec_entry_c7(e@));
    }
}

fn emit_entry(out: &mut Vec<char>, e: &MetadataEntry)
    ensures
        final(out)@ == old(out)@ + spec_json_entry(e@),
{
    let ghost base = out@;
    emit_entry_c1(out, e);
    emit_entry_c2(out, e);
    emit_entry_c3(out, e);
    emit_entry_c4(out, e);
    emit_entry_c5(out, e);
    emit_entry_c6(out, e);
    emit_entry_c7(out, e);
    proof {
        assert(out@ =~= base + spec_json_entry(e@));
    }
}

proof fn lemma_jentry_items_step(v: Seq<EntryV>, k: int)
    requires
        1 <= k < v.len(),
    ensures
        spec_jentry_items(v.take(k + 1)) == spec_jentry_items(v.take(k)) + seq![',']
            + spec_json_entry(v[k]),
    decreases k,
{
    let a = v.take(k + 1);
    let b = v.take(k);
    if k == 1 {
        assert(a.drop_first() =~= seq![v[1]]);
        assert(a[0] == v[0]);
        assert(b =~= seq![v[0]]);
        assert(spec_jentry_items(seq![v[1]]) == spec_json_entry(v[1]));
        assert(spec_jentry_items(seq![v[0]]) == spec_json_entry(v[0]));
    } else {
        lemma_jentry_items_step(v.drop_first(), k - 1);
        assert(a.drop_first() =~= v.drop_first().take(k));
        assert(b.drop_first() =~= v.drop_first().take(k - 1));
        assert(a[0] == v[0]);
        assert(b[0] == v[0]);
        assert(v.drop_first()[k - 1] == v[k]);
        assert((spec_json_entry(v[0]) + seq![','] + spec_jentry_items(b.drop_first())) + seq![
            ',',
        ] + spec_json_entry(v[k]) =~= spec_json_entry(v[0]) + seq![','] + (spec_jentry_items(
            b.drop_first(),
        ) + seq![','] + spec_json_entry(v[k])));
    }
}

/// The serialized metadata index: a JSON array of the records, in archive
/// order.
pub fn json_metadata(entries: &Vec<MetadataEntry>) -> (r: String)
    ensures
        r@ == spec_json_entries(entries.deep_view()),
{
    let ghost dv = entries.deep_view();
    let mut out: Vec<char> = Vec::new();
    out.push('[');
    let n = entries.len();
    if n > 0 {
        proof {
            assert(dv[0] == entries@[0].deep_view());
        }
        emit_entry(&mut out, &entries[0]);
        proof {
            assert(dv.take(1) =~= seq![dv[0]]);
            assert(out@ =~= seq!['['] + spec_jentry_items(dv.take(1)));
        }
        let mut i: usize = 1;
        while i < n
            invariant
                1 <= i <= n,
                n == entries@.len(),
                dv == entries.deep_view(),
                dv.len() == n,
                out@ == seq!['['] + spec_jentry_items(dv.take(i as int)),
            decreases n - i,
        {
            proof {
                assert(dv[i as int] == entries@[i as int].deep_view());
            }
            out.push(',');
            emit_entry(&mut out, &entries[i]);
            proof {
                lemma_jentry_items_step(dv, i as int);
                assert(out@ =~= seq!['['] + spec_jentry_items(dv.take(i + 1)));
            }
            i = i + 1;
        }
        proof {
            assert(dv.take(n as int) =~= dv);
        }
    } else {
        proof {
            assert(spec_jentry_items(dv) == Seq::<char>::empty());
            assert(out@ =~= seq!['['] + spec_jentry_items(dv));
        }
    }
    out.push(']');
    proof {
        assert(out@ =~= spec_json_entries(dv));
    }
    chars_to_string(&out)
}

} // verus!
