//! The MBOX segmenter: splits a byte stream into per-message buffers. A line
//! beginning with `From ` at column zero starts a new message, except at the
//! very beginning, where it is message one's own leading marker. Every byte
//! of the input is kept: concatenating the produced buffers reproduces the
//! stream exactly.

use vstd::prelude::*;
use vstd::slice::{slice_subrange, slice_to_vec};
use crate::text::spec_starts_with;

verus! {

/// The envelope marker `From ` as bytes.
pub open spec fn from_marker() -> Seq<u8> {
    seq![70u8, 114u8, 111u8, 109u8, 32u8]
}

/// A message boundary: a position that begins a line (the previous byte is a
/// newline) whose first five bytes are the envelope marker. Position zero is
/// never a boundary: the first marker line belongs to message one.
pub open spec fn is_boundary(d: Seq<u8>, p: int) -> bool {
    0 < p < d.len() && d[p - 1] == 10u8 && spec_starts_with(d.skip(p), from_marker())
}

/// The first boundary at or after `q`, or the end of the stream.
pub open spec fn next_cut(d: Seq<u8>, q: int) -> int
    decreases d.len() - q,
    when 0 <= q <= d.len()
{
    if q >= d.len() {
        d.len() as int
    } else if is_boundary(d, q) {
        q
    } else {
        next_cut(d, q + 1)
    }
}

pub proof fn lemma_next_cut_bounds(d: Seq<u8>, q: int)
    requires
        0 <= q <= d.len(),
    ensures
        q <= next_cut(d, q) <= d.len(),
    decreases d.len() - q,
{
    if q < d.len() && !is_boundary(d, q) {
        lemma_next_cut_bounds(d, q + 1);
    }
}

fn is_boundary_at(d: &Vec<u8>, q: usize) -> (r: bool)
    requires
        q <= d@.len(),
    ensures
        r == is_boundary(d@, q as int),
{
    let n = d.len();
    if q == 0 || q >= n {
        return false;
    }
    if d[q - 1] != 10u8 {
        return false;
    }
    if n - q < 5 {
        proof {
            assert(d@.skip(q as int).len() < 5);
        }
        return false;
    }
    let ok = d[q] == 70u8 && d[q + 1] == 114u8 && d[q + 2] == 111u8 && d[q + 3] == 109u8 && d[q + 4]
        == 32u8;
    proof {
        let t = d@.skip(q as int);
        assert(t[0] == d@[q as int]);
        assert(t[1] == d@[q + 1]);
        assert(t[2] == d@[q + 2]);
        assert(t[3] == d@[q + 3]);
        assert(t[4] == d@[q + 4]);
        if ok {
            assert(t.take(5) =~= from_marker());
        } else {
            if spec_starts_with(t, from_marker()) {
                assert(t.take(5)[0] == t[0]);
                assert(t.take(5)[1] == t[1]);
                assert(t.take(5)[2] == t[2]);
                assert(t.take(5)[3] == t[3]);
                assert(t.take(5)[4] == t[4]);
            }
        }
    }
    ok
}

/// The first boundary at or after `from`, or the end of the data.
fn find_cut(d: &Vec<u8>, from: usize) -> (r: usize)
    requires
        from <= d@.len(),
    ensures
        r == next_cut(d@, from as int),
        from <= r <= d@.len(),
{
    let n = d.len();
    let mut q = from;
    while q < n
        invariant
            n == d@.len(),
            from <= q <= n,
            next_cut(d@, from as int) == next_cut(d@, q as int),
        decreases n - q,
    {
        if is_boundary_at(d, q) {
            proof {
                lemma_next_cut_bounds(d@, from as int);
            }
            return q;
        }
        q = q + 1;
    }
    q
}

/// Forward-only segmenter over an in-memory MBOX stream. `pos` is the start
/// of the next message still to be handed out.
pub struct MboxIterator {
    pub data: Vec<u8>,
    pub pos: usize,
}

impl MboxIterator {
    pub open spec fn wf(&self) -> bool {
        self.pos <= self.data@.len()
    }

    pub fn new(data: Vec<u8>) -> (r: MboxIterator)
        ensures
            r.wf(),
            r.data@ == data@,
            r.pos == 0,
    {
        MboxIterator { data, pos: 0 }
    }

    /// The next raw message: the bytes from the current position up to the
    /// next boundary (or the end). Returns nothing once the stream is spent.
    pub fn next(&mut self) -> (r: Option<Vec<u8>>)
        requires
            old(self).wf(),
        ensures
            final(self).wf(),
            final(self).data@ == old(self).data@,
            match r {
                Option::Some(m) => {
                    &&& old(self).pos < old(self).data@.len()
                    &&& final(self).pos == next_cut(old(self).data@, old(self).pos + 1)
                    &&& old(self).pos < final(self).pos <= old(self).data@.len()
                    &&& m@ == old(self).data@.subrange(
                        old(self).pos as int,
                        final(self).pos as int,
                    )
                    &&& m@.len() > 0
                },
                Option::None => {
                    &&& old(self).pos == old(self).data@.len()
                    &&& final(self).pos == old(self).pos
                },
            },
    {
        if self.pos >= self.data.len() {
            return None;
        }
        proof {
            lemma_next_cut_bounds(self.data@, self.pos + 1);
        }
        let cut = find_cut(&self.data, self.pos + 1);
        let m = slice_to_vec(slice_subrange(self.data.as_slice(), self.pos, cut));
        self.pos = cut;
        Some(m)
    }
}

/// Concatenation of a sequence of byte buffers.
pub open spec fn concat_of(parts: Seq<Seq<u8>>) -> Seq<u8>
    decreases parts.len(),
{
    if parts.len() == 0 {
        Seq::<u8>::empty()
    } else {
        parts[0] + concat_of(parts.drop_first())
    }
}

proof fn lemma_concat_push(parts: Seq<Seq<u8>>, m: Seq<u8>)
    ensures
        concat_of(parts.push(m)) == concat_of(parts) + m,
    decreases parts.len(),
{
    let p2 = parts.push(m);
    if parts.len() == 0 {
        assert(p2.drop_first() =~= Seq::<Seq<u8>>::empty());
        assert(p2[0] == m);
        assert(concat_of(p2.drop_first()) == Seq::<u8>::empty());
        assert(concat_of(p2) == m + Seq::<u8>::empty());
        assert(m + Seq::<u8>::empty() =~= m);
        assert(concat_of(parts) + m =~= m);
    } else {
        assert(p2.drop_first() =~= parts.drop_first().push(m));
        assert(p2[0] == parts[0]);
        lemma_concat_push(parts.drop_first(), m);
        assert(concat_of(p2) == parts[0] + concat_of(parts.drop_first().push(m)));
        assert((parts[0] + concat_of(parts.drop_first())) + m =~= parts[0] + (concat_of(
            parts.drop_first(),
        ) + m));
    }
}

/// Segments a whole stream. Re-concatenating the result reproduces the input
/// byte for byte, and no produced message is empty.
pub fn segment_all(data: &Vec<u8>) -> (r: Vec<Vec<u8>>)
    ensures
        concat_of(r.deep_view()) == data@,
        forall|k: int| 0 <= k < r.deep_view().len() ==> r.deep_view()[k].len() > 0,
{
    let ghost d = data@;
    let mut it = MboxIterator::new(slice_to_vec(data.as_slice()));
    let mut parts: Vec<Vec<u8>> = Vec::new();
    proof {
        assert(concat_of(parts.deep_view()) =~= d.take(0));
    }
    loop
        invariant
            d == data@,
            it.wf(),
            it.data@ == d,
            concat_of(parts.deep_view()) == d.take(it.pos as int),
            forall|k: int| 0 <= k < parts.deep_view().len() ==> parts.deep_view()[k].len() > 0,
        decreases d.len() - it.pos,
    {
        let ghost oldpos = it.pos;
        let ghost prev = parts.deep_view();
        match it.next() {
            Some(m) => {
                let ghost mv = m@;
                parts.push(m);
                proof {
                    assert(parts.deep_view() =~~= prev.push(mv));
                    lemma_concat_push(prev, mv);
                    assert(d.take(oldpos as int) + d.subrange(oldpos as int, it.pos as int) =~= d
                        .take(it.pos as int));
                }
            },
            None => {
                proof {
                    assert(d.take(it.pos as int) =~= d);
                }
                return parts;
            },
        }
    }
}

} // verus!
