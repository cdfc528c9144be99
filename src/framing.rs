//! Newline framing: a byte stream is cut into records, each ended by one
//! newline byte. Bytes are held back until their newline has arrived.

use vstd::prelude::*;

verus! {

/// The byte that ends every record.
pub const NEWLINE: u8 = 10;

/// True when no byte of `s` is a newline.
pub open spec fn no_newline(s: Seq<u8>) -> bool {
    forall|i: int| 0 <= i < s.len() ==> s[i] != NEWLINE
}

/// The bytes of `lines` as they stand on the wire: each line followed by a
/// newline.
pub open spec fn framed(lines: Seq<Seq<u8>>) -> Seq<u8>
    decreases lines.len(),
{
    if lines.len() == 0 {
        Seq::empty()
    } else {
        framed(lines.drop_last()) + lines.last() + seq![NEWLINE]
    }
}

/// The byte contents of each line in `v`.
pub open spec fn lines_view(v: Seq<Vec<u8>>) -> Seq<Seq<u8>> {
    v.map_values(|l: Vec<u8>| l@)
}

/// Bytes of a stream whose last record has not ended yet.
pub struct LineBuffer {
    pending: Vec<u8>,
}

impl View for LineBuffer {
    type V = Seq<u8>;

    /// The bytes received since the last newline.
    closed spec fn view(&self) -> Seq<u8> {
        self.pending@
    }
}

impl LineBuffer {
    /// The held bytes never contain a complete record.
    pub open spec fn well_formed(&self) -> bool {
        no_newline(self@)
    }

    pub fn new() -> (r: LineBuffer)
        ensures
            r@ == Seq::<u8>::empty(),
            r.well_formed(),
    {
        LineBuffer { pending: Vec::new() }
    }

    /// Takes the next bytes of the stream and returns the records they
    /// complete, in order, without their newlines. What is left after the
    /// last newline is kept for later.
    pub fn push(&mut self, bytes: &[u8]) -> (r: Vec<Vec<u8>>)
        requires
            old(self).well_formed(),
        ensures
            final(self).well_formed(),
            framed(lines_view(r@)) + final(self)@ == old(self)@ + bytes@,
            forall|k: int| 0 <= k < r.len() ==> no_newline(#[trigger] lines_view(r@)[k]),
    {
        let mut out: Vec<Vec<u8>> = Vec::new();
        let mut i: usize = 0;
        while i < bytes.len()
            invariant
                0 <= i <= bytes.len(),
                self.well_formed(),
                framed(lines_view(out@)) + self@ == old(self)@ + bytes@.subrange(0, i as int),
                forall|k: int| 0 <= k < out.len() ==> no_newline(#[trigger] lines_view(out@)[k]),
            decreases bytes.len() - i,
        {
            let b = bytes[i];
            let ghost before = lines_view(out@);
            let ghost raw = out@;
            let ghost held = self@;
            if b == NEWLINE {
                let mut line: Vec<u8> = Vec::new();
                std::mem::swap(&mut line, &mut self.pending);
                out.push(line);
                proof {
                    assert(out@ =~= raw.push(line));
                    assert(lines_view(out@) =~= before.push(held));
                    assert(lines_view(out@).drop_last() =~= before);
                    assert(bytes@.subrange(0, i + 1) =~= bytes@.subrange(0, i as int).push(b));
                    assert(framed(lines_view(out@)) + self@ =~= framed(before) + held + seq![NEWLINE]);
                }
            } else {
                self.pending.push(b);
                proof {
                    assert(bytes@.subrange(0, i + 1) =~= bytes@.subrange(0, i as int).push(b));
                    assert(framed(lines_view(out@)) + self@ =~= framed(before) + held + seq![b]);
                }
            }
            i = i + 1;
        }
        proof {
            assert(bytes@.subrange(0, bytes@.len() as int) =~= bytes@);
        }
        out
    }

    /// Ends the stream: the bytes after the last newline, if there are any,
    /// form a last record that had no newline of its own.
    pub fn finish(self) -> (r: Option<Vec<u8>>)
        requires
            self.well_formed(),
        ensures
            self@.len() == 0 ==> r.is_none(),
            self@.len() > 0 ==> r.is_some() && r.unwrap()@ == self@,
            r.is_some() ==> no_newline(r.unwrap()@),
    {
        if self.pending.len() == 0 {
            None
        } else {
            Some(self.pending)
        }
    }
}

/// The newlines of `framed(lines) + rest` when no line and not `rest` holds
/// one: the last is the last byte of `framed(lines)`, and none comes after.
proof fn lemma_last_newline(lines: Seq<Seq<u8>>, rest: Seq<u8>)
    requires
        forall|k: int| 0 <= k < lines.len() ==> no_newline(#[trigger] lines[k]),
        no_newline(rest),
    ensures
        lines.len() > 0 ==> framed(lines).len() > 0 && (framed(lines) + rest)[framed(lines).len() - 1]
            == NEWLINE,
        forall|i: int| framed(lines).len() <= i < framed(lines).len() + rest.len()
            ==> (framed(lines) + rest)[i] != NEWLINE,
        lines.len() == 0 ==> framed(lines) == Seq::<u8>::empty(),
{
}

/// A stream of records, each ended by a newline and holding none, followed
/// by an unfinished tail, splits in one way only: records and tail are
/// recovered exactly, none lost, none doubled, in order.
pub proof fn lemma_frames_read_back(
    a: Seq<Seq<u8>>,
    p: Seq<u8>,
    b: Seq<Seq<u8>>,
    q: Seq<u8>,
)
    requires
        forall|k: int| 0 <= k < a.len() ==> no_newline(#[trigger] a[k]),
        forall|k: int| 0 <= k < b.len() ==> no_newline(#[trigger] b[k]),
        no_newline(p),
        no_newline(q),
        framed(a) + p == framed(b) + q,
    ensures
        a == b,
        p == q,
    decreases a.len(),
{
    let s = framed(a) + p;
    lemma_last_newline(a, p);
    lemma_last_newline(b, q);
    let fa = framed(a).len();
    let fb = framed(b).len();
    assert(s.len() == fa + p.len());
    assert(s.len() == fb + q.len());
    if fa < fb {
        assert(b.len() > 0);
        assert((framed(b) + q)[fb - 1] == NEWLINE);
        assert(fa <= fb - 1 < fa + p.len());
        assert((framed(a) + p)[fb - 1] != NEWLINE);
    } else if fb < fa {
        assert(a.len() > 0);
        assert((framed(a) + p)[fa - 1] == NEWLINE);
        assert(fb <= fa - 1 < fb + q.len());
        assert((framed(b) + q)[fa - 1] != NEWLINE);
    }
    assert(fa == fb);
    assert(framed(a) =~= s.subrange(0, fa as int));
    assert(framed(b) =~= s.subrange(0, fb as int));
    assert(p =~= s.subrange(fa as int, s.len() as int));
    assert(q =~= s.subrange(fb as int, s.len() as int));
    if a.len() == 0 {
        if b.len() > 0 {
            assert(framed(b).len() > 0);
        }
        assert(a =~= b);
    } else {
        assert(b.len() > 0);
        let fa2 = framed(a.drop_last()) + a.last();
        let fb2 = framed(b.drop_last()) + b.last();
        assert(framed(a) == fa2 + seq![NEWLINE]);
        assert(framed(b) == fb2 + seq![NEWLINE]);
        assert(fa2 =~= framed(a).subrange(0, fa - 1));
        assert(fb2 =~= framed(b).subrange(0, fb - 1));
        assert forall|k: int| 0 <= k < a.drop_last().len() implies no_newline(#[trigger] a.drop_last()[k]) by {
            assert(a.drop_last()[k] == a[k]);
        }
        assert forall|k: int| 0 <= k < b.drop_last().len() implies no_newline(#[trigger] b.drop_last()[k]) by {
            assert(b.drop_last()[k] == b[k]);
        }
        assert(no_newline(a[a.len() - 1]));
        assert(no_newline(b[b.len() - 1]));
        lemma_frames_read_back(a.drop_last(), a.last(), b.drop_last(), b.last());
        assert(a =~= a.drop_last().push(a.last()));
        assert(b =~= b.drop_last().push(b.last()));
    }
}

} // verus!
