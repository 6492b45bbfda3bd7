//! Splitting a growing byte buffer into `text/event-stream` frames.
//!
//! An end of line is CRLF (taken as one unit), a lone CR or a lone LF. A frame
//! ends where two ends of line follow each other. A CRLF that is followed by
//! no second end of line, or by nothing yet, also ends a frame: its CR closes
//! the frame and its LF the last field.

use vstd::prelude::*;

verus! {

/// Carriage return.
pub const CR: u8 = 13;

/// Line feed.
pub const LF: u8 = 10;

/// Length of the end of line that starts at `i` in `s`, or 0 if none starts there.
pub open spec fn eol_len(s: Seq<u8>, i: int) -> int {
    if 0 <= i && i + 1 < s.len() && s[i] == CR && s[i + 1] == LF {
        2
    } else if 0 <= i < s.len() && (s[i] == CR || s[i] == LF) {
        1
    } else {
        0
    }
}

/// Length of the frame boundary that starts at `i` in `s`, or 0 if none starts there.
pub open spec fn boundary_len(s: Seq<u8>, i: int) -> int {
    let first = eol_len(s, i);
    let second = eol_len(s, i + first);
    if first == 0 {
        0
    } else if second > 0 {
        first + second
    } else if first == 2 {
        2
    } else {
        0
    }
}

/// The first position at or after `from` where a frame boundary starts, or
/// `s.len()` if there is none.
pub open spec fn find_boundary(s: Seq<u8>, from: int) -> int
    decreases s.len() - from,
{
    if from < 0 || from >= s.len() {
        s.len() as int
    } else if boundary_len(s, from) > 0 {
        from
    } else {
        find_boundary(s, from + 1)
    }
}

/// A frame together with the boundary marker that closed it.
pub struct Cut {
    pub frame: Seq<u8>,
    pub marker: Seq<u8>,
}

/// True if `s` holds a complete frame.
pub open spec fn has_frame(s: Seq<u8>) -> bool {
    find_boundary(s, 0) < s.len()
}

/// The first frame of `s` and its marker. Meaningful where `has_frame(s)`.
pub open spec fn first_cut(s: Seq<u8>) -> Cut {
    let at = find_boundary(s, 0);
    Cut { frame: s.subrange(0, at), marker: s.subrange(at, at + boundary_len(s, at)) }
}

/// What is left of `s` behind its first frame and marker.
pub open spec fn after_first_cut(s: Seq<u8>) -> Seq<u8> {
    let at = find_boundary(s, 0);
    s.subrange(at + boundary_len(s, at), s.len() as int)
}

/// A frame boundary is two to four bytes long and lies within the bytes.
pub proof fn lemma_boundary_len_bounds(s: Seq<u8>, i: int)
    ensures
        boundary_len(s, i) == 0 || 2 <= boundary_len(s, i) <= 4,
        boundary_len(s, i) > 0 ==> 0 <= i && i + boundary_len(s, i) <= s.len(),
{
}

/// The first boundary at or after `from` starts a boundary, and none starts
/// between `from` and it.
pub proof fn lemma_find_boundary(s: Seq<u8>, from: int)
    requires
        0 <= from <= s.len(),
    ensures
        from <= find_boundary(s, from) <= s.len(),
        find_boundary(s, from) < s.len() ==> boundary_len(s, find_boundary(s, from)) > 0,
        forall|j: int| from <= j < find_boundary(s, from) ==> boundary_len(s, j) == 0,
    decreases s.len() - from,
{
    if from < s.len() && boundary_len(s, from) == 0 {
        lemma_find_boundary(s, from + 1);
    }
}

/// Incremental splitter of an event stream into frames.
pub struct EventStream {
    buffer: Vec<u8>,
    processed_offset: usize,
}

impl View for EventStream {
    type V = Seq<u8>;

    /// The bytes that were fed and not yet handed out.
    closed spec fn view(&self) -> Seq<u8> {
        self.buffer@.subrange(self.processed_offset as int, self.buffer@.len() as int)
    }
}

impl EventStream {
    /// The offset of the bytes handed out lies within the buffer.
    pub closed spec fn wf(&self) -> bool {
        self.processed_offset <= self.buffer@.len()
    }

    /// A splitter that holds nothing.
    pub fn new() -> (r: Self)
        ensures
            r.wf(),
            r@ == Seq::<u8>::empty(),
    {
        let r = EventStream { buffer: Vec::new(), processed_offset: 0 };
        assert(r@ =~= Seq::<u8>::empty());
        r
    }

    /// Appends `data` behind the bytes not yet handed out; what was handed out is dropped.
    pub fn update(&mut self, data: Vec<u8>)
        requires
            old(self).wf(),
        ensures
            final(self).wf(),
            final(self)@ == old(self)@ + data@,
    {
        let ghost added = data@;
        let mut data = data;
        if self.processed_offset > 0 {
            let mut rest = self.buffer.split_off(self.processed_offset);
            rest.append(&mut data);
            self.buffer = rest;
            self.processed_offset = 0;
        } else {
            self.buffer.append(&mut data);
        }
        assert(self@ =~= old(self)@ + added);
    }

    /// Length of the end of line at `i`, if one starts there.
    fn is_eol(&self, i: usize) -> (r: Option<usize>)
        requires
            i < self.buffer@.len(),
        ensures
            r == (if eol_len(self.buffer@, i as int) == 0 {
                None
            } else {
                Some(eol_len(self.buffer@, i as int) as usize)
            }),
    {
        let n = self.buffer.len();
        if i + 1 < n && self.buffer[i] == CR && self.buffer[i + 1] == LF {
            Some(2)
        } else if self.buffer[i] == CR || self.buffer[i] == LF {
            Some(1)
        } else {
            None
        }
    }

    /// Length of the frame boundary at `i`, if one starts there.
    fn is_2eol(&self, i: usize) -> (r: Option<usize>)
        requires
            i < self.buffer@.len(),
        ensures
            r == (if boundary_len(self.buffer@, i as int) == 0 {
                None
            } else {
                Some(boundary_len(self.buffer@, i as int) as usize)
            }),
    {
        let size1 = match self.is_eol(i) {
            None => return None,
            Some(size1) => size1,
        };
        let n = self.buffer.len();
        if i + size1 < n {
            match self.is_eol(i + size1) {
                None => {
                    if size1 == 2 {
                        Some(2)
                    } else {
                        None
                    }
                },
                Some(size2) => Some(size1 + size2),
            }
        } else if size1 == 2 {
            Some(2)
        } else {
            None
        }
    }

    /// Hands out the next complete frame, or `None` if more data is needed.
    pub fn next(&mut self) -> (r: Option<Vec<u8>>)
        requires
            old(self).wf(),
        ensures
            final(self).wf(),
            r is Some == has_frame(old(self)@),
            r matches Some(frame) ==> frame@ == first_cut(old(self)@).frame && final(self)@
                == after_first_cut(old(self)@),
            r is None ==> final(self)@ == old(self)@,
    {
        let ghost pending = self@;
        let start = self.processed_offset;
        let mut i = start;
        proof {
            lemma_find_boundary(pending, 0);
        }
        while i < self.buffer.len()
            invariant
                self.wf(),
                start == self.processed_offset,
                start <= i <= self.buffer@.len(),
                pending == self@,
                *self == *old(self),
                find_boundary(pending, 0) == find_boundary(pending, i - start),
            decreases self.buffer@.len() - i,
        {
            proof {
                lemma_shift_boundary(self.buffer@, start as int, i as int);
            }
            if let Some(size) = self.is_2eol(i) {
                let event = copy_range(&self.buffer, start, i);
                proof {
                    lemma_boundary_len_bounds(self.buffer@, i as int);
                    assert(event@ =~= first_cut(pending).frame);
                }
                self.processed_offset = i + size;
                assert(self@ =~= after_first_cut(pending));
                return Some(event);
            }
            i += 1;
        }
        None
    }

    /// Hands out whatever is left, once; `None` if nothing is left.
    pub fn flush(&mut self) -> (r: Option<Vec<u8>>)
        requires
            old(self).wf(),
        ensures
            final(self).wf(),
            final(self)@ == Seq::<u8>::empty(),
            r is None == (old(self)@.len() == 0),
            r matches Some(tail) ==> tail@ == old(self)@,
    {
        if self.processed_offset < self.buffer.len() {
            let remaining_event = copy_range(&self.buffer, self.processed_offset, self.buffer.len());
            self.processed_offset = self.buffer.len();
            assert(self@ =~= Seq::<u8>::empty());
            Some(remaining_event)
        } else {
            assert(self@ =~= Seq::<u8>::empty());
            None
        }
    }
}

/// A boundary in the bytes not yet handed out is a boundary in the buffer, moved by `start`.
proof fn lemma_shift_boundary(buffer: Seq<u8>, start: int, i: int)
    requires
        0 <= start <= i < buffer.len(),
    ensures
        boundary_len(buffer.subrange(start, buffer.len() as int), i - start) == boundary_len(
            buffer,
            i,
        ),
{
    let p = buffer.subrange(start, buffer.len() as int);
    let k = i - start;
    assert(eol_len(p, k) == eol_len(buffer, i));
    let first = eol_len(p, k);
    assert(eol_len(p, k + first) == eol_len(buffer, i + first));
}

/// All complete frames of `s` in order, each with the marker that closed it.
pub open spec fn cuts(s: Seq<u8>) -> Seq<Cut>
    decreases s.len(),
{
    if has_frame(s) && after_first_cut(s).len() < s.len() {
        seq![first_cut(s)] + cuts(after_first_cut(s))
    } else {
        Seq::empty()
    }
}

/// What is left of `s` behind its last complete frame: the bytes that `flush` hands out.
pub open spec fn tail(s: Seq<u8>) -> Seq<u8>
    decreases s.len(),
{
    if has_frame(s) && after_first_cut(s).len() < s.len() {
        tail(after_first_cut(s))
    } else {
        s
    }
}

/// The frames of `cs` with their markers put back between them.
pub open spec fn rejoin(cs: Seq<Cut>) -> Seq<u8>
    decreases cs.len(),
{
    if cs.len() == 0 {
        Seq::empty()
    } else {
        cs[0].frame + cs[0].marker + rejoin(cs.drop_first())
    }
}

/// The chunks one after the other.
pub open spec fn concat(chunks: Seq<Seq<u8>>) -> Seq<u8>
    decreases chunks.len(),
{
    if chunks.len() == 0 {
        Seq::empty()
    } else {
        chunks[0] + concat(chunks.drop_first())
    }
}

/// The frames handed out when `chunks` are fed one by one to a stream that
/// holds `pending`, and `next` is called after each until it gives `None`.
pub open spec fn cuts_chunked(pending: Seq<u8>, chunks: Seq<Seq<u8>>) -> Seq<Cut>
    decreases chunks.len(),
{
    if chunks.len() == 0 {
        Seq::empty()
    } else {
        cuts(pending + chunks[0]) + cuts_chunked(tail(pending + chunks[0]), chunks.drop_first())
    }
}

/// What such a stream holds at the end: the bytes that a final `flush` hands out.
pub open spec fn tail_chunked(pending: Seq<u8>, chunks: Seq<Seq<u8>>) -> Seq<u8>
    decreases chunks.len(),
{
    if chunks.len() == 0 {
        pending
    } else {
        tail_chunked(tail(pending + chunks[0]), chunks.drop_first())
    }
}

/// True if every byte of `m` is CR or LF.
pub open spec fn only_eol_bytes(m: Seq<u8>) -> bool {
    forall|k: int| 0 <= k < m.len() ==> m[k] == CR || m[k] == LF
}

/// True if `b`, arriving after `a` was split into frames, lengthens the marker
/// that closed the last frame of `a`: that marker ends with the last byte of
/// `a` and is either a lone CRLF before a CR or LF, or ends in a CR before an LF.
pub open spec fn splits_marker(a: Seq<u8>, b: Seq<u8>) -> bool {
    let m = cuts(a).last().marker;
    &&& cuts(a).len() > 0
    &&& tail(a).len() == 0
    &&& b.len() > 0
    &&& (m == seq![CR, LF] && (b[0] == CR || b[0] == LF)) || (m.last() == CR && b[0] == LF)
}

/// A frame and its marker are a prefix of the bytes they were cut from; the
/// marker is two to four bytes, each CR or LF; the frame holds no boundary.
pub proof fn lemma_first_cut(s: Seq<u8>)
    requires
        has_frame(s),
    ensures
        first_cut(s).frame + first_cut(s).marker + after_first_cut(s) == s,
        2 <= first_cut(s).marker.len() <= 4,
        only_eol_bytes(first_cut(s).marker),
        after_first_cut(s).len() < s.len(),
        forall|j: int| 0 <= j < first_cut(s).frame.len() ==> boundary_len(s, j) == 0,
{
    lemma_find_boundary(s, 0);
    let at = find_boundary(s, 0);
    lemma_boundary_len_bounds(s, at);
    assert(first_cut(s).frame + first_cut(s).marker + after_first_cut(s) =~= s);
    let first = eol_len(s, at);
    let second = eol_len(s, at + first);
    assert forall|k: int| 0 <= k < first_cut(s).marker.len() implies first_cut(s).marker[k] == CR
        || first_cut(s).marker[k] == LF by {
        assert(first_cut(s).marker[k] == s[at + k]);
    }
}

/// Splitting loses nothing: the frames, with their markers put back, followed
/// by the tail are the bytes that were split. Each marker is two to four
/// bytes of CR and LF, and the tail holds no complete frame.
pub proof fn lemma_cuts_lossless(s: Seq<u8>)
    ensures
        rejoin(cuts(s)) + tail(s) == s,
        forall|k: int|
            0 <= k < cuts(s).len() ==> 2 <= (#[trigger] cuts(s)[k]).marker.len() <= 4
                && only_eol_bytes(cuts(s)[k].marker),
        !has_frame(tail(s)),
    decreases s.len(),
{
    if has_frame(s) {
        lemma_first_cut(s);
        let rest = after_first_cut(s);
        lemma_cuts_lossless(rest);
        let c = first_cut(s);
        assert(cuts(s).drop_first() =~= cuts(rest));
        assert(rejoin(cuts(s)) + tail(s) =~= c.frame + c.marker + (rejoin(cuts(rest)) + tail(rest)));
        assert forall|k: int| 0 <= k < cuts(s).len() implies 2 <= (#[trigger] cuts(
            s,
        )[k]).marker.len() <= 4 && only_eol_bytes(cuts(s)[k].marker) by {
            if k > 0 {
                assert(cuts(s)[k] == cuts(rest)[k - 1]);
            }
        }
    } else {
        assert(rejoin(cuts(s)) + tail(s) =~= s);
    }
}

proof fn lemma_rejoin_append(a: Seq<Cut>, b: Seq<Cut>)
    ensures
        rejoin(a + b) == rejoin(a) + rejoin(b),
    decreases a.len(),
{
    if a.len() == 0 {
        assert(a + b =~= b);
        assert(rejoin(a) + rejoin(b) =~= rejoin(b));
    } else {
        lemma_rejoin_append(a.drop_first(), b);
        assert((a + b).drop_first() =~= a.drop_first() + b);
        assert(rejoin(a + b) =~= rejoin(a) + rejoin(b));
    }
}

/// Framing loses nothing however the input is chunked: the frames handed out,
/// with their markers put back, followed by the final tail are the bytes held
/// at the start followed by all the chunks.
pub proof fn lemma_chunked_lossless(pending: Seq<u8>, chunks: Seq<Seq<u8>>)
    ensures
        rejoin(cuts_chunked(pending, chunks)) + tail_chunked(pending, chunks) == pending + concat(
            chunks,
        ),
        !has_frame(pending) || chunks.len() > 0 ==> !has_frame(tail_chunked(pending, chunks)),
    decreases chunks.len(),
{
    if chunks.len() == 0 {
        assert(rejoin(cuts_chunked(pending, chunks)) + tail_chunked(pending, chunks) =~= pending
            + concat(chunks));
    } else {
        let s = pending + chunks[0];
        let rest = chunks.drop_first();
        lemma_cuts_lossless(s);
        lemma_chunked_lossless(tail(s), rest);
        lemma_rejoin_append(cuts(s), cuts_chunked(tail(s), rest));
        assert(rejoin(cuts_chunked(pending, chunks)) + tail_chunked(pending, chunks) =~= rejoin(
            cuts(s),
        ) + (rejoin(cuts_chunked(tail(s), rest)) + tail_chunked(tail(s), rest)));
        assert(pending + concat(chunks) =~= (rejoin(cuts(s)) + tail(s)) + concat(rest));
    }
}

/// True if no chunk but the last ends inside a marker: see `splits_marker`.
pub open spec fn clean_chunking(pending: Seq<u8>, chunks: Seq<Seq<u8>>) -> bool
    decreases chunks.len(),
{
    chunks.len() == 0 || (!splits_marker(pending + chunks[0], concat(chunks.drop_first()))
        && clean_chunking(tail(pending + chunks[0]), chunks.drop_first()))
}

/// Bytes that arrive later do not move the start of the first boundary of
/// `a`, nor shorten it.
proof fn lemma_same_start(a: Seq<u8>, b: Seq<u8>)
    requires
        has_frame(a),
    ensures
        find_boundary(a + b, 0) == find_boundary(a, 0),
        boundary_len(a + b, find_boundary(a, 0)) >= boundary_len(a, find_boundary(a, 0)),
        eol_len(a + b, find_boundary(a, 0)) == eol_len(a, find_boundary(a, 0)),
{
    let s = a + b;
    let at = find_boundary(a, 0);
    lemma_find_boundary(a, 0);
    lemma_boundary_len_bounds(a, at);
    let first = eol_len(a, at);
    assert(eol_len(s, at) == first);
    assert(eol_len(s, at + first) >= eol_len(a, at + first));
    assert forall|j: int| 0 <= j < at implies boundary_len(s, j) == 0 by {
        assert(boundary_len(a, j) == 0);
        assert(eol_len(s, j) == eol_len(a, j));
        if eol_len(a, j) > 0 {
            assert(eol_len(a, j + 1) == 0);
            assert(eol_len(s, j + 1) == 0);
        }
    }
    lemma_find_boundary_is(s, 0, at);
}

/// Bytes that arrive later do not change the first frame of `a`, unless they
/// lengthen its marker.
proof fn lemma_first_cut_stable(a: Seq<u8>, b: Seq<u8>)
    requires
        has_frame(a),
        after_first_cut(a).len() > 0 || !splits_marker(a, b),
    ensures
        has_frame(a + b),
        first_cut(a + b) == first_cut(a),
        after_first_cut(a + b) == after_first_cut(a) + b,
{
    let s = a + b;
    let at = find_boundary(a, 0);
    lemma_find_boundary(a, 0);
    lemma_boundary_len_bounds(a, at);
    let k = boundary_len(a, at);
    let first = eol_len(a, at);
    assert(eol_len(s, at) == first);
    if after_first_cut(a).len() == 0 {
        lemma_first_cut(a);
        let c = first_cut(a);
        assert(cuts(after_first_cut(a)) =~= Seq::<Cut>::empty());
        assert(cuts(a) =~= seq![c]);
        assert(cuts(a).last() == c);
        assert(tail(a) == tail(after_first_cut(a)));
        assert(at + k == a.len());
        if b.len() > 0 {
            if at + first == a.len() {
                assert(c.marker =~= seq![CR, LF]);
            } else {
                assert(c.marker.last() == a[a.len() - 1]);
            }
        }
    }
    assert(eol_len(s, at + first) == eol_len(a, at + first));
    assert(boundary_len(s, at) == k);
    lemma_same_start(a, b);
    assert(first_cut(s).frame =~= first_cut(a).frame);
    assert(first_cut(s).marker =~= first_cut(a).marker);
    assert(after_first_cut(s) =~= after_first_cut(a) + b);
}

/// The first boundary at or after `from` is at `at` if one starts there and none before.
proof fn lemma_find_boundary_is(s: Seq<u8>, from: int, at: int)
    requires
        0 <= from <= at < s.len(),
        boundary_len(s, at) > 0,
        forall|j: int| from <= j < at ==> boundary_len(s, j) == 0,
    ensures
        find_boundary(s, from) == at,
    decreases at - from,
{
    if from < at {
        lemma_find_boundary_is(s, from + 1, at);
    }
}

/// A cut between two chunks changes neither frames nor markers nor tail,
/// unless the second chunk lengthens the marker that ended the first.
pub proof fn lemma_chunk_independent(a: Seq<u8>, b: Seq<u8>)
    requires
        !splits_marker(a, b),
    ensures
        cuts(a + b) == cuts(a) + cuts(tail(a) + b),
        tail(a + b) == tail(tail(a) + b),
    decreases a.len(),
{
    if has_frame(a) {
        lemma_first_cut(a);
        let r = after_first_cut(a);
        lemma_first_cut_stable(a, b);
        lemma_first_cut(a + b);
        if cuts(r).len() > 0 {
            assert(cuts(a).last() == cuts(r).last());
        }
        assert(!splits_marker(r, b));
        lemma_chunk_independent(r, b);
        assert(cuts(a + b) =~= cuts(a) + cuts(tail(a) + b));
    } else {
        assert(cuts(a) + cuts(tail(a) + b) =~= cuts(a + b));
    }
}

/// A marker that ends with the last byte of `a` grows when the bytes that
/// follow continue it.
proof fn lemma_marker_grows(a: Seq<u8>, b: Seq<u8>)
    requires
        has_frame(a),
        after_first_cut(a).len() == 0,
        b.len() > 0,
        (first_cut(a).marker == seq![CR, LF] && (b[0] == CR || b[0] == LF)) || (first_cut(
            a,
        ).marker.last() == CR && b[0] == LF),
    ensures
        has_frame(a + b),
        first_cut(a + b).marker.len() > first_cut(a).marker.len(),
{
    let s = a + b;
    let at = find_boundary(a, 0);
    lemma_find_boundary(a, 0);
    lemma_boundary_len_bounds(a, at);
    lemma_same_start(a, b);
    let k = boundary_len(a, at);
    let first = eol_len(a, at);
    let m = first_cut(a).marker;
    assert(m.len() == k);
    assert(at + k == a.len());
    assert(m[0] == a[at]);
    assert(m[1] == a[at + 1]);
    assert(m.last() == a[a.len() - 1]);
    assert(s[a.len() as int] == b[0]);
    if at + first == a.len() {
        assert(eol_len(s, at + first) > 0);
    } else {
        if m == seq![CR, LF] {
            assert(first == 2);
        }
        assert(a[a.len() - 1] == CR);
        assert(b[0] == LF);
        assert(at + first + 1 == a.len());
        assert(eol_len(s, at + first) == 2);
    }
    assert(boundary_len(s, at) > k);
    lemma_boundary_len_bounds(s, at);
}

/// Where a second chunk lengthens the marker that ended the first, the
/// markers of the chunked run differ from those of the whole.
pub proof fn lemma_chunk_dependent(a: Seq<u8>, b: Seq<u8>)
    requires
        splits_marker(a, b),
    ensures
        cuts(a + b) != cuts(a) + cuts(tail(a) + b),
    decreases a.len(),
{
    lemma_first_cut(a);
    let r = after_first_cut(a);
    let c = first_cut(a);
    let whole = cuts(a + b);
    let parts = cuts(a) + cuts(tail(a) + b);
    if r.len() > 0 {
        lemma_first_cut_stable(a, b);
        lemma_first_cut(a + b);
        if has_frame(r) {
            lemma_first_cut(r);
        }
        assert(cuts(a).last() == cuts(r).last());
        lemma_chunk_dependent(r, b);
        assert(whole.drop_first() =~= cuts(r + b));
        assert(parts.drop_first() =~= cuts(r) + cuts(tail(r) + b));
    } else {
        assert(cuts(r) =~= Seq::<Cut>::empty());
        assert(cuts(a) =~= seq![c]);
        lemma_marker_grows(a, b);
        lemma_first_cut(a + b);
        assert(whole[0] == first_cut(a + b));
        assert(parts[0] == c);
    }
}

/// Framing does not depend on the chunking, as long as no chunk ends inside
/// a marker: the frames, markers and tail of the chunked run are those of the
/// whole input.
pub proof fn lemma_chunking_independent(pending: Seq<u8>, chunks: Seq<Seq<u8>>)
    requires
        chunks.len() > 0,
        clean_chunking(pending, chunks),
    ensures
        cuts_chunked(pending, chunks) == cuts(pending + concat(chunks)),
        tail_chunked(pending, chunks) == tail(pending + concat(chunks)),
    decreases chunks.len(),
{
    let a = pending + chunks[0];
    let rest = chunks.drop_first();
    let b = concat(rest);
    lemma_chunk_independent(a, b);
    assert(pending + concat(chunks) =~= a + b);
    if rest.len() == 0 {
        assert(tail(a) + b =~= tail(a));
        lemma_cuts_lossless(a);
        assert(cuts(tail(a)) =~= Seq::<Cut>::empty());
        assert(cuts_chunked(tail(a), rest) =~= Seq::<Cut>::empty());
        assert(tail_chunked(tail(a), rest) == tail(a));
        assert(cuts_chunked(pending, chunks) =~= cuts(a + b));
    } else {
        lemma_chunking_independent(tail(a), rest);
    }
}

/// A copy of `v[from..to]`.
pub fn copy_range(v: &Vec<u8>, from: usize, to: usize) -> (r: Vec<u8>)
    requires
        from <= to <= v@.len(),
    ensures
        r@ == v@.subrange(from as int, to as int),
{
    let mut r: Vec<u8> = Vec::new();
    r.extend_from_slice(vstd::slice::slice_subrange(v.as_slice(), from, to));
    r
}

} // verus!
