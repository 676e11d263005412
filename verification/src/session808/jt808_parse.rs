//! Stream framing for the device protocol: an incremental decoder that
//! carves marker-delimited, escaped frames out of an append-only byte
//! buffer, with discard-and-resynchronize recovery for corrupted or
//! overlong input.

use std::collections::HashMap;

use vstd::prelude::*;
use vstd::std_specs::vec::vec_index_mut;

use crate::jt808_codec::{
    build_frame, escape, frame_bytes, frame_raw, parse_frame, spec_parse_frame, try_unescape,
    unescape_bytes, vec_subrange, FrameView, Jt808, Jt808CodecError, MARKER,
};

verus! {

broadcast use vstd::std_specs::hash::group_hash_axioms;

/// No marker byte occurs at positions `from..to` of `b`.
pub open spec fn no_marker(b: Seq<u8>, from: int, to: int) -> bool {
    forall|k: int| from <= k < to ==> b[k] != MARKER
}

/// Decoding of one inter-marker span: unescape, then read the header.
pub open spec fn decode_span(span: Seq<u8>) -> Option<FrameView> {
    match try_unescape(span) {
        Some(raw) => spec_parse_frame(raw),
        None => None,
    }
}

/// `b` holds its first marker at `s`, a second marker at `e`, and the
/// span between them decodes to the frame `f`.
pub open spec fn frame_span_at(b: Seq<u8>, s: int, e: int, f: FrameView) -> bool {
    &&& 0 <= s && s + 10 < e && e < b.len()
    &&& b[s] == MARKER && b[e] == MARKER
    &&& no_marker(b, 0, s)
    &&& no_marker(b, s + 1, e)
    &&& decode_span(b.subrange(s + 1, e)) == Some(f)
}

/// The first marker-delimited span of `old_b` decodes to `f`, and the
/// buffer was consumed through the closing marker.
pub open spec fn frame_extracted(old_b: Seq<u8>, new_b: Seq<u8>, f: FrameView) -> bool {
    exists|s: int, e: int| #[trigger] frame_span_at(old_b, s, e, f) && new_b == old_b.skip(e + 1)
}

/// `b` holds its first marker at `s` and a second marker at `e`, but the
/// span between them is not a frame.
pub open spec fn bad_span_at(b: Seq<u8>, s: int, e: int) -> bool {
    &&& 0 <= s && s < e && e < b.len()
    &&& b[s] == MARKER && b[e] == MARKER
    &&& no_marker(b, 0, s)
    &&& no_marker(b, s + 1, e)
    &&& if e - s - 1 < 10 {
        true
    } else {
        decode_span(b.subrange(s + 1, e)) is None
    }
}

/// The first marker-delimited span of `old_b` was rejected: a too-short
/// span keeps its closing marker as the next start candidate, a span
/// that fails to decode is consumed whole.
pub open spec fn bad_frame_consumed(old_b: Seq<u8>, new_b: Seq<u8>) -> bool {
    exists|s: int, e: int|
        #[trigger] bad_span_at(old_b, s, e) && if e - s - 1 < 10 {
            new_b == old_b.skip(e)
        } else {
            new_b == old_b.skip(e + 1)
        }
}

/// Only a marker-free junk prefix was dropped from the buffer.
pub open spec fn only_junk_consumed(old_b: Seq<u8>, new_b: Seq<u8>) -> bool {
    exists|k: int|
        0 <= k <= old_b.len() && new_b == old_b.skip(k) && #[trigger] no_marker(old_b, 0, k)
}

/// Exhibits the witness for [`only_junk_consumed`].
proof fn lemma_only_junk_consumed(old_b: Seq<u8>, new_b: Seq<u8>, k: int)
    requires
        0 <= k <= old_b.len(),
        new_b == old_b.skip(k),
        no_marker(old_b, 0, k),
    ensures
        only_junk_consumed(old_b, new_b),
{
}

/// A serialized frame decodes back to itself: the wire image a builder
/// produces is marker-delimited, and the span between the markers
/// decodes — through the same function the stream decoder's contract
/// speaks of — to exactly the frame that was built.
pub proof fn lemma_frame_image_decodes(f: FrameView)
    requires
        f.body.len() <= 1023,
        f.sim < 0x1000000000000,
        match f.frag {
            Some((index, total)) => 1 <= index && index <= total,
            None => true,
        },
    ensures
        ({
            let img = frame_bytes(f);
            &&& img.len() >= 2
            &&& img[0] == MARKER
            &&& img[img.len() - 1] == MARKER
            &&& decode_span(img.subrange(1, img.len() - 1)) == Some(f)
        }),
{
    crate::jt808_codec::lemma_escape_round_trip(frame_raw(f));
    crate::jt808_codec::lemma_parse_frame_raw(f);
    let img = frame_bytes(f);
    assert(img.subrange(1, img.len() - 1) =~= escape(frame_raw(f)));
}

/// Incremental frame decoder over a growable byte buffer.  Callers
/// append newly received bytes to the buffer between calls; completed
/// frames are consumed out of its front and already-scanned bytes are
/// never rescanned.
pub struct Jt808Deserialize {
    /// First buffer index the next scan will examine.
    pub next_index: usize,
    /// Longest frame image accepted before the decoder starts discarding.
    pub max_length: usize,
    /// Discarding state: skip input until a marker resynchronizes us.
    pub is_discarding: bool,
    /// A start marker has been seen (it sits at buffer index zero).
    pub find_0x7e: bool,
}

impl Jt808Deserialize {
    /// The decoder state agrees with the buffer: the scanned prefix is
    /// marker-free, and a seen start marker sits at index zero.
    pub open spec fn wf_with(&self, b: Seq<u8>) -> bool {
        &&& self.max_length == 1024
        &&& self.next_index <= b.len()
        &&& self.next_index <= self.max_length + 1
        &&& if self.find_0x7e {
            &&& !self.is_discarding
            &&& 1 <= self.next_index
            &&& b.len() >= 1
            &&& b[0] == MARKER
            &&& no_marker(b, 1, self.next_index as int)
        } else {
            no_marker(b, 0, self.next_index as int)
        }
    }

    /// A fresh decoder, valid for any buffer.
    pub fn new() -> (r: Jt808Deserialize)
        ensures
            forall|b: Seq<u8>| r.wf_with(b),
            !r.is_discarding,
            !r.find_0x7e,
            r.next_index == 0,
    {
        Jt808Deserialize { next_index: 0, max_length: 1024, is_discarding: false, find_0x7e: false }
    }

    /// Extracts the next frame from the buffer, if a complete one has
    /// arrived.
    ///
    /// `Ok(Some(f))`: the first marker-delimited span of the buffer
    /// decoded to `f` and was consumed.  `Ok(None)`: every byte present
    /// has been scanned and no complete frame exists yet.  `Err`: either
    /// the accumulated input exceeded the maximum frame length (the
    /// decoder keeps the bytes and discards from them on later calls),
    /// or the first span was too short or failed to decode (the bad
    /// span is consumed).
    #[verifier::loop_isolation(false)]
    #[verifier::rlimit(60)]
    pub fn deserialize(&mut self, buf: &mut Vec<u8>) -> (r: Result<
        Option<Jt808>,
        Jt808CodecError,
    >)
        requires
            old(self).wf_with(old(buf)@),
        ensures
            final(self).wf_with(final(buf)@),
            final(self).max_length == old(self).max_length,
            match r {
                Ok(Some(jt)) => jt.wf() && frame_extracted(old(buf)@, final(buf)@, jt@)
                    && !final(self).is_discarding && !final(self).find_0x7e,
                Ok(None) => {
                    &&& final(self).next_index == final(buf)@.len()
                    &&& final(buf)@.len() <= old(self).max_length
                    &&& (final(self).is_discarding ==> final(buf)@.len() == 0)
                    &&& (!old(self).is_discarding ==> final(self).find_0x7e || final(buf)@
                        == old(buf)@)
                    &&& only_junk_consumed(old(buf)@, final(buf)@)
                },
                Err(Jt808CodecError::MaxLineLengthExceeded) => {
                    &&& final(self).is_discarding
                    &&& old(buf)@.len() > old(self).max_length
                    &&& final(buf)@.len() >= old(self).max_length
                    &&& exists|k: int|
                        0 <= k <= old(buf)@.len() && final(buf)@ == old(buf)@.skip(k)
                },
                Err(Jt808CodecError::No808) => bad_frame_consumed(old(buf)@, final(buf)@)
                    && final(self).find_0x7e == false,
            },
    {
        let ghost orig = old(buf)@;
        let ghost consumed: int = 0;
        loop
            invariant
                self.wf_with(buf@),
                self.max_length == old(self).max_length,
                0 <= consumed,
                consumed + buf@.len() == orig.len(),
                buf@ == orig.skip(consumed),
                no_marker(orig, 0, consumed),
                !old(self).is_discarding ==> !self.is_discarding && (self.find_0x7e || consumed
                    == 0),
            decreases buf@.len(), rank(self.is_discarding, self.find_0x7e),
        {
            let read_to: usize = if self.max_length + 1 < buf.len() {
                self.max_length + 1
            } else {
                buf.len()
            };
            match find_marker(buf, self.next_index, read_to) {
                Some(i) => {
                    if self.is_discarding {
                        proof {
                            lemma_skip_prefix_no_marker(orig, consumed, i as int);
                        }
                        let ghost pre = buf@;
                        vec_advance(buf, i);
                        proof {
                            consumed = consumed + i;
                            assert(buf@ =~= orig.skip(consumed));
                            assert(buf@[0] == pre[i as int]);
                        }
                        self.is_discarding = false;
                        self.find_0x7e = true;
                        self.next_index = 1;
                    } else if self.find_0x7e {
                        // `i` is the closing marker; the span starts
                        // after the start marker at index zero.
                        let ghost s = consumed;
                        let ghost e = consumed + i;
                        proof {
                            assert(orig[s] == orig.skip(consumed)[0]);
                            assert(orig[e] == orig.skip(consumed)[i as int]);
                            assert forall|k: int| s + 1 <= k < e implies orig[k] != MARKER by {
                                assert(orig[k] == orig.skip(consumed)[k - consumed]);
                            }
                            assert(no_marker(orig, s + 1, e));
                        }
                        self.find_0x7e = false;
                        if i < 11 {
                            // Too-short span: the closing marker becomes
                            // the next start candidate.
                            vec_advance(buf, i);
                            self.is_discarding = true;
                            self.next_index = 0;
                            proof {
                                assert(bad_span_at(orig, s, e));
                                assert(buf@ =~= orig.skip(e));
                            }
                            return Err(Jt808CodecError::No808);
                        }
                        let span = vec_subrange(buf, 1, i);
                        proof {
                            assert(span@ =~= orig.subrange(s + 1, e));
                        }
                        vec_advance(buf, i + 1);
                        self.next_index = 0;
                        proof {
                            assert(buf@ =~= orig.skip(e + 1));
                        }
                        match unescape_bytes(&span) {
                            None => {
                                proof {
                                    assert(bad_span_at(orig, s, e));
                                }
                                return Err(Jt808CodecError::No808);
                            },
                            Some(raw) => {
                                match parse_frame(&raw) {
                                    None => {
                                        proof {
                                            assert(bad_span_at(orig, s, e));
                                        }
                                        return Err(Jt808CodecError::No808);
                                    },
                                    Some(jt) => {
                                        proof {
                                            assert(frame_span_at(orig, s, e, jt@));
                                        }
                                        return Ok(Some(jt));
                                    },
                                }
                            },
                        }
                    } else {
                        // First marker since the last frame: it starts
                        // the next candidate; bytes before it are junk.
                        proof {
                            lemma_skip_prefix_no_marker(orig, consumed, i as int);
                        }
                        let ghost pre = buf@;
                        vec_advance(buf, i);
                        proof {
                            consumed = consumed + i;
                            assert(buf@ =~= orig.skip(consumed));
                            assert(buf@[0] == pre[i as int]);
                        }
                        self.find_0x7e = true;
                        self.next_index = 1;
                    }
                },
                None => {
                    if self.is_discarding {
                        proof {
                            lemma_skip_prefix_no_marker(orig, consumed, read_to as int);
                        }
                        vec_advance(buf, read_to);
                        proof {
                            consumed = consumed + read_to;
                            assert(buf@ =~= orig.skip(consumed));
                        }
                        self.next_index = 0;
                        if buf.len() == 0 {
                            proof {
                                lemma_only_junk_consumed(orig, buf@, consumed);
                            }
                            return Ok(None);
                        }
                    } else if buf.len() > self.max_length {
                        if self.find_0x7e {
                            // Drop the start marker of the overlong
                            // candidate so discarding can resume from a
                            // marker-free prefix.
                            vec_advance(buf, 1);
                            proof {
                                consumed = consumed + 1;
                                assert(buf@ =~= orig.skip(consumed));
                            }
                            self.find_0x7e = false;
                            self.next_index = read_to - 1;
                        } else {
                            self.next_index = read_to;
                        }
                        self.is_discarding = true;
                        proof {
                            assert(buf@ == orig.skip(consumed));
                        }
                        return Err(Jt808CodecError::MaxLineLengthExceeded);
                    } else {
                        self.next_index = read_to;
                        proof {
                            lemma_only_junk_consumed(orig, buf@, consumed);
                        }
                        return Ok(None);
                    }
                },
            }
        }
    }
}

/// Loop rank of the decoder's mode: discarding may pass through
/// start-marker-found before a frame completes or more input is needed.
pub open spec fn rank(is_discarding: bool, find_0x7e: bool) -> int {
    if is_discarding {
        2
    } else if !find_0x7e {
        1
    } else {
        0
    }
}

/// A marker-free prefix extends a marker-free region across a `skip`.
proof fn lemma_skip_prefix_no_marker(orig: Seq<u8>, consumed: int, n: int)
    requires
        0 <= consumed,
        consumed <= orig.len(),
        0 <= n <= orig.len() - consumed,
        no_marker(orig, 0, consumed),
        no_marker(orig.skip(consumed), 0, n),
    ensures
        no_marker(orig, 0, consumed + n),
{
    assert(forall|k: int|
        consumed <= k < consumed + n ==> orig[k] == orig.skip(consumed)[k - consumed]);
}

/// Scans `v[from..to]` for the marker byte.
pub fn find_marker(v: &Vec<u8>, from: usize, to: usize) -> (r: Option<usize>)
    requires
        from <= to <= v@.len(),
    ensures
        match r {
            Some(i) => from <= i < to && v@[i as int] == MARKER && no_marker(v@, from as int, i as int),
            None => no_marker(v@, from as int, to as int),
        },
{
    let mut i: usize = from;
    while i < to
        invariant
            from <= i <= to <= v@.len(),
            no_marker(v@, from as int, i as int),
        decreases to - i,
    {
        if v[i] == MARKER {
            return Some(i);
        }
        i = i + 1;
    }
    None
}

/// Removes the first `n` bytes of a vector.
pub fn vec_advance(v: &mut Vec<u8>, n: usize)
    requires
        n <= old(v)@.len(),
    ensures
        final(v)@ == old(v)@.skip(n as int),
{
    let tail = vec_subrange(v, n, v.len());
    proof {
        assert(tail@ =~= v@.skip(n as int));
    }
    *v = tail;
}

/// Every slot of a fragment group is filled.
pub open spec fn spec_all_filled(s: Seq<Option<Jt808>>) -> bool {
    forall|k: int| 0 <= k < s.len() ==> s[k] is Some
}

/// The sequence number the first fragment of this message carried:
/// fragments of one message have consecutive sequence numbers, so it is
/// recovered from any fragment regardless of arrival order.
pub open spec fn spec_first_sn(sn: u16, index: u16) -> u16 {
    (((sn as int) + 0x10000 - ((index as int) - 1)) % 0x10000) as u16
}

/// Computes [`spec_first_sn`].
pub fn first_sn_of(sn: u16, index: u16) -> (r: u16)
    requires
        index >= 1,
    ensures
        r == spec_first_sn(sn, index),
{
    let wide: u32 = (sn as u32) + 0x10000 - ((index as u32) - 1);
    (wide % 0x10000) as u16
}

/// One logical message under reassembly: slot `k` holds the fragment
/// with one-based index `k + 1`.  A message that was never fragmented is
/// a group of one slot, complete on creation.
pub struct JtSubMerger {
    pub first_sn: u16,
    pub total: u16,
    pub frags: Vec<Option<Jt808>>,
}

impl JtSubMerger {
    /// One slot per expected fragment; every held fragment is a
    /// well-formed frame.
    pub open spec fn wf(&self) -> bool {
        &&& self.frags@.len() == self.total as int
        &&& self.total >= 1
        &&& forall|k: int|
            0 <= k < self.frags@.len() && self.frags@[k] is Some ==> self.frags@[k]->0.wf()
    }

    /// A fresh group seeded with one fragment.  An unfragmented message
    /// makes a single-slot group holding it.
    pub fn add_new(first_sn: u16, jt: Jt808) -> (r: JtSubMerger)
        requires
            jt.wf(),
        ensures
            r.wf(),
            r.first_sn == first_sn,
            match (jt.package_index, jt.package_total) {
                (Some(index), Some(total)) => r.total == total && r.frags@ == Seq::new(
                    total as nat,
                    |k: int| None::<Jt808>,
                ).update(index - 1, Some(jt)),
                _ => r.total == 1 && r.frags@ == seq![Some(jt)],
            },
    {
        match (jt.package_index, jt.package_total) {
            (Some(index), Some(total)) => {
                let mut frags: Vec<Option<Jt808>> = Vec::new();
                let mut k: usize = 0;
                while k < total as usize
                    invariant
                        k <= total as usize,
                        frags@ =~= Seq::new(k as nat, |j: int| None::<Jt808>),
                    decreases total as usize - k,
                {
                    frags.push(None);
                    proof {
                        assert(frags@ =~= Seq::new((k + 1) as nat, |j: int| None::<Jt808>));
                    }
                    k = k + 1;
                }
                let mut r = JtSubMerger { first_sn, total, frags };
                let idx = (index - 1) as usize;
                *vec_index_mut(&mut r.frags, idx) = Some(jt);
                r
            },
            _ => {
                let mut frags: Vec<Option<Jt808>> = Vec::new();
                frags.push(Some(jt));
                JtSubMerger { first_sn, total: 1, frags }
            },
        }
    }

    /// Stores one more fragment of this group into its slot; a fragment
    /// delivered twice overwrites its earlier copy.
    pub fn add(&mut self, jt: Jt808)
        requires
            old(self).wf(),
            jt.wf(),
            jt.package_total == Some(old(self).total),
            jt.package_index is Some,
            1 <= jt.package_index->0 <= old(self).total,
        ensures
            final(self).wf(),
            final(self).first_sn == old(self).first_sn,
            final(self).total == old(self).total,
            final(self).frags@ == old(self).frags@.update(
                jt.package_index->0 - 1,
                Some(jt),
            ),
    {
        let idx: usize = match jt.package_index {
            Some(index) => (index - 1) as usize,
            None => 0,
        };
        *vec_index_mut(&mut self.frags, idx) = Some(jt);
    }

    /// Whether every fragment has arrived.
    pub fn check_pack(&self) -> (r: bool)
        ensures
            r == spec_all_filled(self.frags@),
    {
        let mut k: usize = 0;
        while k < self.frags.len()
            invariant
                k <= self.frags@.len(),
                forall|j: int| 0 <= j < k ==> self.frags@[j] is Some,
            decreases self.frags@.len() - k,
        {
            if self.frags[k].is_none() {
                return false;
            }
            k = k + 1;
        }
        true
    }

    /// The fragment in the first slot, carrying the header fields shared
    /// by the whole message.
    pub fn get_first_jt(&self) -> (r: Option<&Jt808>)
        requires
            self.wf(),
        ensures
            match r {
                Some(jt) => self.frags@[0] == Some(*jt),
                None => self.frags@[0] is None,
            },
    {
        match &self.frags[0] {
            Some(jt) => Some(jt),
            None => None,
        }
    }

    /// The bodies of all fragments joined in index order.
    pub open spec fn spec_merged_body(frags: Seq<Option<Jt808>>) -> Seq<u8>
        decreases frags.len(),
    {
        if frags.len() == 0 {
            Seq::empty()
        } else {
            Self::spec_merged_body(frags.drop_last()) + (match frags.last() {
                Some(jt) => jt.body@,
                None => Seq::empty(),
            })
        }
    }

    /// Joins the bodies of a complete group in index order.
    pub fn merged_body(&self) -> (r: Vec<u8>)
        requires
            self.wf(),
        ensures
            r@ == Self::spec_merged_body(self.frags@),
    {
        let mut out: Vec<u8> = Vec::new();
        let mut k: usize = 0;
        while k < self.frags.len()
            invariant
                k <= self.frags@.len(),
                out@ == Self::spec_merged_body(self.frags@.take(k as int)),
            decreases self.frags@.len() - k,
        {
            let ghost pre = out@;
            match &self.frags[k] {
                Some(jt) => {
                    let mut j: usize = 0;
                    while j < jt.body.len()
                        invariant
                            j <= jt.body@.len(),
                            out@ == pre + jt.body@.take(j as int),
                        decreases jt.body@.len() - j,
                    {
                        out.push(jt.body[j]);
                        proof {
                            assert(pre + jt.body@.take(j as int + 1) =~= out@);
                        }
                        j = j + 1;
                    }
                    proof {
                        assert(jt.body@.take(jt.body@.len() as int) =~= jt.body@);
                    }
                },
                None => {},
            }
            proof {
                let p = self.frags@.take(k as int + 1);
                assert(p.drop_last() =~= self.frags@.take(k as int));
                assert(p.last() == self.frags@[k as int]);
                if self.frags@[k as int] is None {
                    assert(pre + Seq::<u8>::empty() =~= pre);
                }
            }
            k = k + 1;
        }
        proof {
            assert(self.frags@.take(self.frags@.len() as int) =~= self.frags@);
        }
        out
    }

    /// The wire images of all fragments of a complete group, in index
    /// order; `None` while fragments are missing.
    pub fn end(&self) -> (r: Option<Vec<Vec<u8>>>)
        requires
            self.wf(),
        ensures
            match r {
                Some(frames) => spec_all_filled(self.frags@) && frames@.len()
                    == self.frags@.len() && forall|k: int|
                    0 <= k < frames@.len() ==> frames@[k]@ == frame_bytes(self.frags@[k]->0@),
                None => !spec_all_filled(self.frags@),
            },
    {
        if !self.check_pack() {
            return None;
        }
        let mut frames: Vec<Vec<u8>> = Vec::new();
        let mut k: usize = 0;
        while k < self.frags.len()
            invariant
                self.wf(),
                spec_all_filled(self.frags@),
                k <= self.frags@.len(),
                frames@.len() == k,
                forall|j: int| 0 <= j < k ==> frames@[j]@ == frame_bytes(self.frags@[j]->0@),
            decreases self.frags@.len() - k,
        {
            match &self.frags[k] {
                Some(jt) => {
                    let frag = match (jt.package_index, jt.package_total) {
                        (Some(index), Some(total)) => Some((index, total)),
                        _ => None,
                    };
                    let frame = build_frame(jt.id, jt.sim, jt.sn, frag, &jt.body);
                    frames.push(frame);
                },
                None => {
                    // Unreachable: the group was checked complete.
                    return None;
                },
            }
            k = k + 1;
        }
        Some(frames)
    }
}

/// Slots at distinct indices can be filled in either order: fragment
/// reassembly is order-independent, a group's state depends only on
/// which fragments have arrived.
pub proof fn lemma_reassembly_order_independent(
    frags: Seq<Option<Jt808>>,
    a: Jt808,
    b: Jt808,
    ia: int,
    ib: int,
)
    requires
        0 <= ia < frags.len(),
        0 <= ib < frags.len(),
        ia != ib,
    ensures
        frags.update(ia, Some(a)).update(ib, Some(b)) == frags.update(ib, Some(b)).update(
            ia,
            Some(a),
        ),
{
    assert(frags.update(ia, Some(a)).update(ib, Some(b)) =~= frags.update(ib, Some(b)).update(
        ia,
        Some(a),
    ));
}

/// One reassembly step: how feeding the frame `jt` takes the pending
/// group table from `m0` to `m1` and what it yields.  An unfragmented
/// frame completes immediately as a one-slot group and the table is
/// untouched.  A fragment joins the pending group recovered from its
/// first-fragment sequence number (creating it if absent); when the
/// group fills, it is removed from the table and returned.  A fragment
/// whose `total` contradicts the pending group it keys to is dropped.
pub open spec fn reassembly_rel(
    m0: Map<u64, JtSubMerger>,
    m1: Map<u64, JtSubMerger>,
    jt: Jt808,
    r: Option<JtSubMerger>,
) -> bool {
    match (jt.package_index, jt.package_total) {
        (Some(index), Some(total)) => {
            let key = spec_first_sn(jt.sn, index) as u64;
            if m0.contains_key(key) {
                let g = m0[key];
                if g.total != total {
                    r is None && m1 == m0
                } else {
                    let filled = g.frags@.update(index - 1, Some(jt));
                    if spec_all_filled(filled) {
                        match r {
                            Some(done) => {
                                &&& done.first_sn == g.first_sn
                                &&& done.total == g.total
                                &&& done.frags@ == filled
                                &&& m1 == m0.remove(key)
                            },
                            None => false,
                        }
                    } else {
                        &&& r is None
                        &&& m1.contains_key(key)
                        &&& m1[key].frags@ == filled
                        &&& m1[key].total == g.total
                        &&& m1[key].first_sn == g.first_sn
                        &&& m1 == m0.insert(key, m1[key])
                    }
                }
            } else {
                let seeded = Seq::new(total as nat, |k: int| None::<Jt808>).update(
                    index - 1,
                    Some(jt),
                );
                if spec_all_filled(seeded) {
                    match r {
                        Some(done) => done.total == total && done.frags@ == seeded && m1 == m0,
                        None => false,
                    }
                } else {
                    &&& r is None
                    &&& m1.contains_key(key)
                    &&& m1[key].frags@ == seeded
                    &&& m1 == m0.insert(key, m1[key])
                }
            }
        },
        _ => {
            match r {
                Some(done) => done.total == 1 && done.frags@ == seq![Some(jt)] && done.first_sn
                    == jt.sn && m1 == m0,
                None => false,
            }
        },
    }
}

/// Pending fragment groups of one connection, keyed by the sequence
/// number the first fragment of each message carried.
pub struct Jt808PackUp {
    pub all_packdata: HashMap<u64, JtSubMerger>,
}

impl Jt808PackUp {
    /// Every pending group is well-formed and keyed consistently.
    pub open spec fn wf(&self) -> bool {
        forall|k: u64|
            self.all_packdata@.contains_key(k) ==> (#[trigger] self.all_packdata@[k]).wf()
                && self.all_packdata@[k].first_sn as u64 == k
    }

    /// An empty pending-group table.
    pub fn new() -> (r: Jt808PackUp)
        ensures
            r.wf(),
            r.all_packdata@ == Map::<u64, JtSubMerger>::empty(),
    {
        Jt808PackUp { all_packdata: HashMap::new() }
    }

    /// Feeds one frame into reassembly.
    ///
    /// An unfragmented frame completes immediately as a one-slot group
    /// and the table is untouched.  A fragment joins the pending group
    /// recovered from its first-fragment sequence number (creating it if
    /// absent); when the group fills, it is removed from the table and
    /// returned.  A fragment whose `total` contradicts the pending group
    /// it keys to is dropped.
    #[verifier::rlimit(60)]
    pub fn get_sub_merger(&mut self, jt: Jt808) -> (r: Option<JtSubMerger>)
        requires
            old(self).wf(),
            jt.wf(),
        ensures
            final(self).wf(),
            reassembly_rel(old(self).all_packdata@, final(self).all_packdata@, jt, r),
    {
        let fragmented: bool = jt.package_index.is_some() && jt.package_total.is_some();
        if fragmented {
            let index = match jt.package_index {
                Some(index) => index,
                None => 1,
            };
            let total = match jt.package_total {
                Some(total) => total,
                None => 1,
            };
            let fs = first_sn_of(jt.sn, index);
            let key: u64 = fs as u64;
            match self.all_packdata.remove(&key) {
                Some(mut g) => {
                    if g.total != total {
                        // Conflicting group: keep it, drop the fragment.
                        let ghost pre = self.all_packdata@;
                        self.all_packdata.insert(key, g);
                        proof {
                            assert(self.all_packdata@ =~= old(self).all_packdata@);
                        }
                        None
                    } else {
                        g.add(jt);
                        if g.check_pack() {
                            Some(g)
                        } else {
                            self.all_packdata.insert(key, g);
                            proof {
                                let t = self.all_packdata@;
                                assert(t =~= old(self).all_packdata@.insert(key, t[key]));
                            }
                            None
                        }
                    }
                },
                None => {
                    let g = JtSubMerger::add_new(fs, jt);
                    if g.check_pack() {
                        proof {
                            assert(self.all_packdata@ =~= old(self).all_packdata@);
                        }
                        Some(g)
                    } else {
                        self.all_packdata.insert(key, g);
                        proof {
                            let t = self.all_packdata@;
                            assert(t =~= old(self).all_packdata@.insert(key, t[key]));
                        }
                        None
                    }
                },
            }
        } else {
            Some(JtSubMerger::add_new(jt.sn, jt))
        }
    }
}

/// The framer and the reassembler of one connection, chained: bytes in,
/// complete logical messages out.
pub struct Jt808DeserializeAndPackUp {
    pub jt808_deserialize: Jt808Deserialize,
    pub jt808_packup: Jt808PackUp,
}

impl Jt808DeserializeAndPackUp {
    /// Both stages fresh.
    pub fn new() -> (r: Jt808DeserializeAndPackUp)
        ensures
            forall|b: Seq<u8>| r.jt808_deserialize.wf_with(b),
            r.jt808_packup.wf(),
    {
        Jt808DeserializeAndPackUp {
            jt808_deserialize: Jt808Deserialize::new(),
            jt808_packup: Jt808PackUp::new(),
        }
    }

    /// Pulls the next frame out of the buffer and feeds it to
    /// reassembly; yields a group exactly when a message completed.
    ///
    /// `Ok(Some(g))`: the first frame of the buffer was extracted and,
    /// through one [`reassembly_rel`] step, completed the message `g`.
    /// `Ok(None)`: either every byte present was scanned and nothing was
    /// consumed but a marker-free junk prefix, or an extracted fragment
    /// joined a pending group without completing it.  Framing errors
    /// pass through with the frame decoder's own consumption.
    pub fn deserialize(&mut self, buf: &mut Vec<u8>) -> (r: Result<
        Option<JtSubMerger>,
        Jt808CodecError,
    >)
        requires
            old(self).jt808_deserialize.wf_with(old(buf)@),
            old(self).jt808_packup.wf(),
        ensures
            final(self).jt808_deserialize.wf_with(final(buf)@),
            final(self).jt808_packup.wf(),
            final(self).jt808_deserialize.max_length == old(self).jt808_deserialize.max_length,
            match r {
                Ok(Some(g)) => g.wf() && spec_all_filled(g.frags@) && (exists|jt: Jt808|
                    #[trigger] frame_extracted(old(buf)@, final(buf)@, jt@) && jt.wf()
                        && reassembly_rel(
                        old(self).jt808_packup.all_packdata@,
                        final(self).jt808_packup.all_packdata@,
                        jt,
                        Some(g),
                    )),
                Ok(None) => {
                    ||| {
                        &&& only_junk_consumed(old(buf)@, final(buf)@)
                        &&& final(self).jt808_packup.all_packdata@
                            == old(self).jt808_packup.all_packdata@
                        &&& final(self).jt808_deserialize.next_index == final(buf)@.len()
                        &&& final(buf)@.len() <= old(self).jt808_deserialize.max_length
                        &&& (final(self).jt808_deserialize.is_discarding ==> final(buf)@.len()
                            == 0)
                        &&& (!old(self).jt808_deserialize.is_discarding
                            ==> final(self).jt808_deserialize.find_0x7e || final(buf)@ == old(buf)@)
                    }
                    ||| (exists|jt: Jt808|
                        #[trigger] frame_extracted(old(buf)@, final(buf)@, jt@) && jt.wf()
                            && reassembly_rel(
                            old(self).jt808_packup.all_packdata@,
                            final(self).jt808_packup.all_packdata@,
                            jt,
                            None,
                        ))
                },
                Err(Jt808CodecError::MaxLineLengthExceeded) => {
                    &&& final(self).jt808_deserialize.is_discarding
                    &&& old(buf)@.len() > old(self).jt808_deserialize.max_length
                    &&& final(buf)@.len() >= old(self).jt808_deserialize.max_length
                    &&& final(self).jt808_packup.all_packdata@
                        == old(self).jt808_packup.all_packdata@
                    &&& exists|k: int|
                        0 <= k <= old(buf)@.len() && final(buf)@ == old(buf)@.skip(k)
                },
                Err(Jt808CodecError::No808) => {
                    &&& bad_frame_consumed(old(buf)@, final(buf)@)
                    &&& final(self).jt808_packup.all_packdata@
                        == old(self).jt808_packup.all_packdata@
                },
            },
    {
        match self.jt808_deserialize.deserialize(buf) {
            Ok(package) => {
                match package {
                    None => Ok(None),
                    Some(jt808) => {
                        let ghost jtg = jt808;
                        let merged = self.jt808_packup.get_sub_merger(jt808);
                        proof {
                            assert(frame_extracted(old(buf)@, buf@, jtg@) && jtg.wf()
                                && reassembly_rel(
                                old(self).jt808_packup.all_packdata@,
                                self.jt808_packup.all_packdata@,
                                jtg,
                                merged,
                            ));
                        }
                        match merged {
                            Some(g) => Ok(Some(g)),
                            None => Ok(None),
                        }
                    },
                }
            },
            Err(err) => Err(err),
        }
    }
}

} // verus!
