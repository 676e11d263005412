//! Byte-level codec for the JT/T 808 wire format: the escape scheme that
//! keeps the frame marker byte out of frame interiors, the XOR checksum,
//! and big-endian field encodings shared by the frame parser and builder.

use vstd::prelude::*;

verus! {

/// Frame delimiter byte; appears only at the two ends of a frame.
pub const MARKER: u8 = 0x7e;

/// Escape lead byte; starts every two-byte escape pair inside a frame.
pub const ESCAPE_LEAD: u8 = 0x7d;

/// Escaping of a single byte: 0x7d becomes `7d 01`, 0x7e becomes `7d 02`,
/// every other byte stands for itself.
pub open spec fn escape_byte(b: u8) -> Seq<u8> {
    if b == ESCAPE_LEAD {
        seq![ESCAPE_LEAD, 0x01u8]
    } else if b == MARKER {
        seq![ESCAPE_LEAD, 0x02u8]
    } else {
        seq![b]
    }
}

/// Escaping of a byte sequence, byte by byte.
pub open spec fn escape(s: Seq<u8>) -> Seq<u8>
    decreases s.len(),
{
    if s.len() == 0 {
        Seq::empty()
    } else {
        escape_byte(s[0]) + escape(s.skip(1))
    }
}

/// Removal of escape pairs.  `None` when an escape lead is followed by
/// anything but 0x01 or 0x02, or ends the input.
pub open spec fn try_unescape(s: Seq<u8>) -> Option<Seq<u8>>
    decreases s.len(),
{
    if s.len() == 0 {
        Some(Seq::empty())
    } else if s[0] == ESCAPE_LEAD {
        if s.len() >= 2 && (s[1] == 0x01u8 || s[1] == 0x02u8) {
            let unescaped: u8 = if s[1] == 0x01u8 {
                ESCAPE_LEAD
            } else {
                MARKER
            };
            match try_unescape(s.skip(2)) {
                Some(rest) => Some(seq![unescaped] + rest),
                None => None,
            }
        } else {
            None
        }
    } else {
        match try_unescape(s.skip(1)) {
            Some(rest) => Some(seq![s[0]] + rest),
            None => None,
        }
    }
}

/// Escaping then unescaping any byte sequence gives the sequence back.
pub proof fn lemma_escape_round_trip(s: Seq<u8>)
    ensures
        try_unescape(escape(s)) == Some(s),
    decreases s.len(),
{
    if s.len() == 0 {
        assert(escape(s) == Seq::<u8>::empty());
        assert(s =~= Seq::<u8>::empty());
    } else {
        lemma_escape_round_trip(s.skip(1));
        let e = escape(s);
        let head = escape_byte(s[0]);
        let tail = escape(s.skip(1));
        assert(e == head + tail);
        if s[0] == ESCAPE_LEAD || s[0] == MARKER {
            assert(head.len() == 2);
            assert(e[0] == ESCAPE_LEAD && e.len() >= 2);
            assert(e[1] == (if s[0] == ESCAPE_LEAD { 0x01u8 } else { 0x02u8 }));
            assert(e.skip(2) =~= tail);
            assert(seq![s[0]] + s.skip(1) =~= s);
        } else {
            assert(head.len() == 1);
            assert(e[0] == s[0]);
            assert(e.skip(1) =~= tail);
            assert(seq![s[0]] + s.skip(1) =~= s);
        }
    }
}

/// XOR of all bytes of a sequence; the protocol's frame checksum.
pub open spec fn xor_sum(s: Seq<u8>) -> u8
    decreases s.len(),
{
    if s.len() == 0 {
        0u8
    } else {
        xor_sum(s.drop_last()) ^ s.last()
    }
}

/// Big-endian 16-bit value of two bytes.
pub open spec fn be16(hi: u8, lo: u8) -> u16 {
    ((hi as int) * 256 + (lo as int)) as u16
}

/// High byte of a big-endian 16-bit value.
pub open spec fn u16_hi(v: u16) -> u8 {
    (v / 256) as u8
}

/// Low byte of a big-endian 16-bit value.
pub open spec fn u16_lo(v: u16) -> u8 {
    (v % 256) as u8
}

/// The two big-endian bytes of a 16-bit value.
pub open spec fn u16_bytes(v: u16) -> Seq<u8> {
    seq![u16_hi(v), u16_lo(v)]
}

/// Applies [`escape`] to a byte vector.
pub fn escape_bytes(src: &Vec<u8>) -> (r: Vec<u8>)
    ensures
        r@ == escape(src@),
{
    let mut out: Vec<u8> = Vec::new();
    let mut i: usize = 0;
    proof {
        assert(src@.skip(0) =~= src@);
        assert(out@ + escape(src@) =~= escape(src@));
    }
    while i < src.len()
        invariant
            i <= src.len(),
            escape(src@) == out@ + escape(src@.skip(i as int)),
        decreases src.len() - i,
    {
        let b = src[i];
        proof {
            let rest = src@.skip(i as int);
            assert(rest[0] == src@[i as int]);
            assert(rest.skip(1) =~= src@.skip(i as int + 1));
            assert(escape(rest) == escape_byte(b) + escape(src@.skip(i as int + 1)));
        }
        if b == ESCAPE_LEAD {
            out.push(ESCAPE_LEAD);
            out.push(0x01u8);
        } else if b == MARKER {
            out.push(ESCAPE_LEAD);
            out.push(0x02u8);
        } else {
            out.push(b);
        }
        proof {
            assert(out@ + escape(src@.skip(i as int + 1)) =~= escape(src@));
        }
        i = i + 1;
    }
    proof {
        assert(src@.skip(src@.len() as int) =~= Seq::<u8>::empty());
        assert(out@ =~= escape(src@));
    }
    out
}

/// Applies [`try_unescape`] to a byte vector.
pub fn unescape_bytes(src: &Vec<u8>) -> (r: Option<Vec<u8>>)
    ensures
        match r {
            Some(out) => try_unescape(src@) == Some(out@),
            None => try_unescape(src@) is None,
        },
{
    let mut out: Vec<u8> = Vec::new();
    let mut i: usize = 0;
    proof {
        assert(src@.skip(0) =~= src@);
        match try_unescape(src@) {
            Some(rest) => {
                assert(out@ + rest =~= rest);
            },
            None => {},
        }
    }
    while i < src.len()
        invariant
            i <= src.len(),
            match try_unescape(src@.skip(i as int)) {
                Some(rest) => try_unescape(src@) == Some(out@ + rest),
                None => try_unescape(src@) is None,
            },
        decreases src.len() - i,
    {
        let b = src[i];
        proof {
            let rest = src@.skip(i as int);
            assert(rest[0] == src@[i as int]);
            assert(rest.skip(1) =~= src@.skip(i as int + 1));
            if i + 2 <= src.len() {
                assert(rest.skip(2) =~= src@.skip(i as int + 2));
                assert(rest[1] == src@[i as int + 1]);
            }
        }
        if b == ESCAPE_LEAD {
            if i + 1 < src.len() && (src[i + 1] == 0x01u8 || src[i + 1] == 0x02u8) {
                let unescaped: u8 = if src[i + 1] == 0x01u8 {
                    ESCAPE_LEAD
                } else {
                    MARKER
                };
                let ghost pre = out@;
                out.push(unescaped);
                proof {
                    match try_unescape(src@.skip(i as int + 2)) {
                        Some(tail) => {
                            assert(try_unescape(src@.skip(i as int)) == Some(
                                seq![unescaped] + tail,
                            ));
                            assert(pre + (seq![unescaped] + tail) =~= out@ + tail);
                        },
                        None => {},
                    }
                }
                i = i + 2;
            } else {
                return None;
            }
        } else {
            let ghost pre = out@;
            out.push(b);
            proof {
                match try_unescape(src@.skip(i as int + 1)) {
                    Some(tail) => {
                        assert(try_unescape(src@.skip(i as int)) == Some(seq![b] + tail));
                        assert(pre + (seq![b] + tail) =~= out@ + tail);
                    },
                    None => {},
                }
            }
            i = i + 1;
        }
    }
    proof {
        assert(src@.skip(src@.len() as int) =~= Seq::<u8>::empty());
        assert(out@ + Seq::<u8>::empty() =~= out@);
    }
    Some(out)
}

/// Computes [`xor_sum`] of a byte vector.
pub fn xor_sum_bytes(src: &Vec<u8>) -> (r: u8)
    ensures
        r == xor_sum(src@),
{
    let mut acc: u8 = 0;
    let mut i: usize = 0;
    while i < src.len()
        invariant
            i <= src.len(),
            acc == xor_sum(src@.take(i as int)),
        decreases src.len() - i,
    {
        proof {
            let p = src@.take(i as int + 1);
            assert(p.drop_last() =~= src@.take(i as int));
            assert(p.last() == src@[i as int]);
        }
        acc = acc ^ src[i];
        i = i + 1;
    }
    proof {
        assert(src@.take(src@.len() as int) =~= src@);
    }
    acc
}

/// Error of the frame decoder.
#[derive(Clone, Copy, Debug, PartialEq, Eq, Structural)]
pub enum Jt808CodecError {
    /// The stream is not aligned on a well-formed frame: an inter-marker
    /// span was too short, an escape pair was malformed, or the header
    /// could not be read.
    No808,
    /// More than the configured maximum of bytes arrived without a
    /// complete frame; the decoder discards until the next marker.
    MaxLineLengthExceeded,
}

/// Mathematical model of one protocol frame: message id, device
/// identifier (the numeric value of its six big-endian bytes), sequence
/// number, the optional `(index, total)` fragmentation pair, and the
/// opaque body bytes.
pub struct FrameView {
    pub id: u16,
    pub sim: u64,
    pub sn: u16,
    pub frag: Option<(u16, u16)>,
    pub body: Seq<u8>,
}

/// Value of six bytes read as one big-endian 48-bit integer.
pub open spec fn be48(b: Seq<u8>) -> u64 {
    ((b[0] as int) * 1099511627776 + (b[1] as int) * 4294967296 + (b[2] as int) * 16777216 + (
    b[3] as int) * 65536 + (b[4] as int) * 256 + (b[5] as int)) as u64
}

/// The six big-endian bytes of a 48-bit value.
pub open spec fn sim_bytes(v: u64) -> Seq<u8> {
    seq![
        ((v / 1099511627776) % 256) as u8,
        ((v / 4294967296) % 256) as u8,
        ((v / 16777216) % 256) as u8,
        ((v / 65536) % 256) as u8,
        ((v / 256) % 256) as u8,
        (v % 256) as u8,
    ]
}

/// The property word of a frame header: low bits carry the body length,
/// bit 13 flags the presence of the fragmentation fields.
pub open spec fn props_of(frag: Option<(u16, u16)>, body_len: int) -> u16 {
    (body_len + if frag is Some {
        0x2000int
    } else {
        0int
    }) as u16
}

/// The header bytes of a frame: id, properties, device identifier,
/// sequence number, and the fragmentation pair when present.
pub open spec fn header_bytes(f: FrameView) -> Seq<u8> {
    u16_bytes(f.id) + u16_bytes(props_of(f.frag, f.body.len() as int)) + sim_bytes(f.sim)
        + u16_bytes(f.sn) + (match f.frag {
        Some((index, total)) => u16_bytes(index) + u16_bytes(total),
        None => Seq::empty(),
    })
}

/// The unescaped content of a frame: header, body, and XOR checksum.
pub open spec fn frame_raw(f: FrameView) -> Seq<u8> {
    let hb = header_bytes(f) + f.body;
    hb + seq![xor_sum(hb)]
}

/// The complete wire image of a frame: marker, escaped content, marker.
pub open spec fn frame_bytes(f: FrameView) -> Seq<u8> {
    seq![MARKER] + escape(frame_raw(f)) + seq![MARKER]
}

/// Reading a frame header back out of unescaped frame content.  `None`
/// when the content is shorter than a header and checksum, or the
/// fragmentation fields are nonsensical (a zero or out-of-range index).
pub open spec fn spec_parse_frame(raw: Seq<u8>) -> Option<FrameView> {
    if raw.len() < 13 {
        None
    } else {
        let id = be16(raw[0], raw[1]);
        let props = be16(raw[2], raw[3]);
        let sim = be48(raw.subrange(4, 10));
        let sn = be16(raw[10], raw[11]);
        if props & 0x2000 != 0 {
            if raw.len() < 17 {
                None
            } else {
                let index = be16(raw[12], raw[13]);
                let total = be16(raw[14], raw[15]);
                if index == 0 || total == 0 || index > total || raw.len() > 17 + 1023 {
                    None
                } else {
                    Some(
                        FrameView {
                            id,
                            sim,
                            sn,
                            frag: Some((index, total)),
                            body: raw.subrange(16, raw.len() - 1),
                        },
                    )
                }
            }
        } else {
            if raw.len() > 13 + 1023 {
                None
            } else {
                Some(FrameView { id, sim, sn, frag: None, body: raw.subrange(12, raw.len() - 1) })
            }
        }
    }
}

/// One parsed protocol frame.
pub struct Jt808 {
    pub id: u16,
    pub sim: u64,
    pub sn: u16,
    pub package_index: Option<u16>,
    pub package_total: Option<u16>,
    pub body: Vec<u8>,
}

impl View for Jt808 {
    type V = FrameView;

    open spec fn view(&self) -> FrameView {
        FrameView {
            id: self.id,
            sim: self.sim,
            sn: self.sn,
            frag: match (self.package_index, self.package_total) {
                (Some(index), Some(total)) => Some((index, total)),
                _ => None,
            },
            body: self.body@,
        }
    }
}

impl Jt808 {
    /// Well-formedness: the fragmentation fields come in pairs with a
    /// one-based in-range index, the identifier fits six bytes, and the
    /// body respects the protocol's length field.
    pub open spec fn wf(&self) -> bool {
        &&& (self.package_index is Some <==> self.package_total is Some)
        &&& match (self.package_index, self.package_total) {
            (Some(index), Some(total)) => 1 <= index && index <= total,
            _ => true,
        }
        &&& self.sim < 0x1000000000000
        &&& self.body@.len() <= 1023
    }
}

/// Parses unescaped frame content into a frame, mirroring
/// [`spec_parse_frame`].
pub fn parse_frame(raw: &Vec<u8>) -> (r: Option<Jt808>)
    ensures
        match r {
            Some(jt) => spec_parse_frame(raw@) == Some(jt@) && jt.wf(),
            None => spec_parse_frame(raw@) is None,
        },
{
    if raw.len() < 13 {
        return None;
    }
    let id = be16_read(raw[0], raw[1]);
    let props = be16_read(raw[2], raw[3]);
    let sim = ((raw[4] as u64) * 1099511627776) + ((raw[5] as u64) * 4294967296) + ((
    raw[6] as u64) * 16777216) + ((raw[7] as u64) * 65536) + ((raw[8] as u64) * 256) + (
    raw[9] as u64);
    let sn = be16_read(raw[10], raw[11]);
    proof {
        assert(raw@.subrange(4, 10)[0] == raw@[4]);
        assert(raw@.subrange(4, 10)[1] == raw@[5]);
        assert(raw@.subrange(4, 10)[2] == raw@[6]);
        assert(raw@.subrange(4, 10)[3] == raw@[7]);
        assert(raw@.subrange(4, 10)[4] == raw@[8]);
        assert(raw@.subrange(4, 10)[5] == raw@[9]);
    }
    if props & 0x2000 != 0 {
        if raw.len() < 17 {
            return None;
        }
        let index = be16_read(raw[12], raw[13]);
        let total = be16_read(raw[14], raw[15]);
        if index == 0 || total == 0 || index > total || raw.len() > 17 + 1023 {
            return None;
        }
        let body = vec_subrange(raw, 16, raw.len() - 1);
        Some(
            Jt808 {
                id,
                sim,
                sn,
                package_index: Some(index),
                package_total: Some(total),
                body,
            },
        )
    } else {
        if raw.len() > 13 + 1023 {
            return None;
        }
        let body = vec_subrange(raw, 12, raw.len() - 1);
        Some(Jt808 { id, sim, sn, package_index: None, package_total: None, body })
    }
}

/// Builds the complete wire image of a frame, mirroring [`frame_bytes`].
pub fn build_frame(id: u16, sim: u64, sn: u16, frag: Option<(u16, u16)>, body: &Vec<u8>) -> (r:
    Vec<u8>)
    requires
        body@.len() <= 1023,
        sim < 0x1000000000000,
    ensures
        r@ == frame_bytes(FrameView { id, sim, sn, frag, body: body@ }),
{
    let ghost f = FrameView { id, sim, sn, frag, body: body@ };
    let mut raw: Vec<u8> = Vec::new();
    raw.push((id / 256) as u8);
    raw.push((id % 256) as u8);
    let props: u16 = (body.len() as u16) + (match frag {
        Some(_) => 0x2000u16,
        None => 0u16,
    });
    raw.push((props / 256) as u8);
    raw.push((props % 256) as u8);
    raw.push(((sim / 1099511627776) % 256) as u8);
    raw.push(((sim / 4294967296) % 256) as u8);
    raw.push(((sim / 16777216) % 256) as u8);
    raw.push(((sim / 65536) % 256) as u8);
    raw.push(((sim / 256) % 256) as u8);
    raw.push((sim % 256) as u8);
    raw.push((sn / 256) as u8);
    raw.push((sn % 256) as u8);
    match frag {
        Some((index, total)) => {
            raw.push((index / 256) as u8);
            raw.push((index % 256) as u8);
            raw.push((total / 256) as u8);
            raw.push((total % 256) as u8);
        },
        None => {},
    }
    let mut i: usize = 0;
    proof {
        assert(raw@ =~= header_bytes(f));
    }
    while i < body.len()
        invariant
            i <= body.len(),
            raw@ == header_bytes(f) + body@.take(i as int),
        decreases body.len() - i,
    {
        raw.push(body[i]);
        proof {
            assert(header_bytes(f) + body@.take(i as int + 1) =~= raw@);
        }
        i = i + 1;
    }
    proof {
        assert(body@.take(body@.len() as int) =~= body@);
    }
    let checksum = xor_sum_bytes(&raw);
    raw.push(checksum);
    proof {
        assert(raw@ =~= frame_raw(f));
    }
    let escaped = escape_bytes(&raw);
    let mut out: Vec<u8> = Vec::new();
    out.push(MARKER);
    let mut j: usize = 0;
    while j < escaped.len()
        invariant
            j <= escaped.len(),
            out@ == seq![MARKER] + escaped@.take(j as int),
        decreases escaped.len() - j,
    {
        out.push(escaped[j]);
        proof {
            assert(seq![MARKER] + escaped@.take(j as int + 1) =~= out@);
        }
        j = j + 1;
    }
    out.push(MARKER);
    proof {
        assert(escaped@.take(escaped@.len() as int) =~= escaped@);
        assert(out@ =~= frame_bytes(f));
    }
    out
}

/// Reads two bytes as one big-endian 16-bit value, mirroring [`be16`].
pub fn be16_read(hi: u8, lo: u8) -> (r: u16)
    ensures
        r == be16(hi, lo),
{
    (hi as u16) * 256 + (lo as u16)
}

/// Copies `v[from..to]` into a fresh vector.
pub fn vec_subrange(v: &Vec<u8>, from: usize, to: usize) -> (r: Vec<u8>)
    requires
        from <= to <= v@.len(),
    ensures
        r@ == v@.subrange(from as int, to as int),
{
    let mut out: Vec<u8> = Vec::new();
    let mut i: usize = from;
    while i < to
        invariant
            from <= i <= to <= v@.len(),
            out@ == v@.subrange(from as int, i as int),
        decreases to - i,
    {
        out.push(v[i]);
        proof {
            assert(v@.subrange(from as int, i as int + 1) =~= out@);
        }
        i = i + 1;
    }
    out
}

/// Splitting a 48-bit value into its six bytes and reading them back is
/// the identity.
pub proof fn lemma_be48_round_trip(v: u64)
    requires
        v < 0x1000000000000,
    ensures
        be48(sim_bytes(v)) == v,
{
    let x = v as int;
    let t1 = x / 256;
    let t2 = t1 / 256;
    let t3 = t2 / 256;
    let t4 = t3 / 256;
    let t5 = t4 / 256;
    vstd::arithmetic::div_mod::lemma_div_denominator(x, 256, 256);
    vstd::arithmetic::div_mod::lemma_div_denominator(x, 65536, 256);
    vstd::arithmetic::div_mod::lemma_div_denominator(x, 16777216, 256);
    vstd::arithmetic::div_mod::lemma_div_denominator(x, 4294967296, 256);
    assert(t2 == x / 65536);
    assert(t3 == x / 16777216);
    assert(t4 == x / 4294967296);
    assert(t5 == x / 1099511627776);
    assert(t5 < 256) by {
        vstd::arithmetic::div_mod::lemma_fundamental_div_mod(x, 1099511627776);
        vstd::arithmetic::div_mod::lemma_mod_bound(x, 1099511627776);
    }
    assert(x == t1 * 256 + x % 256);
    assert(t1 == t2 * 256 + t1 % 256);
    assert(t2 == t3 * 256 + t2 % 256);
    assert(t3 == t4 * 256 + t3 % 256);
    assert(t4 == t5 * 256 + t4 % 256);
    assert(t5 % 256 == t5);
}

/// Reading the header back out of a frame's unescaped content gives the
/// frame: serialization and header parsing are inverses.
pub proof fn lemma_parse_frame_raw(f: FrameView)
    requires
        f.body.len() <= 1023,
        f.sim < 0x1000000000000,
        match f.frag {
            Some((index, total)) => 1 <= index && index <= total,
            None => true,
        },
    ensures
        spec_parse_frame(frame_raw(f)) == Some(f),
{
    let hb = header_bytes(f);
    let raw = frame_raw(f);
    let pv = props_of(f.frag, f.body.len() as int);
    lemma_be48_round_trip(f.sim);
    match f.frag {
        Some((index, total)) => {
            assert(hb.len() == 16);
            assert(raw.len() == 17 + f.body.len());
            assert(raw[0] == u16_hi(f.id) && raw[1] == u16_lo(f.id));
            assert(raw[2] == u16_hi(pv) && raw[3] == u16_lo(pv));
            assert(raw.subrange(4, 10) =~= sim_bytes(f.sim));
            assert(raw[10] == u16_hi(f.sn) && raw[11] == u16_lo(f.sn));
            assert(raw[12] == u16_hi(index) && raw[13] == u16_lo(index));
            assert(raw[14] == u16_hi(total) && raw[15] == u16_lo(total));
            assert(be16(u16_hi(pv), u16_lo(pv)) == pv);
            assert(pv == f.body.len() + 0x2000);
            assert(pv & 0x2000 != 0) by (bit_vector)
                requires
                    8192 <= pv <= 9215,
            ;
            assert(raw.subrange(16, raw.len() - 1) =~= f.body);
            assert(spec_parse_frame(raw) == Some(f));
        },
        None => {
            assert(hb.len() == 12);
            assert(raw.len() == 13 + f.body.len());
            assert(raw[0] == u16_hi(f.id) && raw[1] == u16_lo(f.id));
            assert(raw[2] == u16_hi(pv) && raw[3] == u16_lo(pv));
            assert(raw.subrange(4, 10) =~= sim_bytes(f.sim));
            assert(raw[10] == u16_hi(f.sn) && raw[11] == u16_lo(f.sn));
            assert(be16(u16_hi(pv), u16_lo(pv)) == pv);
            assert(pv == f.body.len());
            assert(pv & 0x2000 == 0) by (bit_vector)
                requires
                    pv <= 1023,
            ;
            assert(raw.subrange(12, raw.len() - 1) =~= f.body);
            assert(spec_parse_frame(raw) == Some(f));
        },
    }
}

/// Per-connection frame builder: holds the device identifier and the
/// monotonically allocated outbound sequence number.
pub struct JtPackage {
    pub sim: u64,
    pub sn: u16,
}

impl JtPackage {
    /// Identifier fits in the six header bytes.
    pub open spec fn wf(&self) -> bool {
        self.sim < 0x1000000000000
    }

    /// A builder for a device, starting at sequence number zero.
    pub fn new(sim: u64) -> (r: JtPackage)
        requires
            sim < 0x1000000000000,
        ensures
            r.sim == sim,
            r.sn == 0,
            r.wf(),
    {
        JtPackage { sim, sn: 0 }
    }

    /// The sequence number the next outbound frame will carry.
    pub fn get_sn(&self) -> (r: u16)
        ensures
            r == self.sn,
    {
        self.sn
    }

    /// Reserves `n` consecutive sequence numbers, returning the first.
    pub fn distribute_sn(&mut self, n: u16) -> (r: u16)
        ensures
            r == old(self).sn,
            final(self).sn == ((old(self).sn + n) % 0x10000) as u16,
            final(self).sim == old(self).sim,
    {
        let first = self.sn;
        let next: u32 = (self.sn as u32) + (n as u32);
        self.sn = (next % 0x10000) as u16;
        first
    }

    /// Builds one unfragmented outbound frame carrying the next sequence
    /// number, and advances the counter past it.
    pub fn serialize(&mut self, id: u16, body: &Vec<u8>) -> (r: Vec<u8>)
        requires
            body@.len() <= 1023,
            old(self).wf(),
        ensures
            r@ == frame_bytes(
                FrameView {
                    id,
                    sim: old(self).sim,
                    sn: old(self).sn,
                    frag: None,
                    body: body@,
                },
            ),
            final(self).sn == ((old(self).sn + 1) % 0x10000) as u16,
            final(self).sim == old(self).sim,
            final(self).wf(),
    {
        let sn = self.distribute_sn(1);
        build_frame(id, self.sim, sn, None, body)
    }
}

} // verus!
