//! Forwarding-channel wire format: length-prefixed packets whose payload
//! is either a subscription control frame or an embedded device-protocol
//! data frame, the latter reassembled through the same decoder semantics
//! as the device channel.

use vstd::prelude::*;

use crate::jt808_codec::{be16, be16_read, vec_subrange, FrameView, Jt808, MARKER};
use crate::session808::jt808_parse::{
    decode_span, reassembly_rel, spec_all_filled, vec_advance, Jt808PackUp, JtSubMerger,
};

verus! {

/// Error of the forwarding-channel parser.
#[derive(Clone, Copy, Debug, PartialEq, Eq, Structural)]
pub enum ForwardCodecError {
    /// The packet is not in the forwarding wire format.
    NotForwardProtocol,
}

/// One parsed forwarding-channel packet.
pub enum ReturnType {
    /// A control command: opcode and the device identifiers it names.
    Cmd(u8, Vec<u64>),
    /// A complete reassembled device-protocol message.
    Data(JtSubMerger),
}

/// Value of up to eight bytes read as one big-endian integer.
pub open spec fn be_val(b: Seq<u8>) -> int
    decreases b.len(),
{
    if b.len() == 0 {
        0
    } else {
        be_val(b.drop_last()) * 256 + b.last()
    }
}

/// Powers of 256.
pub open spec fn pow256(n: nat) -> int
    decreases n,
{
    if n == 0 {
        1
    } else {
        256 * pow256((n - 1) as nat)
    }
}

/// The identifier list of a control payload: repeated
/// `<length><big-endian identifier>` entries filling the bytes exactly.
/// `None` when an entry is empty, longer than eight bytes, or truncated.
pub open spec fn spec_parse_sims(b: Seq<u8>) -> Option<Seq<u64>>
    decreases b.len(),
{
    if b.len() == 0 {
        Some(Seq::empty())
    } else if b.len() < 2 {
        None
    } else {
        let n = be16(b[0], b[1]) as int;
        if n == 0 || n > 8 || b.len() < 2 + n {
            None
        } else {
            match spec_parse_sims(b.skip(2 + n)) {
                Some(rest) => Some(seq![be_val(b.subrange(2, 2 + n)) as u64] + rest),
                None => None,
            }
        }
    }
}

/// What one complete payload means.
pub enum PayloadView {
    /// A control frame: opcode and identifiers.
    Cmd(u8, Seq<u64>),
    /// An embedded device-protocol frame.
    Data(FrameView),
    /// A control frame with an opcode this engine does not handle.
    Ignore,
    /// Not a forwarding-protocol payload.
    Bad,
}

/// Classifies one complete payload: three `FF` bytes open a control
/// frame; anything else must be a marker-framed device-protocol frame.
pub open spec fn classify_payload(p: Seq<u8>) -> PayloadView {
    if p.len() >= 4 && p[0] == 0xffu8 && p[1] == 0xffu8 && p[2] == 0xffu8 {
        if p[3] == 0x01u8 || p[3] == 0x02u8 || p[3] == 0x03u8 {
            match spec_parse_sims(p.skip(4)) {
                Some(sims) => PayloadView::Cmd(p[3], sims),
                None => PayloadView::Bad,
            }
        } else {
            PayloadView::Ignore
        }
    } else {
        if p.len() >= 2 && p[0] == MARKER && p.last() == MARKER {
            match decode_span(p.subrange(1, p.len() - 1)) {
                Some(f) => PayloadView::Data(f),
                None => PayloadView::Bad,
            }
        } else {
            PayloadView::Bad
        }
    }
}

/// Parser of the forwarding channel: length-prefixed packets out of an
/// append-only buffer, with the same fragment reassembly as the device
/// channel for embedded data frames.
pub struct ForwardParse {
    pub jt808_packup: Jt808PackUp,
}

impl ForwardParse {
    /// Pending reassembly groups are well-formed.
    pub open spec fn wf(&self) -> bool {
        self.jt808_packup.wf()
    }

    /// A fresh parser.
    pub fn new() -> (r: ForwardParse)
        ensures
            r.wf(),
    {
        ForwardParse { jt808_packup: Jt808PackUp::new() }
    }

    /// Extracts the next packet, if complete.
    ///
    /// Nothing is consumed until the length prefix and the whole payload
    /// are present.  A control payload yields its command; an embedded
    /// data frame feeds reassembly and yields the message once all its
    /// fragments arrived; an unhandled opcode is skipped; anything else
    /// is a protocol error (the packet is consumed either way).
    #[verifier::loop_isolation(false)]
    pub fn parse(&mut self, buf: &mut Vec<u8>) -> (r: Result<Option<ReturnType>, ForwardCodecError>)
        requires
            old(self).wf(),
        ensures
            final(self).wf(),
            old(buf)@.len() < 2 ==> {
                &&& r matches Ok(None)
                &&& final(buf)@ == old(buf)@
                &&& final(self).jt808_packup.all_packdata@ == old(self).jt808_packup.all_packdata@
            },
            old(buf)@.len() >= 2 ==> {
                let n = be16(old(buf)@[0], old(buf)@[1]) as int;
                if old(buf)@.len() < 2 + n {
                    &&& r matches Ok(None)
                    &&& final(buf)@ == old(buf)@
                    &&& final(self).jt808_packup.all_packdata@
                        == old(self).jt808_packup.all_packdata@
                } else {
                    let p = old(buf)@.subrange(2, 2 + n);
                    &&& final(buf)@ == old(buf)@.skip(2 + n)
                    &&& match classify_payload(p) {
                        PayloadView::Cmd(op, sims) => match r {
                            Ok(Some(ReturnType::Cmd(op2, sims2))) => op2 == op && sims2@ == sims,
                            _ => false,
                        },
                        PayloadView::Ignore => {
                            &&& r matches Ok(None)
                            &&& final(self).jt808_packup.all_packdata@
                                == old(self).jt808_packup.all_packdata@
                        },
                        PayloadView::Bad => r matches Err(ForwardCodecError::NotForwardProtocol),
                        PayloadView::Data(f) => match r {
                            Ok(Some(ReturnType::Data(g))) => g.wf() && spec_all_filled(g.frags@)
                                && (exists|jt: Jt808|
                                jt@ == f && jt.wf() && #[trigger] reassembly_rel(
                                    old(self).jt808_packup.all_packdata@,
                                    final(self).jt808_packup.all_packdata@,
                                    jt,
                                    Some(g),
                                )),
                            Ok(Some(ReturnType::Cmd(_, _))) => false,
                            Ok(None) => exists|jt: Jt808|
                                jt@ == f && jt.wf() && #[trigger] reassembly_rel(
                                    old(self).jt808_packup.all_packdata@,
                                    final(self).jt808_packup.all_packdata@,
                                    jt,
                                    None,
                                ),
                            Err(_) => false,
                        },
                    }
                }
            },
    {
        if buf.len() < 2 {
            return Ok(None);
        }
        let n = be16_read(buf[0], buf[1]) as usize;
        if buf.len() < 2 + n {
            return Ok(None);
        }
        let p = vec_subrange(buf, 2, 2 + n);
        vec_advance(buf, 2 + n);
        if p.len() >= 4 && p[0] == 0xffu8 && p[1] == 0xffu8 && p[2] == 0xffu8 {
            let op = p[3];
            if op == 0x01u8 || op == 0x02u8 || op == 0x03u8 {
                match parse_sims(&p) {
                    Some(sims) => Ok(Some(ReturnType::Cmd(op, sims))),
                    None => Err(ForwardCodecError::NotForwardProtocol),
                }
            } else {
                Ok(None)
            }
        } else {
            if p.len() >= 2 && p[0] == MARKER && p[p.len() - 1] == MARKER {
                let span = vec_subrange(&p, 1, p.len() - 1);
                proof {
                    assert(span@ =~= p@.subrange(1, p@.len() - 1));
                    assert(p@.last() == p@[p@.len() - 1]);
                }
                match crate::jt808_codec::unescape_bytes(&span) {
                    Some(raw) => {
                        match crate::jt808_codec::parse_frame(&raw) {
                            Some(jt) => {
                                let ghost jtg = jt;
                                let merged = self.jt808_packup.get_sub_merger(jt);
                                proof {
                                    assert(jtg.wf() && reassembly_rel(
                                        old(self).jt808_packup.all_packdata@,
                                        self.jt808_packup.all_packdata@,
                                        jtg,
                                        merged,
                                    ));
                                }
                                match merged {
                                    Some(g) => Ok(Some(ReturnType::Data(g))),
                                    None => Ok(None),
                                }
                            },
                            None => Err(ForwardCodecError::NotForwardProtocol),
                        }
                    },
                    None => Err(ForwardCodecError::NotForwardProtocol),
                }
            } else {
                Err(ForwardCodecError::NotForwardProtocol)
            }
        }
    }
}

/// Reads the identifier entries of a control payload (the bytes after
/// the opcode), mirroring [`spec_parse_sims`].
#[verifier::loop_isolation(false)]
pub fn parse_sims(p: &Vec<u8>) -> (r: Option<Vec<u64>>)
    requires
        p@.len() >= 4,
    ensures
        match r {
            Some(sims) => spec_parse_sims(p@.skip(4)) == Some(sims@),
            None => spec_parse_sims(p@.skip(4)) is None,
        },
{
    let mut out: Vec<u64> = Vec::new();
    let mut i: usize = 4;
    proof {
        if spec_parse_sims(p@.skip(4)) is Some {
            assert(out@ + spec_parse_sims(p@.skip(4))->0 =~= spec_parse_sims(p@.skip(4))->0);
        }
    }
    while i < p.len()
        invariant
            4 <= i <= p@.len(),
            match spec_parse_sims(p@.skip(i as int)) {
                Some(rest) => spec_parse_sims(p@.skip(4)) == Some(out@ + rest),
                None => spec_parse_sims(p@.skip(4)) is None,
            },
        decreases p@.len() - i,
    {
        let ghost suffix = p@.skip(i as int);
        if p.len() - i < 2 {
            return None;
        }
        let n = be16_read(p[i], p[i + 1]) as usize;
        proof {
            assert(suffix[0] == p@[i as int]);
            assert(suffix[1] == p@[i as int + 1]);
        }
        if n == 0 || n > 8 || p.len() - i < 2 + n {
            return None;
        }
        proof {
            assert(suffix.skip(2 + n) =~= p@.skip(i as int + 2 + n));
            assert(suffix.subrange(2, 2 + n) =~= p@.subrange(i as int + 2, i as int + 2 + n));
        }
        let mut acc: u64 = 0;
        let mut j: usize = 0;
        let ghost entry = p@.subrange(i as int + 2, i as int + 2 + n as int);
        while j < n
            invariant
                j <= n <= 8,
                i + 2 + n <= p@.len(),
                entry == p@.subrange(i as int + 2, i as int + 2 + n as int),
                acc == be_val(entry.take(j as int)),
                acc < pow256(j as nat),
            decreases n - j,
        {
            proof {
                lemma_pow256_values();
                let t = entry.take(j as int + 1);
                assert(t.drop_last() =~= entry.take(j as int));
                assert(t.last() == entry[j as int]);
                assert(entry[j as int] == p@[i as int + 2 + j as int]);
                assert(pow256(j as nat) <= pow256(7));
            }
            acc = acc * 256 + (p[i + 2 + j] as u64);
            j = j + 1;
        }
        proof {
            assert(entry.take(n as int) =~= entry);
        }
        let ghost pre = out@;
        out.push(acc);
        proof {
            match spec_parse_sims(p@.skip(i as int + 2 + n)) {
                Some(rest) => {
                    assert(spec_parse_sims(suffix) == Some(seq![acc] + rest));
                    assert(pre + (seq![acc] + rest) =~= out@ + rest);
                },
                None => {},
            }
        }
        i = i + 2 + n;
    }
    proof {
        assert(p@.skip(p@.len() as int) =~= Seq::<u8>::empty());
        assert(out@ + Seq::<u64>::empty() =~= out@);
    }
    Some(out)
}

/// Unfolds [`pow256`] over the widths an identifier entry can have.
pub proof fn lemma_pow256_values()
    ensures
        pow256(0) == 1,
        pow256(1) == 256,
        pow256(2) == 65536,
        pow256(3) == 16777216,
        pow256(4) == 4294967296,
        pow256(5) == 1099511627776,
        pow256(6) == 281474976710656,
        pow256(7) == 72057594037927936,
        pow256(8) == 18446744073709551616,
{
    assert(pow256(1) == 256 * pow256(0));
    assert(pow256(2) == 256 * pow256(1));
    assert(pow256(3) == 256 * pow256(2));
    assert(pow256(4) == 256 * pow256(3));
    assert(pow256(5) == 256 * pow256(4));
    assert(pow256(6) == 256 * pow256(5));
    assert(pow256(7) == 256 * pow256(6));
    assert(pow256(8) == 256 * pow256(7));
}

} // verus!
