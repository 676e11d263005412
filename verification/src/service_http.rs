//! Decisions of the HTTP control collaborator: decoding the hex-encoded
//! command payload, reading the embedded frame header, and resolving the
//! target device's live session.  The HTTP plumbing itself lives outside
//! the crate and only forwards plain values here.

use vstd::prelude::*;
use vstd::string::StringSliceAdditionalSpecFns;

use crate::jt808_codec::{parse_frame, spec_parse_frame, Jt808};
use crate::service_device::{ServiceJt808, SessionHandle};

verus! {

/// Value of one hexadecimal digit byte.
pub open spec fn hex_val(c: u8) -> Option<u8> {
    if 0x30 <= c && c <= 0x39 {
        Some((c - 0x30) as u8)
    } else if 0x61 <= c && c <= 0x66 {
        Some((c - 0x61 + 10) as u8)
    } else if 0x41 <= c && c <= 0x46 {
        Some((c - 0x41 + 10) as u8)
    } else {
        None
    }
}

/// Bytes of a hexadecimal string, two digits each; `None` on an odd
/// length or a non-digit.
pub open spec fn spec_decode_hex(s: Seq<u8>) -> Option<Seq<u8>>
    decreases s.len(),
{
    if s.len() == 0 {
        Some(Seq::empty())
    } else if s.len() == 1 {
        None
    } else {
        match (hex_val(s[0]), hex_val(s[1])) {
            (Some(hi), Some(lo)) => {
                match spec_decode_hex(s.skip(2)) {
                    Some(rest) => Some(seq![(hi * 16 + lo) as u8] + rest),
                    None => None,
                }
            },
            _ => None,
        }
    }
}

/// Reads one hexadecimal digit byte, mirroring [`hex_val`].
pub fn hex_digit(c: u8) -> (r: Option<u8>)
    ensures
        r == hex_val(c),
{
    if 0x30 <= c && c <= 0x39 {
        Some(c - 0x30)
    } else if 0x61 <= c && c <= 0x66 {
        Some(c - 0x61 + 10)
    } else if 0x41 <= c && c <= 0x46 {
        Some(c - 0x41 + 10)
    } else {
        None
    }
}

/// Decodes a hexadecimal string into bytes, mirroring
/// [`spec_decode_hex`].
#[verifier::loop_isolation(false)]
pub fn decode_hex(s: &str) -> (r: Option<Vec<u8>>)
    ensures
        match r {
            Some(out) => spec_decode_hex(s.spec_bytes()) == Some(out@),
            None => spec_decode_hex(s.spec_bytes()) is None,
        },
{
    let b = s.as_bytes();
    let mut out: Vec<u8> = Vec::new();
    let mut i: usize = 0;
    proof {
        assert(b@.skip(0) =~= b@);
        if spec_decode_hex(b@) is Some {
            assert(out@ + spec_decode_hex(b@)->0 =~= spec_decode_hex(b@)->0);
        }
    }
    while i < b.len()
        invariant
            i <= b@.len(),
            b@ == s.spec_bytes(),
            match spec_decode_hex(b@.skip(i as int)) {
                Some(rest) => spec_decode_hex(b@) == Some(out@ + rest),
                None => spec_decode_hex(b@) is None,
            },
        decreases b@.len() - i,
    {
        let ghost suffix = b@.skip(i as int);
        proof {
            assert(suffix[0] == b@[i as int]);
            if i + 1 < b.len() {
                assert(suffix[1] == b@[i as int + 1]);
                assert(suffix.skip(2) =~= b@.skip(i as int + 2));
            }
        }
        if i + 1 >= b.len() {
            return None;
        }
        let hi = match hex_digit(b[i]) {
            Some(v) => v,
            None => {
                return None;
            },
        };
        let lo = match hex_digit(b[i + 1]) {
            Some(v) => v,
            None => {
                return None;
            },
        };
        let ghost pre = out@;
        out.push(hi * 16 + lo);
        proof {
            match spec_decode_hex(b@.skip(i as int + 2)) {
                Some(rest) => {
                    assert(spec_decode_hex(suffix) == Some(seq![(hi * 16 + lo) as u8] + rest));
                    assert(pre + (seq![(hi * 16 + lo) as u8] + rest) =~= out@ + rest);
                },
                None => {},
            }
        }
        i = i + 2;
    }
    proof {
        assert(b@.skip(b@.len() as int) =~= Seq::<u8>::empty());
        assert(out@ + Seq::<u8>::empty() =~= out@);
    }
    Some(out)
}

/// Whether the message id is one of the control commands the endpoint
/// accepts.
pub open spec fn is_control_id(id: u16) -> bool {
    id == 0x9101 || id == 0x9102 || id == 0x9201 || id == 0x9202 || id == 0x9205
}

/// Routes one hex-encoded control command: decodes it, reads the
/// embedded header, and resolves the target device's live session.
/// `Some` carries what command issuance needs: the session handle, the
/// message id, and the body bytes.  `None` on malformed hex, an
/// unreadable header, an unsupported id, or an unconnected device —
/// the endpoint's failure answer.
pub fn http_route(registry: &ServiceJt808, content: &str) -> (r: Option<(
    SessionHandle,
    u16,
    Vec<u8>,
)>)
    ensures
        match spec_decode_hex(content.spec_bytes()) {
            None => r is None,
            Some(raw) => match spec_parse_frame(raw) {
                None => r is None,
                Some(f) => {
                    if !is_control_id(f.id) {
                        r is None
                    } else if !registry.m_map_sessions@.contains_key(f.sim) {
                        r is None
                    } else {
                        match r {
                            Some((h, id, body)) => h.sim == f.sim && registry.live(h) && id == f.id
                                && body@ == f.body,
                            None => false,
                        }
                    }
                },
            },
        },
{
    let raw = match decode_hex(content) {
        Some(raw) => raw,
        None => {
            return None;
        },
    };
    let jt: Jt808 = match parse_frame(&raw) {
        Some(jt) => jt,
        None => {
            return None;
        },
    };
    if !(jt.id == 0x9101 || jt.id == 0x9102 || jt.id == 0x9201 || jt.id == 0x9202 || jt.id
        == 0x9205) {
        return None;
    }
    match registry.map_get(jt.sim) {
        Some(h) => Some((h, jt.id, jt.body)),
        None => None,
    }
}

} // verus!
