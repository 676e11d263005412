//! One subscription binding: a forwarding consumer's claim on one
//! device identifier, optionally bound to the device's live session once
//! the device connects.

use vstd::prelude::*;

use crate::jt808_codec::frame_bytes;
use crate::service_device::SessionHandle;
use crate::session808::jt808_parse::{spec_all_filled, JtSubMerger};

verus! {

/// The binding of one `(consumer, device identifier)` pair.  The device
/// session reference is a lookup relation, not ownership: it names the
/// registration, and dies with it.
#[derive(Clone, Copy, Debug, PartialEq, Eq, Structural)]
pub struct ForwardItem {
    pub device_session: Option<SessionHandle>,
}

impl ForwardItem {
    /// A fresh, unbound item.
    pub fn new() -> (r: ForwardItem)
        ensures
            r.device_session is None,
    {
        ForwardItem { device_session: None }
    }

    /// Records the live session of the item's device.
    pub fn bind_device(&mut self, device: SessionHandle)
        ensures
            final(self).device_session == Some(device),
    {
        self.device_session = Some(device);
    }

    /// Consumer-to-device traffic: names the device session the message
    /// must be injected into, if the device has connected.
    pub fn forward_recv(&self) -> (r: Option<SessionHandle>)
        ensures
            r == self.device_session,
    {
        self.device_session
    }

    /// Device-to-consumer traffic: the wire images to write to the
    /// consumer, one per fragment of the complete message.
    pub fn forward_send(&self, jtsub: &JtSubMerger) -> (r: Option<Vec<Vec<u8>>>)
        requires
            jtsub.wf(),
        ensures
            match r {
                Some(frames) => spec_all_filled(jtsub.frags@) && frames@.len()
                    == jtsub.frags@.len() && forall|k: int|
                    0 <= k < frames@.len() ==> frames@[k]@ == frame_bytes(jtsub.frags@[k]->0@),
                None => !spec_all_filled(jtsub.frags@),
            },
    {
        jtsub.end()
    }
}

} // verus!
