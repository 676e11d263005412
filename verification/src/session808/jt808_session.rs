//! Per-device session state machine: classifies each reassembled
//! message by id, answers registration and authentication handshakes,
//! routes generic acknowledgements to the command waiter or forwarding
//! consumer that is waiting on them, and fans everything else out to the
//! subscribed forwarding consumers.

use std::collections::{HashMap, HashSet};

use vstd::prelude::*;

use crate::jt808_codec::{
    be16, build_frame, frame_bytes, u16_bytes, FrameView, Jt808, JtPackage,
};
use crate::service_device::SessionHandle;
use crate::service_forward::{device_bound, effective_senders, ForwardSimSender, ServiceForward};
use crate::session808::jt808_parse::{spec_all_filled, JtSubMerger};

verus! {

broadcast use vstd::std_specs::hash::group_hash_axioms;

/// Message id: terminal generic acknowledgement.
pub const ID_GENERIC_ACK: u16 = 0x0001;

/// Message id: terminal heartbeat.
pub const ID_HEARTBEAT: u16 = 0x0002;

/// Message id: terminal registration.
pub const ID_REGISTER: u16 = 0x0100;

/// Message id: terminal authentication.
pub const ID_AUTH: u16 = 0x0102;

/// Message id: gateway registration acknowledgement.
pub const ID_REGISTER_ACK: u16 = 0x8100;

/// Message id: gateway generic acknowledgement.
pub const ID_GATEWAY_ACK: u16 = 0x8001;

/// The sequence number `k` steps past `sn0`, wrapping as the counter
/// does.
pub open spec fn sn_at(sn0: u16, k: int) -> u16 {
    (((sn0 as int) + k) % 0x10000) as u16
}

/// The frame with its sequence number rewritten; everything else kept.
pub open spec fn with_sn(f: FrameView, sn: u16) -> FrameView {
    FrameView { id: f.id, sim: f.sim, sn, frag: f.frag, body: f.body }
}

/// The outstanding-forward table after registering each of the `n`
/// sequence numbers reserved from `sn0` against one consumer.
pub open spec fn fw_registered(m: Map<u64, u64>, sn0: u16, n: int, consumer: u64) -> Map<u64, u64>
    decreases n,
{
    if n <= 0 {
        m
    } else {
        fw_registered(m, sn0, n - 1, consumer).insert(sn_at(sn0, n - 1) as u64, consumer)
    }
}

/// Every reserved sequence number of an injected message routes back to
/// the consumer that sent it: after registration, each of the `n`
/// numbers maps to that consumer in the outstanding-forward table.
pub proof fn lemma_forward_acks_routable(m: Map<u64, u64>, sn0: u16, n: int, consumer: u64, k: int)
    requires
        0 <= k < n,
    ensures
        fw_registered(m, sn0, n, consumer).contains_key(sn_at(sn0, k) as u64),
        fw_registered(m, sn0, n, consumer)[sn_at(sn0, k) as u64] == consumer,
    decreases n,
{
    if k < n - 1 {
        lemma_forward_acks_routable(m, sn0, n - 1, consumer, k);
    }
}

/// Layout of a generic-acknowledgement body: answered sequence number,
/// answered message id, result code.
pub open spec fn spec_parse_generic_ack(b: Seq<u8>) -> Option<(u16, u16, u8)> {
    if b.len() < 5 {
        None
    } else {
        Some((be16(b[0], b[1]), be16(b[2], b[3]), b[4]))
    }
}

/// Builds a generic-acknowledgement body.
pub open spec fn generic_ack_body(answer_sn: u16, answer_id: u16, result: u8) -> Seq<u8> {
    u16_bytes(answer_sn) + u16_bytes(answer_id) + seq![result]
}

/// The authorization token the gateway hands out on registration.
pub open spec fn auth_code() -> Seq<u8> {
    seq![0x39u8, 0x30u8, 0x39u8, 0x30u8, 0x39u8, 0x38u8, 0x30u8]
}

/// Builds a registration-acknowledgement body: answered sequence number,
/// success, authorization token.
pub open spec fn reg_ack_body(answer_sn: u16) -> Seq<u8> {
    u16_bytes(answer_sn) + seq![0u8] + auth_code()
}

/// Reads a generic-acknowledgement body, mirroring
/// [`spec_parse_generic_ack`].
pub fn parse_generic_ack(b: &Vec<u8>) -> (r: Option<(u16, u16, u8)>)
    ensures
        r == spec_parse_generic_ack(b@),
{
    if b.len() < 5 {
        return None;
    }
    let answer_sn = crate::jt808_codec::be16_read(b[0], b[1]);
    let answer_id = crate::jt808_codec::be16_read(b[2], b[3]);
    Some((answer_sn, answer_id, b[4]))
}

/// What the state machine asks the connection plumbing to do for one
/// inbound message.
pub enum Action {
    /// Write this frame to the device's socket.
    Reply(Vec<u8>),
    /// Wake the command waiter registered under this sequence number
    /// with the device-reported result code.
    CompleteCommand { sn: u16, result: u8 },
    /// Deliver the message's frames to the forwarding consumer whose
    /// injected traffic the device just acknowledged.
    AckToConsumer { consumer: u64, frames: Vec<Vec<u8>> },
    /// Deliver the message's frames to one subscribed forwarding
    /// consumer.
    ForwardData { consumer: u64, frames: Vec<Vec<u8>> },
}

/// The frames are exactly the wire images of the group's fragments, in
/// index order.
pub open spec fn frames_of(frames: Seq<Vec<u8>>, frags: Seq<Option<Jt808>>) -> bool {
    &&& frames.len() == frags.len()
    &&& forall|k: int| 0 <= k < frags.len() ==> frames[k]@ == frame_bytes(frags[k]->0@)
}

/// The action list fans the message out to exactly the given consumers,
/// in order.
pub open spec fn is_forward_actions(
    r: Seq<Action>,
    consumers: Seq<u64>,
    frags: Seq<Option<Jt808>>,
) -> bool {
    &&& r.len() == consumers.len()
    &&& forall|j: int|
        0 <= j < r.len() ==> (#[trigger] r[j] matches Action::ForwardData { consumer, frames } && (
        consumer == consumers[j] && frames_of(frames@, frags)))
}

/// The cross-task state of one device connection: the frame builder with
/// its sequence counter, the two correlation tables (sequence number of
/// an injected forward to the consumer awaiting its ack; sequence
/// numbers of outstanding gateway commands), and the closed flag.
pub struct Jt808SessionShared {
    pub package: JtPackage,
    pub fw_ids: HashMap<u64, u64>,
    pub gw_ids: HashSet<u64>,
    pub is_closed: bool,
}

impl Jt808SessionShared {
    /// The frame builder is usable.
    pub open spec fn wf(&self) -> bool {
        self.package.wf()
    }

    /// A fresh open session around a frame builder.
    pub fn new(package: JtPackage) -> (r: Jt808SessionShared)
        requires
            package.wf(),
        ensures
            r.wf(),
            r.package == package,
            r.fw_ids@ == Map::<u64, u64>::empty(),
            r.gw_ids@ == Set::<u64>::empty(),
            !r.is_closed,
    {
        Jt808SessionShared {
            package,
            fw_ids: HashMap::new(),
            gw_ids: HashSet::new(),
            is_closed: false,
        }
    }

    /// Whether the session has been closed.
    pub fn is_closed(&self) -> (r: bool)
        ensures
            r == self.is_closed,
    {
        self.is_closed
    }

    /// Marks the session closed; in-flight and future operations against
    /// it fail fast.
    pub fn close(&mut self)
        ensures
            final(self).is_closed,
            final(self).package == old(self).package,
            final(self).fw_ids@ == old(self).fw_ids@,
            final(self).gw_ids@ == old(self).gw_ids@,
    {
        self.is_closed = true;
    }

    /// Injects a consumer-sent message into the device connection.
    ///
    /// On an open session: reserves one sequence number per fragment,
    /// registers each of them against the consumer so the device's ack
    /// of any fragment routes back, and returns each fragment's wire
    /// image rewritten to its reserved sequence number.  On a closed
    /// session: `None`, nothing changes.
    pub fn forward_recv(&mut self, jtsub: &JtSubMerger, consumer: u64) -> (r: Option<
        Vec<Vec<u8>>,
    >)
        requires
            old(self).wf(),
            jtsub.wf(),
            spec_all_filled(jtsub.frags@),
        ensures
            final(self).wf(),
            final(self).is_closed == old(self).is_closed,
            final(self).package.sim == old(self).package.sim,
            final(self).gw_ids@ == old(self).gw_ids@,
            old(self).is_closed ==> {
                &&& r is None
                &&& *final(self) == *old(self)
            },
            !old(self).is_closed ==> {
                let sn0 = old(self).package.sn;
                &&& final(self).package.sn == sn_at(sn0, jtsub.total as int)
                &&& final(self).fw_ids@ == fw_registered(
                    old(self).fw_ids@,
                    sn0,
                    jtsub.total as int,
                    consumer,
                )
                &&& match r {
                    Some(frames) => frames@.len() == jtsub.frags@.len() && forall|k: int|
                        0 <= k < frames@.len() ==> frames@[k]@ == frame_bytes(
                            with_sn(jtsub.frags@[k]->0@, sn_at(sn0, k)),
                        ),
                    None => false,
                }
            },
    {
        if self.is_closed {
            return None;
        }
        let ghost fw0 = self.fw_ids@;
        let sn0 = self.package.distribute_sn(jtsub.total);
        let ghost pkg1 = self.package;
        let mut frames: Vec<Vec<u8>> = Vec::new();
        let mut k: usize = 0;
        while k < jtsub.frags.len()
            invariant
                k <= jtsub.frags@.len(),
                jtsub.frags@.len() == jtsub.total as int,
                jtsub.wf(),
                spec_all_filled(jtsub.frags@),
                frames@.len() == k,
                self.package == pkg1,
                self.gw_ids@ == old(self).gw_ids@,
                self.is_closed == old(self).is_closed,
                self.fw_ids@ == fw_registered(fw0, sn0, k as int, consumer),
                forall|t: int|
                    0 <= t < k ==> frames@[t]@ == frame_bytes(
                        with_sn(jtsub.frags@[t]->0@, sn_at(sn0, t)),
                    ),
            decreases jtsub.frags@.len() - k,
        {
            match &jtsub.frags[k] {
                Some(jt) => {
                    let sn_k: u16 = (((sn0 as u32) + (k as u32)) % 0x10000) as u16;
                    self.fw_ids.insert(sn_k as u64, consumer);
                    let frag = match (jt.package_index, jt.package_total) {
                        (Some(index), Some(total)) => Some((index, total)),
                        _ => None,
                    };
                    let frame = build_frame(jt.id, jt.sim, sn_k, frag, &jt.body);
                    frames.push(frame);
                },
                None => {
                    proof {
                        assert(false);
                    }
                },
            }
            k = k + 1;
        }
        Some(frames)
    }

    /// Starts an externally issued command: reserves the next sequence
    /// number, registers a waiter under it, and returns the number with
    /// the frame to write.  The caller delivers the result when
    /// [`Jt808Session::handle`] completes the waiter, or removes it with
    /// [`Jt808SessionShared::send_cmd_timeout`].
    pub fn send_cmd_begin(&mut self, id: u16, body: &Vec<u8>) -> (r: (u16, Vec<u8>))
        requires
            old(self).wf(),
            body@.len() <= 1023,
        ensures
            final(self).wf(),
            r.0 == old(self).package.sn,
            r.1@ == frame_bytes(
                FrameView {
                    id,
                    sim: old(self).package.sim,
                    sn: r.0,
                    frag: None,
                    body: body@,
                },
            ),
            final(self).gw_ids@ == old(self).gw_ids@.insert(r.0 as u64),
            final(self).fw_ids@ == old(self).fw_ids@,
            final(self).package.sn == sn_at(old(self).package.sn, 1),
            final(self).package.sim == old(self).package.sim,
            final(self).is_closed == old(self).is_closed,
    {
        let sn = self.package.get_sn();
        let frame = self.package.serialize(id, body);
        self.gw_ids.insert(sn as u64);
        (sn, frame)
    }

    /// Withdraws a timed-out command waiter; a generic ack arriving
    /// later for this sequence number will match nothing and be dropped.
    pub fn send_cmd_timeout(&mut self, sn: u16)
        ensures
            final(self).gw_ids@ == old(self).gw_ids@.remove(sn as u64),
            final(self).fw_ids@ == old(self).fw_ids@,
            final(self).package == old(self).package,
            final(self).is_closed == old(self).is_closed,
    {
        self.gw_ids.remove(&(sn as u64));
    }
}

/// Command correlation, over the waiter set that
/// [`Jt808SessionShared::send_cmd_begin`] inserts into,
/// [`Jt808SessionShared::send_cmd_timeout`] removes from, and the
/// generic-ack arm of [`Jt808Session::handle`] branches on.  An ack
/// arriving while the waiter stands finds it (and `handle` then emits
/// exactly one completion carrying the ack's result).  Once the timeout
/// path withdrew the waiter, the same ack finds nothing, and — when no
/// forwarded message claimed the number either — `handle` emits no
/// action at all: a late ack is dropped, never misdelivered.
pub proof fn lemma_command_correlation(gw: Set<u64>, sn: u64)
    ensures
        gw.insert(sn).contains(sn),
        !gw.insert(sn).remove(sn).contains(sn),
        !gw.remove(sn).contains(sn),
{
}

/// The connection-task view of one device session: the shared state, the
/// last time bytes arrived, and the cached forwarding fan-out list.
pub struct Jt808Session {
    pub session_shared: Jt808SessionShared,
    pub time_last_recv: u64,
    pub fw_sender: ForwardSimSender,
}

impl Jt808Session {
    /// The shared state is usable.
    pub open spec fn wf(&self) -> bool {
        self.session_shared.wf()
    }

    /// Wraps a fresh session around its shared state and fan-out cache,
    /// and binds the device's registration into every consumer item
    /// subscribed to it.
    pub fn new(
        session_shared: Jt808SessionShared,
        fw_sender: ForwardSimSender,
        now: u64,
        fw: &mut ServiceForward,
        h: SessionHandle,
    ) -> (r: Jt808Session)
        requires
            session_shared.wf(),
        ensures
            r.wf(),
            r.session_shared == session_shared,
            r.time_last_recv == now,
            r.fw_sender == fw_sender,
            device_bound(*old(fw), *final(fw), fw_sender.sim, h),
    {
        fw_sender.bind_device(fw, h);
        Jt808Session { session_shared, time_last_recv: now, fw_sender }
    }

    /// Whether the session has been closed.
    pub fn is_closed(&self) -> (r: bool)
        ensures
            r == self.session_shared.is_closed,
    {
        self.session_shared.is_closed()
    }

    /// Fans one complete message out to the currently subscribed
    /// forwarding consumers, refreshing the cached list if the
    /// subscription version moved.
    pub fn forward_send(&mut self, jtsub: &JtSubMerger, fw: &ServiceForward) -> (r: Vec<Action>)
        requires
            jtsub.wf(),
            spec_all_filled(jtsub.frags@),
        ensures
            is_forward_actions(r@, effective_senders(old(self).fw_sender, *fw), jtsub.frags@),
            final(self).session_shared == old(self).session_shared,
            final(self).time_last_recv == old(self).time_last_recv,
            final(self).fw_sender.sim == old(self).fw_sender.sim,
            final(self).fw_sender.update_num == fw.update,
            final(self).fw_sender.senders@ == effective_senders(old(self).fw_sender, *fw),
    {
        let targets = self.fw_sender.forward_send(fw);
        let mut r: Vec<Action> = Vec::new();
        let mut j: usize = 0;
        while j < targets.len()
            invariant
                j <= targets@.len(),
                jtsub.wf(),
                spec_all_filled(jtsub.frags@),
                r@.len() == j,
                forall|t: int|
                    0 <= t < j ==> (#[trigger] r@[t] matches Action::ForwardData {
                        consumer,
                        frames,
                    } && (consumer == targets@[t] && frames_of(frames@, jtsub.frags@))),
            decreases targets@.len() - j,
        {
            match jtsub.end() {
                Some(frames) => {
                    r.push(Action::ForwardData { consumer: targets[j], frames });
                },
                None => {
                    proof {
                        assert(false);
                    }
                },
            }
            j = j + 1;
        }
        r
    }

    /// Applies the state machine to one complete inbound message.
    ///
    /// A generic acknowledgement completes the command waiter registered
    /// under its answered sequence number, or routes back to the
    /// forwarding consumer awaiting it, or is dropped.  A registration
    /// is answered with a registration acknowledgement, an
    /// authentication with a generic acknowledgement; neither is
    /// forwarded.  A heartbeat refreshes the last-seen time and, like
    /// every other message, is forwarded to the subscribed consumers.
    pub fn handle(&mut self, jtsub: &JtSubMerger, now: u64, fw: &ServiceForward) -> (r: Vec<
        Action,
    >)
        requires
            old(self).wf(),
            jtsub.wf(),
            spec_all_filled(jtsub.frags@),
        ensures
            final(self).wf(),
            final(self).fw_sender.sim == old(self).fw_sender.sim,
            ({
                let f = jtsub.frags@[0]->0;
                let shared0 = old(self).session_shared;
                let shared1 = final(self).session_shared;
                let consumers = effective_senders(old(self).fw_sender, *fw);
                if f.id == ID_GENERIC_ACK {
                    &&& final(self).time_last_recv == old(self).time_last_recv
                    &&& final(self).fw_sender == old(self).fw_sender
                    &&& match spec_parse_generic_ack(
                        JtSubMerger::spec_merged_body(jtsub.frags@),
                    ) {
                        None => r@.len() == 0 && shared1 == shared0,
                        Some((answer_sn, answer_id, res)) => {
                            if shared0.gw_ids@.contains(answer_sn as u64) {
                                &&& r@.len() == 1
                                &&& (r@[0] matches Action::CompleteCommand { sn, result } && (sn
                                    == answer_sn && result == res))
                                &&& shared1.gw_ids@ == shared0.gw_ids@.remove(answer_sn as u64)
                                &&& shared1.fw_ids@ == shared0.fw_ids@
                                &&& shared1.package == shared0.package
                                &&& shared1.is_closed == shared0.is_closed
                            } else if shared0.fw_ids@.contains_key(answer_sn as u64) {
                                &&& r@.len() == 1
                                &&& (r@[0] matches Action::AckToConsumer { consumer, frames } && (
                                consumer == shared0.fw_ids@[answer_sn as u64] && frames_of(
                                    frames@,
                                    jtsub.frags@,
                                )))
                                &&& shared1.fw_ids@ == shared0.fw_ids@.remove(answer_sn as u64)
                                &&& shared1.gw_ids@ == shared0.gw_ids@
                                &&& shared1.package == shared0.package
                                &&& shared1.is_closed == shared0.is_closed
                            } else {
                                &&& r@.len() == 0
                                &&& shared1.fw_ids@ == shared0.fw_ids@
                                &&& shared1.gw_ids@ == shared0.gw_ids@
                                &&& shared1.package == shared0.package
                                &&& shared1.is_closed == shared0.is_closed
                            }
                        },
                    }
                } else if f.id == ID_REGISTER {
                    &&& r@.len() == 1
                    &&& (r@[0] matches Action::Reply(frame) && frame@ == frame_bytes(
                        FrameView {
                            id: ID_REGISTER_ACK,
                            sim: shared0.package.sim,
                            sn: shared0.package.sn,
                            frag: None,
                            body: reg_ack_body(f.sn),
                        },
                    ))
                    &&& shared1.package.sn == sn_at(shared0.package.sn, 1)
                    &&& shared1.package.sim == shared0.package.sim
                    &&& shared1.fw_ids@ == shared0.fw_ids@
                    &&& shared1.gw_ids@ == shared0.gw_ids@
                    &&& shared1.is_closed == shared0.is_closed
                    &&& final(self).time_last_recv == old(self).time_last_recv
                    &&& final(self).fw_sender == old(self).fw_sender
                } else if f.id == ID_AUTH {
                    &&& r@.len() == 1
                    &&& (r@[0] matches Action::Reply(frame) && frame@ == frame_bytes(
                        FrameView {
                            id: ID_GATEWAY_ACK,
                            sim: shared0.package.sim,
                            sn: shared0.package.sn,
                            frag: None,
                            body: generic_ack_body(f.sn, f.id, 0),
                        },
                    ))
                    &&& shared1.package.sn == sn_at(shared0.package.sn, 1)
                    &&& shared1.package.sim == shared0.package.sim
                    &&& shared1.fw_ids@ == shared0.fw_ids@
                    &&& shared1.gw_ids@ == shared0.gw_ids@
                    &&& shared1.is_closed == shared0.is_closed
                    &&& final(self).time_last_recv == old(self).time_last_recv
                    &&& final(self).fw_sender == old(self).fw_sender
                } else {
                    &&& is_forward_actions(r@, consumers, jtsub.frags@)
                    &&& shared1 == shared0
                    &&& final(self).fw_sender.update_num == fw.update
                    &&& final(self).fw_sender.senders@ == consumers
                    &&& final(self).time_last_recv == if f.id == ID_HEARTBEAT {
                        now
                    } else {
                        old(self).time_last_recv
                    }
                }
            }),
    {
        let (id, first_sn) = match jtsub.get_first_jt() {
            Some(jt) => (jt.id, jt.sn),
            None => {
                proof {
                    assert(false);
                }
                (0u16, 0u16)
            },
        };
        if id == ID_GENERIC_ACK {
            let body = jtsub.merged_body();
            match parse_generic_ack(&body) {
                None => Vec::new(),
                Some((answer_sn, _answer_id, res)) => {
                    let key: u64 = answer_sn as u64;
                    if self.session_shared.gw_ids.contains(&key) {
                        self.session_shared.gw_ids.remove(&key);
                        let mut r: Vec<Action> = Vec::new();
                        r.push(Action::CompleteCommand { sn: answer_sn, result: res });
                        r
                    } else {
                        match self.session_shared.fw_ids.remove(&key) {
                            Some(consumer) => {
                                match jtsub.end() {
                                    Some(frames) => {
                                        let mut r: Vec<Action> = Vec::new();
                                        r.push(Action::AckToConsumer { consumer, frames });
                                        r
                                    },
                                    None => {
                                        proof {
                                            assert(false);
                                        }
                                        Vec::new()
                                    },
                                }
                            },
                            None => {
                                proof {
                                    assert(self.session_shared.fw_ids@
                                        =~= old(self).session_shared.fw_ids@);
                                }
                                Vec::new()
                            },
                        }
                    }
                },
            }
        } else if id == ID_REGISTER {
            let mut body: Vec<u8> = Vec::new();
            body.push((first_sn / 256) as u8);
            body.push((first_sn % 256) as u8);
            body.push(0u8);
            body.push(0x39u8);
            body.push(0x30u8);
            body.push(0x39u8);
            body.push(0x30u8);
            body.push(0x39u8);
            body.push(0x38u8);
            body.push(0x30u8);
            proof {
                assert(body@ =~= reg_ack_body(first_sn));
            }
            let frame = self.session_shared.package.serialize(ID_REGISTER_ACK, &body);
            let mut r: Vec<Action> = Vec::new();
            r.push(Action::Reply(frame));
            r
        } else if id == ID_AUTH {
            let mut body: Vec<u8> = Vec::new();
            body.push((first_sn / 256) as u8);
            body.push((first_sn % 256) as u8);
            body.push((id / 256) as u8);
            body.push((id % 256) as u8);
            body.push(0u8);
            proof {
                assert(body@ =~= generic_ack_body(first_sn, id, 0));
            }
            let frame = self.session_shared.package.serialize(ID_GATEWAY_ACK, &body);
            let mut r: Vec<Action> = Vec::new();
            r.push(Action::Reply(frame));
            r
        } else {
            if id == ID_HEARTBEAT {
                self.time_last_recv = now;
            }
            self.forward_send(jtsub, fw)
        }
    }
}

} // verus!
