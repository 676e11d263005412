//! Forwarding registry: all connected forwarding consumers, the
//! process-wide subscription version, and the version-stamped cached
//! sender lists that let device traffic fan out without taking the
//! registry lock per message.

use vstd::prelude::*;

use crate::service_device::SessionHandle;
use crate::session_forward::forward_item::ForwardItem;
use crate::session_forward::forward_session::ForwardSession;

verus! {

/// The consumer ids subscribed to a device identifier, in registry
/// order.
pub open spec fn spec_subscribers(sessions: Seq<ForwardSession>, sim: u64) -> Seq<u64>
    decreases sessions.len(),
{
    if sessions.len() == 0 {
        Seq::empty()
    } else {
        spec_subscribers(sessions.drop_last(), sim) + (if sessions.last().map_sims@.contains_key(
            sim,
        ) {
            seq![sessions.last().id]
        } else {
            Seq::empty()
        })
    }
}

/// A consumer subscribed to the identifier appears in the subscriber
/// list.
pub proof fn lemma_subscribers_complete(sessions: Seq<ForwardSession>, sim: u64, j: int)
    requires
        0 <= j < sessions.len(),
        sessions[j].map_sims@.contains_key(sim),
    ensures
        spec_subscribers(sessions, sim).contains(sessions[j].id),
    decreases sessions.len(),
{
    if j == sessions.len() - 1 {
        let prefix = spec_subscribers(sessions.drop_last(), sim);
        let whole = spec_subscribers(sessions, sim);
        assert(whole[prefix.len() as int] == sessions[j].id);
    } else {
        lemma_subscribers_complete(sessions.drop_last(), sim, j);
        let prefix = spec_subscribers(sessions.drop_last(), sim);
        let k = choose|k: int| 0 <= k < prefix.len() && prefix[k] == sessions.drop_last()[j].id;
        assert(sessions.drop_last()[j] == sessions[j]);
        assert(spec_subscribers(sessions, sim)[k] == sessions[j].id);
    }
}

/// Relation between a forwarding registry before and after binding a
/// device's live session: every item subscribed to the device now names
/// the session; everything else is untouched.
pub open spec fn device_bound(
    fw0: ServiceForward,
    fw1: ServiceForward,
    sim: u64,
    h: SessionHandle,
) -> bool {
    &&& fw1.update == fw0.update
    &&& fw1.forward_session@.len() == fw0.forward_session@.len()
    &&& forall|j: int|
        0 <= j < fw0.forward_session@.len() ==> {
            let s0 = #[trigger] fw0.forward_session@[j];
            let s1 = fw1.forward_session@[j];
            &&& s1.id == s0.id
            &&& s1.map_sims@ == if s0.map_sims@.contains_key(sim) {
                s0.map_sims@.insert(sim, (ForwardItem { device_session: Some(h) }))
            } else {
                s0.map_sims@
            }
        }
}

/// All connected forwarding consumers and the subscription version.
pub struct ServiceForward {
    pub forward_session: Vec<ForwardSession>,
    pub update: u32,
}

/// A cached fan-out list for one device identifier, stamped with the
/// subscription version it was computed at.
pub struct ForwardSimSender {
    pub sim: u64,
    pub update_num: u32,
    pub senders: Vec<u64>,
}

/// The consumer list a cached sender delivers to: its own list while its
/// stamp matches the live version, the recomputed current list once the
/// stamp is stale.
pub open spec fn effective_senders(s: ForwardSimSender, fw: ServiceForward) -> Seq<u64> {
    if s.update_num == fw.update {
        s.senders@
    } else {
        spec_subscribers(fw.forward_session@, s.sim)
    }
}

impl ServiceForward {
    /// Consumer ids equal their registry slots.
    pub open spec fn wf(&self) -> bool {
        forall|j: int|
            0 <= j < self.forward_session@.len() ==> (#[trigger] self.forward_session@[j]).id
                == j as u64
    }

    /// An empty forwarding registry.
    pub fn new() -> (r: ServiceForward)
        ensures
            r.wf(),
            r.forward_session@.len() == 0,
            r.update == 0,
    {
        ServiceForward { forward_session: Vec::new(), update: 0 }
    }

    /// Registers a newly connected consumer and returns its id.  An
    /// empty subscription set changes no membership, so the version
    /// stays.
    pub fn add_session(&mut self) -> (id: u64)
        requires
            old(self).wf(),
            old(self).forward_session@.len() < u64::MAX,
        ensures
            final(self).wf(),
            id == old(self).forward_session@.len() as u64,
            final(self).forward_session@.len() == old(self).forward_session@.len() + 1,
            final(self).forward_session@.drop_last() == old(self).forward_session@,
            final(self).forward_session@.last().id == id,
            final(self).forward_session@.last().map_sims@ == Map::<u64, ForwardItem>::empty(),
            final(self).update == old(self).update,
    {
        let id = self.forward_session.len() as u64;
        let session = ForwardSession::new(id);
        self.forward_session.push(session);
        id
    }

    /// Computes the current fan-out list for a device identifier,
    /// stamped with the current version.
    pub fn get_forward_sender(&self, sim: u64) -> (r: ForwardSimSender)
        ensures
            r.sim == sim,
            r.update_num == self.update,
            r.senders@ == spec_subscribers(self.forward_session@, sim),
    {
        let mut senders: Vec<u64> = Vec::new();
        let mut i: usize = 0;
        proof {
            assert(self.forward_session@.take(0) =~= Seq::<ForwardSession>::empty());
        }
        while i < self.forward_session.len()
            invariant
                i <= self.forward_session@.len(),
                senders@ == spec_subscribers(self.forward_session@.take(i as int), sim),
            decreases self.forward_session@.len() - i,
        {
            proof {
                let p = self.forward_session@.take(i as int + 1);
                assert(p.drop_last() =~= self.forward_session@.take(i as int));
                assert(p.last() == self.forward_session@[i as int]);
            }
            let ghost pre = senders@;
            if self.forward_session[i].map_sims.contains_key(&sim) {
                senders.push(self.forward_session[i].id);
                proof {
                    assert(senders@ =~= pre + seq![self.forward_session@[i as int].id]);
                }
            } else {
                proof {
                    assert(senders@ =~= pre + Seq::<u64>::empty());
                }
            }
            i = i + 1;
        }
        proof {
            assert(self.forward_session@.take(self.forward_session@.len() as int)
                =~= self.forward_session@);
        }
        ForwardSimSender { sim, update_num: self.update, senders }
    }

    /// Binds a device's live session into every consumer item subscribed
    /// to it, so consumer-sent traffic can reach the device.
    #[verifier::loop_isolation(false)]
    pub fn bind_device(&mut self, sim: u64, h: SessionHandle)
        ensures
            device_bound(*old(self), *final(self), sim, h),
    {
        let mut i: usize = 0;
        let n = self.forward_session.len();
        while i < n
            invariant
                i <= n,
                n == self.forward_session@.len(),
                n == old(self).forward_session@.len(),
                self.update == old(self).update,
                forall|j: int|
                    i <= j < n ==> #[trigger] self.forward_session@[j] == old(
                        self,
                    ).forward_session@[j],
                forall|j: int|
                    0 <= j < i ==> {
                        let s0 = #[trigger] old(self).forward_session@[j];
                        let s1 = self.forward_session@[j];
                        &&& s1.id == s0.id
                        &&& s1.map_sims@ == if s0.map_sims@.contains_key(sim) {
                            s0.map_sims@.insert(sim, (ForwardItem { device_session: Some(h) }))
                        } else {
                            s0.map_sims@
                        }
                    },
            decreases n - i,
        {
            let session = vstd::std_specs::vec::vec_index_mut(&mut self.forward_session, i);
            let subscribed = session.map_sims.contains_key(&sim);
            if subscribed {
                let mut item = ForwardItem::new();
                item.bind_device(h);
                session.map_sims.insert(sim, item);
            }
            i = i + 1;
        }
    }
}

impl ForwardSimSender {
    /// Revalidates the cache and returns the consumer ids a frame for
    /// this device must be delivered to: the stamped list while the
    /// stamp is current, the freshly recomputed list once it is stale.
    pub fn forward_send(&mut self, fw: &ServiceForward) -> (r: Vec<u64>)
        ensures
            final(self).sim == old(self).sim,
            r@ == effective_senders(*old(self), *fw),
            final(self).senders@ == effective_senders(*old(self), *fw),
            final(self).update_num == fw.update,
    {
        if self.update_num != fw.update {
            let fresh = fw.get_forward_sender(self.sim);
            self.senders = fresh.senders;
            self.update_num = fresh.update_num;
        }
        let mut out: Vec<u64> = Vec::new();
        let mut i: usize = 0;
        while i < self.senders.len()
            invariant
                i <= self.senders@.len(),
                out@ == self.senders@.take(i as int),
            decreases self.senders@.len() - i,
        {
            out.push(self.senders[i]);
            proof {
                assert(self.senders@.take(i as int + 1) =~= out@);
            }
            i = i + 1;
        }
        proof {
            assert(self.senders@.take(self.senders@.len() as int) =~= self.senders@);
        }
        out
    }

    /// Binds the device's live session into every subscribed consumer
    /// item.
    pub fn bind_device(&self, fw: &mut ServiceForward, h: SessionHandle)
        ensures
            device_bound(*old(fw), *final(fw), self.sim, h),
    {
        fw.bind_device(self.sim, h);
    }
}

/// A cached sender whose stamp no longer matches the live version
/// refreshes before sending: once a subscription change bumped the
/// version, the next send delivers to every currently subscribed
/// consumer, including one that subscribed after the cache was taken.
pub proof fn lemma_cache_staleness(s: ForwardSimSender, fw: ServiceForward, j: int)
    requires
        s.update_num != fw.update,
        0 <= j < fw.forward_session@.len(),
        fw.forward_session@[j].map_sims@.contains_key(s.sim),
    ensures
        effective_senders(s, fw).contains(fw.forward_session@[j].id),
{
    lemma_subscribers_complete(fw.forward_session@, s.sim, j);
}

} // verus!
