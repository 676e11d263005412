//! Process-wide session registry: maps a device identifier to its one
//! live session.  A handle names a registration; inserting a new session
//! for an identifier that already has one atomically evicts the old
//! registration, whose handle is dead from then on.

use std::collections::HashMap;

use vstd::prelude::*;

verus! {

broadcast use vstd::std_specs::hash::group_hash_axioms;

/// Names one registration of a device session: the device identifier
/// and the generation the registry stamped it with.
#[derive(Clone, Copy, Debug, PartialEq, Eq, Structural)]
pub struct SessionHandle {
    pub sim: u64,
    pub gen: u64,
}

/// The handle names the current live session of its device.
pub open spec fn live_in(m: Map<u64, u64>, h: SessionHandle) -> bool {
    m.contains_key(h.sim) && m[h.sim] == h.gen
}

/// Narrow lookup interface the command dispatcher depends on, decoupling
/// it from the registry's concrete type.
pub trait GetSender {
    /// The device-to-generation map the implementor answers from.
    spec fn sessions(&self) -> Map<u64, u64>;

    /// The handle of the device's live session, if it has one.
    fn get_sender(&self, sim: u64) -> (r: Option<SessionHandle>)
        ensures
            match r {
                Some(h) => h.sim == sim && live_in(self.sessions(), h),
                None => !self.sessions().contains_key(sim),
            },
    ;
}

/// The registry: device identifier to the generation of its live
/// session, plus the generation counter that stamps registrations.
pub struct ServiceJt808 {
    pub m_map_sessions: HashMap<u64, u64>,
    pub next_gen: u64,
}

impl ServiceJt808 {
    /// Every stamped generation is below the counter, so a fresh stamp
    /// collides with no live one.
    pub open spec fn wf(&self) -> bool {
        forall|k: u64|
            self.m_map_sessions@.contains_key(k) ==> #[trigger] self.m_map_sessions@[k]
                < self.next_gen
    }

    /// The handle names this registry's current live session of its
    /// device.
    pub open spec fn live(&self, h: SessionHandle) -> bool {
        live_in(self.m_map_sessions@, h)
    }

    /// An empty registry.
    pub fn new() -> (r: ServiceJt808)
        ensures
            r.wf(),
            r.m_map_sessions@ == Map::<u64, u64>::empty(),
            r.next_gen == 0,
    {
        ServiceJt808 { m_map_sessions: HashMap::new(), next_gen: 0 }
    }

    /// Registers the device's new session and returns its handle.  Any
    /// session the device had before is evicted: its handle is dead
    /// afterwards.  Other devices' sessions are untouched.
    pub fn map_insert(&mut self, sim: u64) -> (h: SessionHandle)
        requires
            old(self).wf(),
            old(self).next_gen < u64::MAX,
        ensures
            final(self).wf(),
            h.sim == sim,
            h.gen == old(self).next_gen,
            final(self).m_map_sessions@ == old(self).m_map_sessions@.insert(sim, h.gen),
            final(self).next_gen == old(self).next_gen + 1,
            final(self).live(h),
            forall|h2: SessionHandle|
                h2.sim == sim && old(self).live(h2) ==> !final(self).live(h2),
            forall|h2: SessionHandle|
                h2.sim != sim ==> (final(self).live(h2) <==> old(self).live(h2)),
    {
        let gen = self.next_gen;
        self.next_gen = self.next_gen + 1;
        self.m_map_sessions.insert(sim, gen);
        SessionHandle { sim, gen }
    }

    /// Deregisters the session named by the handle, if it is still the
    /// live one; an already-evicted handle is a no-op, so a stale
    /// connection cannot tear down its replacement.
    pub fn map_remove(&mut self, h: &SessionHandle)
        ensures
            final(self).next_gen == old(self).next_gen,
            old(self).live(*h) ==> final(self).m_map_sessions@
                == old(self).m_map_sessions@.remove(h.sim),
            !old(self).live(*h) ==> final(self).m_map_sessions@ == old(self).m_map_sessions@,
            old(self).wf() ==> final(self).wf(),
    {
        let still = match self.m_map_sessions.get(&h.sim) {
            Some(gen) => *gen == h.gen,
            None => false,
        };
        if still {
            self.m_map_sessions.remove(&h.sim);
        } else {
            proof {
                assert(self.m_map_sessions@ =~= old(self).m_map_sessions@);
            }
        }
    }

    /// The handle of the device's live session, if it has one.
    pub fn map_get(&self, sim: u64) -> (r: Option<SessionHandle>)
        ensures
            match r {
                Some(h) => h.sim == sim && self.live(h),
                None => !self.m_map_sessions@.contains_key(sim),
            },
    {
        match self.m_map_sessions.get(&sim) {
            Some(gen) => Some(SessionHandle { sim, gen: *gen }),
            None => None,
        }
    }

    /// Whether the handle's registration has been evicted or removed.
    pub fn is_closed(&self, h: &SessionHandle) -> (r: bool)
        ensures
            r == !self.live(*h),
    {
        match self.m_map_sessions.get(&h.sim) {
            Some(gen) => *gen != h.gen,
            None => true,
        }
    }
}

impl GetSender for ServiceJt808 {
    open spec fn sessions(&self) -> Map<u64, u64> {
        self.m_map_sessions@
    }

    fn get_sender(&self, sim: u64) -> (r: Option<SessionHandle>) {
        self.map_get(sim)
    }
}

/// A fresh, empty session registry for the process.
pub fn init() -> (r: ServiceJt808)
    ensures
        r.wf(),
        r.m_map_sessions@ == Map::<u64, u64>::empty(),
{
    ServiceJt808::new()
}

/// A device has at most one live session: two live handles for the same
/// identifier are the same handle.
pub proof fn lemma_at_most_one_session(m: Map<u64, u64>, h2: SessionHandle, h3: SessionHandle)
    requires
        live_in(m, h2),
        live_in(m, h3),
        h2.sim == h3.sim,
    ensures
        h2 == h3,
{
}

/// Registering a new session for an identifier kills every earlier
/// handle for it: after the insert, only the freshly stamped handle is
/// live for that identifier.
pub proof fn lemma_insert_evicts(m: Map<u64, u64>, sim: u64, gen: u64, h: SessionHandle)
    requires
        h.sim == sim,
        h.gen != gen,
    ensures
        !live_in(m.insert(sim, gen), h),
        live_in(m.insert(sim, gen), SessionHandle { sim, gen }),
{
}

} // verus!
