//! One forwarding-consumer connection: the set of device identifiers it
//! subscribes to, and the control-command handling that mutates it.
//! Every batch of commands that actually changes membership bumps the
//! process-wide subscription version exactly once, invalidating cached
//! sender lists.

use std::collections::HashMap;

use vstd::prelude::*;

use crate::service_device::SessionHandle;
use crate::session808::jt808_parse::{spec_all_filled, JtSubMerger};
use crate::session_forward::forward_item::ForwardItem;

verus! {

broadcast use vstd::std_specs::hash::group_hash_axioms;

/// The subscription version after one change: the counter moves, so any
/// stamp taken before differs from it.
pub open spec fn wrap_inc32(u: u32) -> u32 {
    (((u as int) + 1) % 0x100000000) as u32
}

/// Bumping the version always changes it: a cache stamped before the
/// bump can never pass the staleness check.
pub proof fn lemma_wrap_inc_changes(u: u32)
    ensures
        wrap_inc32(u) != u,
{
}

/// Computes [`wrap_inc32`].
pub fn bump_version(update: &mut u32)
    ensures
        *final(update) == wrap_inc32(*old(update)),
{
    if *update == 0xffffffffu32 {
        *update = 0;
    } else {
        *update = *update + 1;
    }
}

/// The subscription map after adding each identifier in turn: a fresh
/// unbound item for each identifier not yet present; an identifier
/// already subscribed keeps its item (and its device binding).
pub open spec fn add_all(m: Map<u64, ForwardItem>, sims: Seq<u64>) -> Map<u64, ForwardItem>
    decreases sims.len(),
{
    if sims.len() == 0 {
        m
    } else {
        let m2 = add_all(m, sims.drop_last());
        if m2.contains_key(sims.last()) {
            m2
        } else {
            m2.insert(sims.last(), (ForwardItem { device_session: None }))
        }
    }
}

/// Whether adding the identifiers changes membership.
pub open spec fn add_changes(m: Map<u64, ForwardItem>, sims: Seq<u64>) -> bool
    decreases sims.len(),
{
    if sims.len() == 0 {
        false
    } else {
        add_changes(m, sims.drop_last()) || !add_all(m, sims.drop_last()).contains_key(
            sims.last(),
        )
    }
}

/// The subscription map after removing each identifier in turn.
pub open spec fn remove_all(m: Map<u64, ForwardItem>, sims: Seq<u64>) -> Map<u64, ForwardItem>
    decreases sims.len(),
{
    if sims.len() == 0 {
        m
    } else {
        remove_all(m, sims.drop_last()).remove(sims.last())
    }
}

/// Whether removing the identifiers changes membership.
pub open spec fn remove_changes(m: Map<u64, ForwardItem>, sims: Seq<u64>) -> bool
    decreases sims.len(),
{
    if sims.len() == 0 {
        false
    } else {
        remove_changes(m, sims.drop_last()) || remove_all(m, sims.drop_last()).contains_key(
            sims.last(),
        )
    }
}

/// Reset-subscriptions opcode.
pub const CMD_RESET: u8 = 0x01;

/// Add-subscriptions opcode.
pub const CMD_ADD: u8 = 0x02;

/// Remove-subscriptions opcode.
pub const CMD_REMOVE: u8 = 0x03;

/// One forwarding-consumer connection: its registry slot and its
/// subscription map from device identifier to binding item.
pub struct ForwardSession {
    pub id: u64,
    pub map_sims: HashMap<u64, ForwardItem>,
}

impl ForwardSession {
    /// A fresh consumer session with no subscriptions.
    pub fn new(id: u64) -> (r: ForwardSession)
        ensures
            r.id == id,
            r.map_sims@ == Map::<u64, ForwardItem>::empty(),
    {
        ForwardSession { id, map_sims: HashMap::new() }
    }

    /// Applies one control command to the subscription set, bumping the
    /// version counter exactly once if and only if membership changed.
    /// Reset drops every subscription, then adds the named identifiers.
    pub fn handle_cmd(&mut self, cmd_type: u8, sims: &Vec<u64>, update: &mut u32)
        ensures
            final(self).id == old(self).id,
            cmd_type == CMD_RESET ==> {
                let changed = !old(self).map_sims@.is_empty() || add_changes(
                    Map::empty(),
                    sims@,
                );
                &&& final(self).map_sims@ == add_all(Map::empty(), sims@)
                &&& *final(update) == if changed {
                    wrap_inc32(*old(update))
                } else {
                    *old(update)
                }
            },
            cmd_type == CMD_ADD ==> {
                let changed = add_changes(old(self).map_sims@, sims@);
                &&& final(self).map_sims@ == add_all(old(self).map_sims@, sims@)
                &&& *final(update) == if changed {
                    wrap_inc32(*old(update))
                } else {
                    *old(update)
                }
            },
            cmd_type == CMD_REMOVE ==> {
                let changed = remove_changes(old(self).map_sims@, sims@);
                &&& final(self).map_sims@ == remove_all(old(self).map_sims@, sims@)
                &&& *final(update) == if changed {
                    wrap_inc32(*old(update))
                } else {
                    *old(update)
                }
            },
            cmd_type != CMD_RESET && cmd_type != CMD_ADD && cmd_type != CMD_REMOVE ==> {
                &&& final(self).map_sims@ == old(self).map_sims@
                &&& *final(update) == *old(update)
            },
    {
        let mut changed: bool = false;
        if cmd_type == CMD_RESET {
            if !self.map_sims.is_empty() {
                changed = true;
            }
            self.map_sims.clear();
        }
        if cmd_type == CMD_RESET || cmd_type == CMD_ADD {
            let ghost m0 = self.map_sims@;
            let ghost changed0 = changed;
            let mut i: usize = 0;
            proof {
                assert(sims@.take(0) =~= Seq::<u64>::empty());
            }
            while i < sims.len()
                invariant
                    i <= sims@.len(),
                    self.map_sims@ == add_all(m0, sims@.take(i as int)),
                    changed == (changed0 || add_changes(m0, sims@.take(i as int))),
                    self.id == old(self).id,
                decreases sims@.len() - i,
            {
                proof {
                    let p = sims@.take(i as int + 1);
                    assert(p.drop_last() =~= sims@.take(i as int));
                    assert(p.last() == sims@[i as int]);
                }
                if !self.map_sims.contains_key(&sims[i]) {
                    self.map_sims.insert(sims[i], ForwardItem::new());
                    changed = true;
                }
                i = i + 1;
            }
            proof {
                assert(sims@.take(sims@.len() as int) =~= sims@);
            }
        } else if cmd_type == CMD_REMOVE {
            let ghost m0 = self.map_sims@;
            let mut i: usize = 0;
            proof {
                assert(sims@.take(0) =~= Seq::<u64>::empty());
            }
            while i < sims.len()
                invariant
                    i <= sims@.len(),
                    self.map_sims@ == remove_all(m0, sims@.take(i as int)),
                    changed == remove_changes(m0, sims@.take(i as int)),
                    self.id == old(self).id,
                decreases sims@.len() - i,
            {
                proof {
                    let p = sims@.take(i as int + 1);
                    assert(p.drop_last() =~= sims@.take(i as int));
                    assert(p.last() == sims@[i as int]);
                }
                match self.map_sims.remove(&sims[i]) {
                    Some(_) => {
                        changed = true;
                    },
                    None => {},
                }
                i = i + 1;
            }
            proof {
                assert(sims@.take(sims@.len() as int) =~= sims@);
            }
        }
        if changed {
            bump_version(update);
        }
    }

    /// The binding item for a device identifier, with its refresh hint.
    pub fn get_item(&self, sim: u64) -> (r: Option<(ForwardItem, i32)>)
        ensures
            match r {
                Some((item, hint)) => self.map_sims@.contains_key(sim) && item
                    == self.map_sims@[sim] && hint == 0,
                None => !self.map_sims@.contains_key(sim),
            },
    {
        match self.map_sims.get(&sim) {
            Some(item) => Some((*item, 0)),
            None => None,
        }
    }

    /// Consumer-sent device traffic: names the live device session the
    /// message targets, if the consumer subscribes to the device and the
    /// device has connected.
    pub fn handle_data(&self, jtsub: &JtSubMerger) -> (r: Option<SessionHandle>)
        requires
            jtsub.wf(),
            spec_all_filled(jtsub.frags@),
        ensures
            match r {
                Some(h) => self.map_sims@.contains_key(jtsub.frags@[0]->0.sim)
                    && self.map_sims@[jtsub.frags@[0]->0.sim].device_session == Some(h),
                None => !self.map_sims@.contains_key(jtsub.frags@[0]->0.sim)
                    || self.map_sims@[jtsub.frags@[0]->0.sim].device_session is None,
            },
    {
        let first = match jtsub.get_first_jt() {
            Some(jt) => jt,
            None => {
                return None;
            },
        };
        match self.map_sims.get(&first.sim) {
            Some(item) => item.device_session,
            None => None,
        }
    }
}

} // verus!
