//! Firmware-update goals, one per node address, created on first use.

use vstd::prelude::*;

use crate::addr_map::AddrMap;
use crate::image_header::FWVersion;
use crate::wire::NodeAddress;

verus! {

/// The desired firmware outcome for a node.
#[derive(Clone, Copy, Debug, PartialEq, Eq, Structural)]
pub enum Goal {
    NoGoal,
    /// keep current fw version
    KeepCurrent,
    /// ask user if it's ok to update
    ApproveUpdateTo(FWVersion),
    /// user confirmed update, perform it
    UpdateTo(FWVersion),
}

#[derive(Clone, Copy, Debug, PartialEq, Eq, Structural)]
pub struct FWUStateRecord {
    pub goal: Goal,
}

impl FWUStateRecord {
    /// The record of a node not inspected before: no goal.
    pub fn default() -> (r: FWUStateRecord)
        ensures
            r.goal == Goal::NoGoal,
    {
        FWUStateRecord { goal: Goal::NoGoal }
    }
}

/// A committed change of a goal record.
#[derive(Clone, Copy, Debug, PartialEq, Eq, Structural)]
pub enum Event {
    FWUStateAdded(FWUStateRecord),
    FWUStateModified(FWUStateRecord),
}

/// Goal records by node address.
pub struct FWUStateTable {
    map: AddrMap<FWUStateRecord>,
}

impl FWUStateTable {
    pub closed spec fn view(&self) -> Map<Seq<u8>, FWUStateRecord> {
        self.map@
    }

    pub closed spec fn wf(&self) -> bool {
        self.map.wf()
    }

    pub fn new() -> (r: FWUStateTable)
        ensures
            r.wf(),
            r@ == Map::<Seq<u8>, FWUStateRecord>::empty(),
    {
        FWUStateTable { map: AddrMap::new() }
    }

    /// The record of `address`; a node without one gets the default record,
    /// which is stored.
    pub fn get_or_create_for(&mut self, address: &NodeAddress) -> (r: FWUStateRecord)
        requires
            old(self).wf(),
        ensures
            final(self).wf(),
            old(self)@.dom().contains(address@) ==> r == old(self)@[address@] && final(self)@
                == old(self)@,
            !old(self)@.dom().contains(address@) ==> r.goal == Goal::NoGoal
                && final(self)@ == old(self)@.insert(address@, r),
    {
        match self.map.get(address) {
            Some(rec) => rec,
            None => {
                let rec = FWUStateRecord::default();
                self.map.insert(address, rec);
                rec
            },
        }
    }

    /// Read-modify-write of the record of `address`, as `NodeTable::modify`.
    pub fn modify<F>(&mut self, address: &NodeAddress, f: F) -> (r: Option<Event>)
        where
            F: FnOnce(Option<FWUStateRecord>) -> Option<FWUStateRecord>,
        requires
            old(self).wf(),
            forall|o: Option<FWUStateRecord>| f.requires((o,)),
        ensures
            final(self).wf(),
            ({
                let cur = if old(self)@.dom().contains(address@) {
                    Some(old(self)@[address@])
                } else {
                    None
                };
                match r {
                    None => f.ensures((cur,), None::<FWUStateRecord>) && final(self)@ == old(self)@,
                    Some(Event::FWUStateAdded(rec)) => f.ensures((cur,), Some(rec)) && final(self)@
                        == old(self)@.insert(address@, rec) && !old(self)@.dom().contains(address@),
                    Some(Event::FWUStateModified(rec)) => f.ensures((cur,), Some(rec))
                        && final(self)@ == old(self)@.insert(address@, rec)
                        && old(self)@.dom().contains(address@),
                }
            }),
    {
        let cur = self.map.get(address);
        match f(cur) {
            None => None,
            Some(rec) => {
                if self.map.insert(address, rec) {
                    Some(Event::FWUStateModified(rec))
                } else {
                    Some(Event::FWUStateAdded(rec))
                }
            },
        }
    }
}

} // verus!
