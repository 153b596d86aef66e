//! The node catalogue: records keyed by node address, with update modes and
//! the change events that committed writes publish.

use vstd::prelude::*;

use crate::addr_map::{AddrMap, addr_key, key_views};
use crate::wire::{M_DEV_DC, M_DEV_ST, NodeAddress, address_eq};

verus! {

/// What is known of one node.
#[derive(Clone, Copy, Debug)]
pub struct NodeRecord {
    pub address: NodeAddress,
    pub device_status: Option<M_DEV_ST>,
    pub device_descriptor: Option<M_DEV_DC>,
}

/// Equality of optional device descriptors by their bytes.
pub open spec fn descriptor_eq(a: Option<M_DEV_DC>, b: Option<M_DEV_DC>) -> bool {
    match (a, b) {
        (None, None) => true,
        (Some(x), Some(y)) => x.b@ == y.b@,
        _ => false,
    }
}

impl PartialEq for NodeRecord {
    fn eq(&self, o: &NodeRecord) -> (r: bool) {
        if !address_eq(&self.address, &o.address) {
            return false;
        }
        let st = match (self.device_status, o.device_status) {
            (None, None) => true,
            (Some(x), Some(y)) => x == y,
            _ => false,
        };
        if !st {
            return false;
        }
        match (self.device_descriptor, o.device_descriptor) {
            (None, None) => true,
            (Some(x), Some(y)) => x == y,
            _ => false,
        }
    }
}

impl vstd::std_specs::cmp::PartialEqSpecImpl for NodeRecord {
    open spec fn obeys_eq_spec() -> bool {
        true
    }

    open spec fn eq_spec(&self, o: &NodeRecord) -> bool {
        &&& self.address@ == o.address@
        &&& self.device_status == o.device_status
        &&& descriptor_eq(self.device_descriptor, o.device_descriptor)
    }
}

impl NodeRecord {
    /// A record of `address` with nothing observed yet.
    pub fn new(address: &NodeAddress) -> (r: NodeRecord)
        ensures
            r.address == *address,
            r.device_status is None,
            r.device_descriptor is None,
    {
        NodeRecord { address: *address, device_status: None, device_descriptor: None }
    }

    /// The address as text, as `node_address_to_string` writes it.
    pub fn mac(&self) -> (r: String)
        ensures
            r@ == crate::text::address_text(self.address@),
    {
        crate::text::node_address_to_string(&self.address)
    }
}

/// A committed change of the catalogue; it carries the committed record.
#[derive(Clone, Copy, Debug)]
pub enum Event {
    NodeAdded(NodeRecord),
    NodeModified(NodeRecord),
}

impl Event {
    pub open spec fn record(self) -> NodeRecord {
        match self {
            Event::NodeAdded(r) => r,
            Event::NodeModified(r) => r,
        }
    }
}

/// How a write treats an existing record.
#[derive(Clone, Copy, Debug, PartialEq, Eq, Structural)]
pub enum UpdateMode {
    UpdateOrCreate,
    MustCreate,
    MustExist,
}

impl UpdateMode {
    pub fn default() -> (r: UpdateMode)
        ensures
            r == UpdateMode::UpdateOrCreate,
    {
        UpdateMode::UpdateOrCreate
    }
}

/// Precondition failures of the catalogue.
#[derive(Clone, Copy, Debug)]
pub enum StoreError {
    NotFound(NodeAddress),
    AlreadyExists(NodeAddress),
}

/// The catalogue in the model.
pub type NodeMap = Map<Seq<u8>, NodeRecord>;

/// Every record is stored under its own address.
pub open spec fn keys_match(m: NodeMap) -> bool {
    forall|k: Seq<u8>| #[trigger] m.dom().contains(k) ==> m[k].address@ == k
}

/// One write of `rec` under its address: the new catalogue and the event,
/// or the failed precondition.
pub open spec fn update_spec(m: NodeMap, rec: NodeRecord, mode: UpdateMode) -> Result<
    (NodeMap, Event),
    StoreError,
> {
    let k = rec.address@;
    if mode == UpdateMode::MustCreate && m.dom().contains(k) {
        Err(StoreError::AlreadyExists(rec.address))
    } else if mode == UpdateMode::MustExist && !m.dom().contains(k) {
        Err(StoreError::NotFound(rec.address))
    } else if m.dom().contains(k) {
        Ok((m.insert(k, rec), Event::NodeModified(rec)))
    } else {
        Ok((m.insert(k, rec), Event::NodeAdded(rec)))
    }
}

/// A batch of writes in order, all or nothing: the new catalogue and one
/// event per write, or the first failed precondition.
pub open spec fn update_many_spec(m: NodeMap, recs: Seq<NodeRecord>, mode: UpdateMode) -> Result<
    (NodeMap, Seq<Event>),
    StoreError,
>
    decreases recs.len(),
{
    if recs.len() == 0 {
        Ok((m, Seq::empty()))
    } else {
        match update_many_spec(m, recs.drop_last(), mode) {
            Err(e) => Err(e),
            Ok((m1, evs)) => match update_spec(m1, recs.last(), mode) {
                Err(e) => Err(e),
                Ok((m2, ev)) => Ok((m2, evs.push(ev))),
            },
        }
    }
}

/// The records at `keys`, in order, or the first key that has none.
pub open spec fn load_many_spec(m: NodeMap, keys: Seq<Seq<u8>>) -> Result<Seq<NodeRecord>, Seq<u8>>
    decreases keys.len(),
{
    if keys.len() == 0 {
        Ok(Seq::empty())
    } else {
        match load_many_spec(m, keys.drop_last()) {
            Err(k) => Err(k),
            Ok(rs) => if m.dom().contains(keys.last()) {
                Ok(rs.push(m[keys.last()]))
            } else {
                Err(keys.last())
            },
        }
    }
}

/// The node catalogue.
pub struct NodeTable {
    map: AddrMap<NodeRecord>,
}

impl NodeTable {
    pub closed spec fn view(&self) -> NodeMap {
        self.map@
    }

    /// The table is well formed, and every record is stored under its own
    /// address.
    pub open spec fn wf(&self) -> bool {
        self.map_wf() && keys_match(self@)
    }

    pub closed spec fn map_wf(&self) -> bool {
        self.map.wf()
    }

    pub fn new() -> (r: NodeTable)
        ensures
            r.wf(),
            r@ == Map::<Seq<u8>, NodeRecord>::empty(),
    {
        NodeTable { map: AddrMap::new() }
    }

    /// Number of records.
    pub fn len(&self) -> (r: usize)
        requires
            self.wf(),
        ensures
            r == self@.dom().len(),
    {
        self.map.len()
    }

    /// The addresses of all records, each once, in key order.
    pub fn list(&self) -> (r: Vec<NodeAddress>)
        requires
            self.wf(),
        ensures
            key_views(r@).to_set() == self@.dom(),
            key_views(r@).no_duplicates(),
            r@.len() == self@.dom().len(),
            forall|i: int, j: int|
                0 <= i < j < r@.len() ==> addr_key(#[trigger] r@[i]@) < addr_key(#[trigger] r@[j]@),
    {
        self.map.addresses()
    }

    /// The record of `address`, if any.
    pub fn get(&self, address: &NodeAddress) -> (r: Option<NodeRecord>)
        requires
            self.wf(),
        ensures
            r == (if self@.dom().contains(address@) {
                Some(self@[address@])
            } else {
                None
            }),
    {
        self.map.get(address)
    }

    /// The records of `keys`, in order; fails with the first key that has none.
    pub fn load_many(&self, keys: &[NodeAddress]) -> (r: Result<Vec<NodeRecord>, StoreError>)
        requires
            self.wf(),
        ensures
            match load_many_spec(self@, key_views(keys@)) {
                Ok(rs) => r is Ok && r->Ok_0@ == rs,
                Err(k) => r is Err && r->Err_0 is NotFound && r->Err_0->NotFound_0@ == k,
            },
    {
        let mut out: Vec<NodeRecord> = Vec::new();
        let mut i: usize = 0;
        while i < keys.len()
            invariant
                self.wf(),
                0 <= i <= keys@.len(),
                load_many_spec(self@, key_views(keys@).subrange(0, i as int)) == Ok::<
                    Seq<NodeRecord>,
                    Seq<u8>,
                >(out@),
            decreases keys@.len() - i,
        {
            proof {
                let kv = key_views(keys@);
                assert(kv.subrange(0, i + 1).drop_last() =~= kv.subrange(0, i as int));
                assert(kv.subrange(0, i + 1).last() == keys@[i as int]@);
            }
            match self.map.get(&keys[i]) {
                Some(rec) => {
                    out.push(rec);
                },
                None => {
                    proof {
                        let kv = key_views(keys@);
                        lemma_load_many_stops(self@, kv, i as int + 1);
                    }
                    return Err(StoreError::NotFound(keys[i]));
                },
            }
            i = i + 1;
        }
        proof {
            assert(key_views(keys@).subrange(0, keys@.len() as int) =~= key_views(keys@));
        }
        Ok(out)
    }

    /// Writes `rec` under `address` as `mode` allows, and gives the event of
    /// the write.
    pub fn update(&mut self, address: &NodeAddress, rec: &NodeRecord, mode: UpdateMode) -> (r: Result<Event, StoreError>)
        requires
            old(self).wf(),
            rec.address@ == address@,
        ensures
            final(self).wf(),
            match update_spec(old(self)@, *rec, mode) {
                Ok((m, ev)) => r == Ok::<Event, StoreError>(ev) && final(self)@ == m,
                Err(e) => r == Err::<Event, StoreError>(e) && final(self)@ == old(self)@,
            },
    {
        let exists = self.map.get(address).is_some();
        match mode {
            UpdateMode::MustCreate => {
                if exists {
                    return Err(StoreError::AlreadyExists(rec.address));
                }
            },
            UpdateMode::MustExist => {
                if !exists {
                    return Err(StoreError::NotFound(rec.address));
                }
            },
            UpdateMode::UpdateOrCreate => {},
        }
        let prev = self.map.insert(address, *rec);
        proof {
            assert(keys_match(self.map@));
        }
        if prev {
            Ok(Event::NodeModified(*rec))
        } else {
            Ok(Event::NodeAdded(*rec))
        }
    }

    /// Read-modify-write of the record of `address`: `f` gets the current
    /// record, if any; where it gives one back, that record is written and
    /// its event given; where it gives none, nothing changes.
    pub fn modify<F>(&mut self, address: &NodeAddress, f: F) -> (r: Option<Event>)
        where
            F: FnOnce(Option<NodeRecord>) -> Option<NodeRecord>,
        requires
            old(self).wf(),
            forall|o: Option<NodeRecord>| f.requires((o,)),
            forall|o: Option<NodeRecord>, n: Option<NodeRecord>|
                f.ensures((o,), n) && n is Some ==> (#[trigger] n->Some_0).address@ == address@,
        ensures
            final(self).wf(),
            ({
                let cur = if old(self)@.dom().contains(address@) {
                    Some(old(self)@[address@])
                } else {
                    None
                };
                match r {
                    None => f.ensures((cur,), None::<NodeRecord>) && final(self)@ == old(self)@,
                    Some(ev) => {
                        &&& f.ensures((cur,), Some(ev.record()))
                        &&& final(self)@ == old(self)@.insert(address@, ev.record())
                        &&& (ev is NodeAdded <==> !old(self)@.dom().contains(address@))
                    },
                }
            }),
    {
        let cur = self.map.get(address);
        match f(cur) {
            None => None,
            Some(rec) => {
                let prev = self.map.insert(address, rec);
                proof {
                    assert(keys_match(self.map@));
                }
                if prev {
                    Some(Event::NodeModified(rec))
                } else {
                    Some(Event::NodeAdded(rec))
                }
            },
        }
    }

    /// Removes the records of `keys`; gives the addresses that had one, in
    /// the order of `keys`.
    pub fn remove_many(&mut self, keys: &[NodeAddress]) -> (r: Vec<NodeAddress>)
        requires
            old(self).wf(),
        ensures
            final(self).wf(),
            final(self)@ == old(self)@.remove_keys(key_views(keys@).to_set()),
            key_views(r@).to_set() == old(self)@.dom().intersect(key_views(keys@).to_set()),
    {
        let mut removed: Vec<NodeAddress> = Vec::new();
        let mut i: usize = 0;
        while i < keys.len()
            invariant
                self.wf(),
                0 <= i <= keys@.len(),
                self@ == old(self)@.remove_keys(key_views(keys@.subrange(0, i as int)).to_set()),
                key_views(removed@).to_set() == old(self)@.dom().intersect(
                    key_views(keys@.subrange(0, i as int)).to_set(),
                ),
            decreases keys@.len() - i,
        {
            let ghost before = removed@;
            let existed = self.map.remove(&keys[i]);
            if existed {
                removed.push(keys[i]);
            }
            i = i + 1;
            proof {
                let ks = key_views(keys@.subrange(0, i as int));
                let ps = key_views(keys@.subrange(0, i - 1));
                assert(ks =~= ps.push(keys@[i - 1]@));
                assert(ks.to_set() =~= ps.to_set().insert(keys@[i - 1]@)) by {
                    assert forall|k: Seq<u8>| ks.to_set().contains(k) <==> ps.to_set().insert(keys@[i - 1]@).contains(k) by {
                        if ks.contains(k) && k != keys@[i - 1]@ {
                            let j = choose|j: int| 0 <= j < ks.len() && ks[j] == k;
                            assert(ps[j] == k);
                        }
                        if ps.contains(k) {
                            let j = choose|j: int| 0 <= j < ps.len() && ps[j] == k;
                            assert(ks[j] == k);
                        }
                        if k == keys@[i - 1]@ {
                            assert(ks[i - 1] == k);
                        }
                    }
                }
                assert(self@ =~= old(self)@.remove_keys(ks.to_set()));
                if existed {
                    assert(key_views(removed@) =~= key_views(before).push(keys@[i - 1]@));
                    lemma_push_to_set(key_views(before), keys@[i - 1]@);
                } else {
                    assert(key_views(removed@) =~= key_views(before));
                }
                assert(key_views(removed@).to_set() =~= old(self)@.dom().intersect(ks.to_set()));
            }
        }
        proof {
            assert(keys@.subrange(0, keys@.len() as int) =~= keys@);
        }
        removed
    }

    /// Writes every record of `recs` under its address as `mode` allows, all
    /// or nothing; gives one event per write, in order.
    pub fn update_many(&mut self, recs: &[NodeRecord], mode: UpdateMode) -> (r: Result<Vec<Event>, StoreError>)
        requires
            old(self).wf(),
        ensures
            final(self).wf(),
            match update_many_spec(old(self)@, recs@, mode) {
                Ok((m, evs)) => r is Ok && r->Ok_0@ == evs && final(self)@ == m,
                Err(e) => r == Err::<Vec<Event>, StoreError>(e) && final(self)@ == old(self)@,
            },
    {
        let mut work = self.copy();
        let mut events: Vec<Event> = Vec::new();
        let mut i: usize = 0;
        while i < recs.len()
            invariant
                work.wf(),
                self.wf(),
                self@ == old(self)@,
                0 <= i <= recs@.len(),
                update_many_spec(old(self)@, recs@.subrange(0, i as int), mode) == Ok::<
                    (NodeMap, Seq<Event>),
                    StoreError,
                >((work@, events@)),
            decreases recs@.len() - i,
        {
            proof {
                assert(recs@.subrange(0, i + 1).drop_last() =~= recs@.subrange(0, i as int));
            }
            let rec = recs[i];
            match work.update(&rec.address, &rec, mode) {
                Ok(ev) => {
                    events.push(ev);
                },
                Err(e) => {
                    proof {
                        lemma_update_many_stops(old(self)@, recs@, mode, i as int + 1);
                    }
                    return Err(e);
                },
            }
            i = i + 1;
        }
        proof {
            assert(recs@.subrange(0, recs@.len() as int) =~= recs@);
        }
        *self = work;
        Ok(events)
    }

    /// A copy of the catalogue.
    pub fn copy(&self) -> (r: NodeTable)
        requires
            self.wf(),
        ensures
            r.wf(),
            r@ == self@,
    {
        let keys = self.map.addresses();
        let mut out = NodeTable::new();
        let mut i: usize = 0;
        while i < keys.len()
            invariant
                self.wf(),
                out.wf(),
                0 <= i <= keys@.len(),
                key_views(keys@).to_set() == self@.dom(),
                out@ == self@.restrict(key_views(keys@.subrange(0, i as int)).to_set()),
            decreases keys@.len() - i,
        {
            proof {
                assert(key_views(keys@).contains(keys@[i as int]@)) by {
                    assert(key_views(keys@)[i as int] == keys@[i as int]@);
                }
            }
            let rec = self.map.get(&keys[i]);
            match rec {
                Some(rec) => {
                    out.map.insert(&keys[i], rec);
                },
                None => {},
            }
            i = i + 1;
            proof {
                let ks = key_views(keys@.subrange(0, i as int));
                let ps = key_views(keys@.subrange(0, i - 1));
                assert(ks =~= ps.push(keys@[i - 1]@));
                lemma_push_to_set(ps, keys@[i - 1]@);
                assert(out@ =~= self@.restrict(ks.to_set()));
            }
        }
        proof {
            assert(keys@.subrange(0, keys@.len() as int) =~= keys@);
            assert(out@ =~= self@);
        }
        out
    }
}

/// Adding an element to a sequence adds it to its set.
pub proof fn lemma_push_to_set(s: Seq<Seq<u8>>, x: Seq<u8>)
    ensures
        s.push(x).to_set() == s.to_set().insert(x),
{
    let t = s.push(x);
    assert forall|k: Seq<u8>| t.to_set().contains(k) <==> s.to_set().insert(x).contains(k) by {
        if t.contains(k) && k != x {
            let j = choose|j: int| 0 <= j < t.len() && t[j] == k;
            assert(s[j] == k);
        }
        if s.contains(k) {
            let j = choose|j: int| 0 <= j < s.len() && s[j] == k;
            assert(t[j] == k);
        }
        if k == x {
            assert(t[s.len() as int] == k);
        }
    }
    assert(t.to_set() =~= s.to_set().insert(x));
}

proof fn lemma_load_many_stops(m: NodeMap, keys: Seq<Seq<u8>>, i: int)
    requires
        0 < i <= keys.len(),
        load_many_spec(m, keys.subrange(0, i)) is Err,
    ensures
        load_many_spec(m, keys) == load_many_spec(m, keys.subrange(0, i)),
    decreases keys.len() - i,
{
    if i < keys.len() {
        assert(keys.subrange(0, i + 1).drop_last() =~= keys.subrange(0, i));
        lemma_load_many_stops(m, keys, i + 1);
    } else {
        assert(keys.subrange(0, i) =~= keys);
    }
}

proof fn lemma_update_many_stops(m: NodeMap, recs: Seq<NodeRecord>, mode: UpdateMode, i: int)
    requires
        0 < i <= recs.len(),
        update_many_spec(m, recs.subrange(0, i), mode) is Err,
    ensures
        update_many_spec(m, recs, mode) == update_many_spec(m, recs.subrange(0, i), mode),
    decreases recs.len() - i,
{
    if i < recs.len() {
        assert(recs.subrange(0, i + 1).drop_last() =~= recs.subrange(0, i));
        lemma_update_many_stops(m, recs, mode, i + 1);
    } else {
        assert(recs.subrange(0, i) =~= recs);
    }
}

/// Whether `a` is among `v`.
pub fn contains_address(v: &[NodeAddress], a: &NodeAddress) -> (r: bool)
    ensures
        r == key_views(v@).contains(a@),
{
    let mut i: usize = 0;
    while i < v.len()
        invariant
            0 <= i <= v@.len(),
            forall|j: int| 0 <= j < i ==> v@[j]@ != a@,
        decreases v@.len() - i,
    {
        if address_eq(&v[i], a) {
            proof {
                assert(key_views(v@)[i as int] == a@);
            }
            return true;
        }
        i = i + 1;
    }
    proof {
        if key_views(v@).contains(a@) {
            let j = choose|j: int| 0 <= j < key_views(v@).len() && key_views(v@)[j] == a@;
            assert(v@[j]@ == a@);
        }
    }
    false
}

/// A record of `k` with nothing observed yet.
pub open spec fn fresh_record(r: NodeRecord, k: Seq<u8>) -> bool {
    r.address@ == k && r.device_status is None && r.device_descriptor is None
}

/// `new` is `old` reconciled against the address set `model`: exactly the
/// addresses of `model`, those already present unchanged, the others fresh.
pub open spec fn reconciled(old: NodeMap, model: Set<Seq<u8>>, new: NodeMap) -> bool {
    &&& new.dom() == model
    &&& forall|k: Seq<u8>|
        #[trigger] model.contains(k) ==> if old.dom().contains(k) {
            new[k] == old[k]
        } else {
            fresh_record(new[k], k)
        }
}

/// The addresses of the records that events carry.
pub open spec fn event_keys(evs: Seq<Event>) -> Seq<Seq<u8>> {
    Seq::new(evs.len(), |i: int| evs[i].record().address@)
}

/// What a reconciliation did: the events of the records it added, and the
/// addresses it removed.
pub struct ReconcileOutcome {
    pub added: Vec<Event>,
    pub removed: Vec<NodeAddress>,
}

/// Reconciles the catalogue against an external node list: adds (as with
/// `MustCreate`) each listed address that has no record, and removes each
/// record whose address is not listed.
pub fn reconcile(table: &mut NodeTable, model: &[NodeAddress]) -> (r: ReconcileOutcome)
    requires
        old(table).wf(),
    ensures
        final(table).wf(),
        reconciled(old(table)@, key_views(model@).to_set(), final(table)@),
        forall|i: int| 0 <= i < r.added@.len() ==> (#[trigger] r.added@[i]) is NodeAdded,
        event_keys(r.added@).no_duplicates(),
        event_keys(r.added@).to_set() == key_views(model@).to_set().difference(old(table)@.dom()),
        key_views(r.removed@).to_set() == old(table)@.dom().difference(key_views(model@).to_set()),
{
    let ghost m0 = table@;
    let ghost ms = key_views(model@).to_set();
    let mut added: Vec<Event> = Vec::new();
    let mut i: usize = 0;
    while i < model.len()
        invariant
            table.wf(),
            0 <= i <= model@.len(),
            ms == key_views(model@).to_set(),
            table@.dom() == m0.dom().union(key_views(model@.subrange(0, i as int)).to_set()),
            forall|k: Seq<u8>| #[trigger] m0.dom().contains(k) ==> table@[k] == m0[k],
            forall|k: Seq<u8>|
                #[trigger] table@.dom().contains(k) && !m0.dom().contains(k) ==> fresh_record(
                    table@[k],
                    k,
                ),
            forall|j: int| 0 <= j < added@.len() ==> (#[trigger] added@[j]) is NodeAdded,
            event_keys(added@).no_duplicates(),
            event_keys(added@).to_set() == key_views(model@.subrange(0, i as int)).to_set().difference(
                m0.dom(),
            ),
        decreases model@.len() - i,
    {
        let a = model[i];
        let ghost before = added@;
        let ghost t0 = table@;
        if table.get(&a).is_none() {
            let rec = NodeRecord::new(&a);
            let res = table.update(&a, &rec, UpdateMode::MustCreate);
            match res {
                Ok(ev) => {
                    added.push(ev);
                },
                Err(_) => {},
            }
            proof {
                assert(event_keys(added@) =~= event_keys(before).push(a@));
                lemma_push_to_set(event_keys(before), a@);
                assert forall|x: int, y: int| 0 <= x < y < event_keys(added@).len() implies event_keys(added@)[x] != event_keys(added@)[y] by {
                    if y == before.len() {
                        assert(event_keys(before).contains(event_keys(added@)[x])) by {
                            assert(event_keys(before)[x] == event_keys(added@)[x]);
                        }
                        assert(event_keys(before).to_set().contains(event_keys(added@)[x]));
                    } else {
                        assert(event_keys(before)[x] == event_keys(added@)[x]);
                        assert(event_keys(before)[y] == event_keys(added@)[y]);
                    }
                }
            }
        } else {
            proof {
                assert(event_keys(added@) =~= event_keys(before));
            }
        }
        i = i + 1;
        proof {
            let ks = key_views(model@.subrange(0, i as int));
            let ps = key_views(model@.subrange(0, i - 1));
            assert(ks =~= ps.push(a@));
            lemma_push_to_set(ps, a@);
            assert(table@.dom() =~= m0.dom().union(ks.to_set()));
            assert(event_keys(added@).to_set() =~= ks.to_set().difference(m0.dom()));
        }
    }
    proof {
        assert(model@.subrange(0, model@.len() as int) =~= model@);
    }
    let keys = table.list();
    let mut stale: Vec<NodeAddress> = Vec::new();
    let mut j: usize = 0;
    while j < keys.len()
        invariant
            0 <= j <= keys@.len(),
            ms == key_views(model@).to_set(),
            key_views(stale@).to_set() == key_views(keys@.subrange(0, j as int)).to_set().difference(ms),
        decreases keys@.len() - j,
    {
        let ghost before = stale@;
        let k = keys[j];
        if !contains_address(model, &k) {
            stale.push(k);
            proof {
                assert(key_views(stale@) =~= key_views(before).push(k@));
                lemma_push_to_set(key_views(before), k@);
            }
        } else {
            proof {
                assert(key_views(stale@) =~= key_views(before));
            }
        }
        j = j + 1;
        proof {
            let ks = key_views(keys@.subrange(0, j as int));
            let ps = key_views(keys@.subrange(0, j - 1));
            assert(ks =~= ps.push(k@));
            lemma_push_to_set(ps, k@);
            assert(key_views(stale@).to_set() =~= ks.to_set().difference(ms));
        }
    }
    proof {
        assert(keys@.subrange(0, keys@.len() as int) =~= keys@);
    }
    let ghost t1 = table@;
    let removed = table.remove_many(stale.as_slice());
    proof {
        assert(table@.dom() =~= ms);
        assert(key_views(removed@).to_set() =~= m0.dom().difference(ms));
        assert forall|k: Seq<u8>| #[trigger] ms.contains(k) implies if m0.dom().contains(k) {
            table@[k] == m0[k]
        } else {
            fresh_record(table@[k], k)
        } by {
            assert(t1.dom().contains(k));
        }
    }
    ReconcileOutcome { added, removed }
}

/// Reconciling twice against the same list: the second pass changes
/// nothing, adds nothing and removes nothing.
pub proof fn lemma_reconcile_idempotent(
    m0: NodeMap,
    model: Set<Seq<u8>>,
    m1: NodeMap,
    m2: NodeMap,
)
    requires
        reconciled(m0, model, m1),
        reconciled(m1, model, m2),
    ensures
        m2 == m1,
        model.difference(m1.dom()) == Set::<Seq<u8>>::empty(),
        m1.dom().difference(model) == Set::<Seq<u8>>::empty(),
{
    assert(m2 =~= m1);
    assert(model.difference(m1.dom()) =~= Set::<Seq<u8>>::empty());
    assert(m1.dom().difference(model) =~= Set::<Seq<u8>>::empty());
}

/// A record written by `update` is the record that `load_many` gives back
/// for its address.
pub proof fn lemma_update_then_load(m: NodeMap, rec: NodeRecord, mode: UpdateMode)
    requires
        update_spec(m, rec, mode) is Ok,
    ensures
        load_many_spec(update_spec(m, rec, mode)->Ok_0.0, seq![rec.address@]) == Ok::<
            Seq<NodeRecord>,
            Seq<u8>,
        >(seq![rec]),
{
    let m1 = update_spec(m, rec, mode)->Ok_0.0;
    let ks = seq![rec.address@];
    assert(ks.drop_last() =~= Seq::<Seq<u8>>::empty());
    assert(load_many_spec(m1, ks.drop_last()) == Ok::<Seq<NodeRecord>, Seq<u8>>(Seq::empty()));
    assert(Seq::<NodeRecord>::empty().push(rec) =~= seq![rec]);
}

/// A write that `update` commits gives exactly one event, which carries the
/// committed record and is `NodeAdded` exactly when the address was new;
/// a refused write changes nothing.
pub proof fn lemma_update_event(m: NodeMap, rec: NodeRecord, mode: UpdateMode)
    ensures
        update_spec(m, rec, mode) is Ok ==> {
            let (m1, ev) = update_spec(m, rec, mode)->Ok_0;
            &&& ev.record() == rec
            &&& m1[rec.address@] == ev.record()
            &&& m1 == m.insert(rec.address@, rec)
            &&& (ev is NodeAdded <==> !m.dom().contains(rec.address@))
        },
{
}

/// A committed batch gives one event per write, in order, each carrying the
/// record written.
pub proof fn lemma_update_many_events(m: NodeMap, recs: Seq<NodeRecord>, mode: UpdateMode)
    requires
        update_many_spec(m, recs, mode) is Ok,
    ensures
        update_many_spec(m, recs, mode)->Ok_0.1.len() == recs.len(),
        forall|i: int|
            0 <= i < recs.len() ==> (#[trigger] update_many_spec(m, recs, mode)->Ok_0.1[i]).record()
                == recs[i],
    decreases recs.len(),
{
    if recs.len() > 0 {
        lemma_update_many_events(m, recs.drop_last(), mode);
        let evs = update_many_spec(m, recs, mode)->Ok_0.1;
        let pre = update_many_spec(m, recs.drop_last(), mode)->Ok_0.1;
        assert forall|i: int| 0 <= i < recs.len() implies (#[trigger] evs[i]).record() == recs[i] by {
            if i < recs.len() - 1 {
                assert(evs[i] == pre[i]);
                assert(recs.drop_last()[i] == recs[i]);
            }
        }
    }
}

/// A record written under its address is what `load_many` gives back for
/// that address: the write of `update`, of `modify` and of a batch all
/// insert the record so.
pub proof fn lemma_write_then_load(m: NodeMap, rec: NodeRecord)
    ensures
        load_many_spec(m.insert(rec.address@, rec), seq![rec.address@]) == Ok::<
            Seq<NodeRecord>,
            Seq<u8>,
        >(seq![rec]),
{
    let m1 = m.insert(rec.address@, rec);
    let ks = seq![rec.address@];
    assert(ks.drop_last() =~= Seq::<Seq<u8>>::empty());
    assert(load_many_spec(m1, ks.drop_last()) == Ok::<Seq<NodeRecord>, Seq<u8>>(Seq::empty()));
    assert(Seq::<NodeRecord>::empty().push(rec) =~= seq![rec]);
}

proof fn lemma_update_many_keeps(m: NodeMap, recs: Seq<NodeRecord>, mode: UpdateMode, i: int)
    requires
        update_many_spec(m, recs, mode) is Ok,
        0 <= i < recs.len(),
        forall|j: int| i < j < recs.len() ==> (#[trigger] recs[j]).address@ != recs[i].address@,
    ensures
        update_many_spec(m, recs, mode)->Ok_0.0.dom().contains(recs[i].address@),
        update_many_spec(m, recs, mode)->Ok_0.0[recs[i].address@] == recs[i],
    decreases recs.len(),
{
    let pre = recs.drop_last();
    let m1 = update_many_spec(m, pre, mode)->Ok_0.0;
    if i < recs.len() - 1 {
        assert forall|j: int| i < j < pre.len() implies (#[trigger] pre[j]).address@ != pre[i].address@ by {
            assert(pre[j] == recs[j]);
        }
        lemma_update_many_keeps(m, pre, mode, i);
        assert(pre[i] == recs[i]);
        assert(recs.last().address@ != recs[i].address@) by {
            assert(recs[recs.len() - 1] == recs.last());
        }
    }
}

/// The last record that a committed batch writes for an address is what
/// `load_many` gives back for that address.
pub proof fn lemma_update_many_then_load(m: NodeMap, recs: Seq<NodeRecord>, mode: UpdateMode, i: int)
    requires
        update_many_spec(m, recs, mode) is Ok,
        0 <= i < recs.len(),
        forall|j: int| i < j < recs.len() ==> (#[trigger] recs[j]).address@ != recs[i].address@,
    ensures
        load_many_spec(update_many_spec(m, recs, mode)->Ok_0.0, seq![recs[i].address@]) == Ok::<
            Seq<NodeRecord>,
            Seq<u8>,
        >(seq![recs[i]]),
{
    lemma_update_many_keeps(m, recs, mode, i);
    let m1 = update_many_spec(m, recs, mode)->Ok_0.0;
    let ks = seq![recs[i].address@];
    assert(ks.drop_last() =~= Seq::<Seq<u8>>::empty());
    assert(load_many_spec(m1, ks.drop_last()) == Ok::<Seq<NodeRecord>, Seq<u8>>(Seq::empty()));
    assert(Seq::<NodeRecord>::empty().push(recs[i]) =~= seq![recs[i]]);
}

} // verus!
