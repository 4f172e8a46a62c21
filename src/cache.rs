use vstd::prelude::*;
use crate::envelope::Envelope;
use crate::queue_model::{
    EntryModel, QueueState, guid_index, insert_spec, admits, remove_spec, remove_all_spec, removed_spec, page_spec, lead_upto, lemma_lead_upto_bounds,
    lemma_guid_index, lemma_insert_wf, lemma_remove_wf,
};

verus! {

/// An envelope together with its position in one device's queue.
pub struct QueueEntry {
    pub sequence: u64,
    pub envelope: Envelope,
}

impl View for QueueEntry {
    type V = EntryModel;

    open spec fn view(&self) -> EntryModel {
        EntryModel { sequence: self.sequence, envelope: self.envelope@ }
    }
}

impl QueueEntry {
    /// A copy with the same value.
    pub fn duplicate(&self) -> (r: QueueEntry)
        ensures
            r@ == self@,
    {
        QueueEntry { sequence: self.sequence, envelope: self.envelope.duplicate() }
    }
}

/// The text of each string.
pub open spec fn texts(v: Seq<String>) -> Seq<Seq<char>> {
    v.map_values(|s: String| s@)
}

pub open spec fn entry_models(v: Seq<QueueEntry>) -> Seq<EntryModel> {
    v.map_values(|e: QueueEntry| e@)
}

/// Failure of a cache operation.
#[derive(Clone, Copy, Debug, PartialEq, Eq, Structural)]
pub enum CacheError {
    /// The write could not be made: the device's sequence numbers are used up.
    StorageError,
}

/// Everything the cache holds for one device.
pub ghost struct DeviceModel {
    pub queue: QueueState,
    /// Server timestamp of the last envelope admitted (0 when none was).
    pub last_insert: u64,
    /// Whether a migration of this queue to the durable tier is under way.
    pub persisting: bool,
    /// How many of the oldest entries have moved to the durable tier; the
    /// rest are in the fast tier. Reads see both as one sequence.
    pub durable: nat,
}

/// The metadata record of one device's queue.
#[derive(Clone, Copy, Debug, PartialEq, Eq, Structural)]
pub struct QueueMetadata {
    pub count: usize,
    pub next_sequence: u64,
    pub last_insert: u64,
    pub persisting: bool,
    pub durable: usize,
}

struct DeviceQueue {
    identity: u128,
    device: u32,
    next_sequence: u64,
    last_insert: u64,
    persisting: bool,
    durable: usize,
    entries: Vec<QueueEntry>,
}

impl DeviceQueue {
    spec fn model(self) -> DeviceModel {
        DeviceModel {
            queue: QueueState {
                entries: entry_models(self.entries@),
                next_sequence: self.next_sequence,
            },
            last_insert: self.last_insert,
            persisting: self.persisting,
            durable: self.durable as nat,
        }
    }

    spec fn well_formed(self) -> bool {
        self.model().queue.wf() && self.durable <= self.entries@.len()
    }
}

/// The delivery cache: the per-device ordered queues, keyed by (identity, device).
pub struct DummyMessagesCache {
    queues: Vec<DeviceQueue>,
}

pub open spec fn empty_device() -> DeviceModel {
    DeviceModel { queue: QueueState::empty(), last_insert: 0, persisting: false, durable: 0 }
}

impl DummyMessagesCache {
    spec fn slot(self, i: int, identity: u128, device: u32) -> bool {
        0 <= i < self.queues@.len() && self.queues@[i].identity == identity
            && self.queues@[i].device == device
    }

    spec fn keys_unique(self) -> bool {
        forall|i: int, j: int|
            0 <= i < self.queues@.len() && 0 <= j < self.queues@.len() && i != j ==> !(
            #[trigger] self.queues@[i].identity == #[trigger] self.queues@[j].identity
                && self.queues@[i].device == self.queues@[j].device)
    }

    /// What the cache holds for the device (an empty queue when it holds nothing).
    pub closed spec fn device(self, identity: u128, device: u32) -> DeviceModel {
        if exists|i: int| self.slot(i, identity, device) {
            self.queues@[choose|i: int| self.slot(i, identity, device)].model()
        } else {
            empty_device()
        }
    }

    /// The device's queue.
    pub open spec fn state(self, identity: u128, device: u32) -> QueueState {
        self.device(identity, device).queue
    }

    pub closed spec fn wf(self) -> bool {
        &&& self.keys_unique()
        &&& forall|i: int| 0 <= i < self.queues@.len() ==> (#[trigger] self.queues@[i]).well_formed()
    }

    proof fn lemma_slot_model(self, i: int)
        requires
            self.keys_unique(),
            0 <= i < self.queues@.len(),
        ensures
            self.device(self.queues@[i].identity, self.queues@[i].device) == self.queues@[i].model(),
    {
        let (a, b) = (self.queues@[i].identity, self.queues@[i].device);
        assert(self.slot(i, a, b));
        let j = choose|j: int| self.slot(j, a, b);
        assert(self.slot(j, a, b));
    }

    /// In a well-formed cache every device's queue is well formed: sequence
    /// numbers increase and stay below the high-water mark, and guids are unique.
    pub proof fn lemma_state_wf(self, identity: u128, device: u32)
        requires
            self.wf(),
        ensures
            self.state(identity, device).wf(),
            self.device(identity, device).durable <= self.state(identity, device).count(),
    {
        if exists|i: int| self.slot(i, identity, device) {
            let j = choose|j: int| self.slot(j, identity, device);
            assert(self.slot(j, identity, device));
            assert(self.queues@[j].well_formed());
        }
    }

    /// Replacing the queue at `i` by one with the same key changes that device only.
    proof fn lemma_update(c1: DummyMessagesCache, c2: DummyMessagesCache, i: int)
        requires
            c1.keys_unique(),
            0 <= i < c1.queues@.len(),
            c2.queues@.len() == c1.queues@.len(),
            c2.queues@[i].identity == c1.queues@[i].identity,
            c2.queues@[i].device == c1.queues@[i].device,
            forall|j: int| 0 <= j < c1.queues@.len() && j != i ==> c2.queues@[j] == c1.queues@[j],
        ensures
            c2.keys_unique(),
            c2.device(c1.queues@[i].identity, c1.queues@[i].device) == c2.queues@[i].model(),
            forall|a: u128, b: u32|
                !(a == c1.queues@[i].identity && b == c1.queues@[i].device)
                    ==> #[trigger] c2.device(a, b) == c1.device(a, b),
    {
        assert forall|p: int, q: int|
            0 <= p < c2.queues@.len() && 0 <= q < c2.queues@.len() && p != q implies !(
            #[trigger] c2.queues@[p].identity == #[trigger] c2.queues@[q].identity
                && c2.queues@[p].device == c2.queues@[q].device) by {
            assert(c1.queues@[p].identity == c2.queues@[p].identity);
            assert(c1.queues@[q].identity == c2.queues@[q].identity);
        }
        c2.lemma_slot_model(i);
        assert forall|a: u128, b: u32|
            !(a == c1.queues@[i].identity && b == c1.queues@[i].device)
                implies #[trigger] c2.device(a, b) == c1.device(a, b) by {
            DummyMessagesCache::lemma_device_kept(c1, c2, a, b);
        }
    }

    /// Where both caches hold the same queue at the same index for (`a`, `b`),
    /// or neither holds one, the device is the same in both.
    proof fn lemma_device_kept(c1: DummyMessagesCache, c2: DummyMessagesCache, a: u128, b: u32)
        requires
            c1.keys_unique(),
            c2.keys_unique(),
            forall|j: int|
                #[trigger] c1.slot(j, a, b) ==> j < c2.queues@.len() && c2.queues@[j]
                    == c1.queues@[j],
            forall|j: int|
                #[trigger] c2.slot(j, a, b) ==> j < c1.queues@.len() && c2.queues@[j]
                    == c1.queues@[j],
        ensures
            c2.device(a, b) == c1.device(a, b),
    {
        if exists|j: int| c1.slot(j, a, b) {
            let j = choose|j: int| c1.slot(j, a, b);
            assert(c1.slot(j, a, b));
            assert(c2.slot(j, a, b));
            c1.lemma_slot_model(j);
            c2.lemma_slot_model(j);
        } else {
            assert forall|j: int| !c2.slot(j, a, b) by {
                if c2.slot(j, a, b) {
                    assert(c1.slot(j, a, b));
                }
            }
        }
    }

    /// Every device but (`identity`, `device`) holds in `self` what it holds in `other`.
    pub open spec fn unchanged_except(self, other: DummyMessagesCache, identity: u128, device: u32) -> bool {
        forall|a: u128, b: u32|
            !(a == identity && b == device) ==> #[trigger] self.device(a, b) == other.device(a, b)
    }

    /// An empty cache.
    pub fn new() -> (r: DummyMessagesCache)
        ensures
            r.wf(),
            forall|a: u128, b: u32| #[trigger] r.device(a, b) == empty_device(),
    {
        DummyMessagesCache { queues: Vec::new() }
    }

    fn find_queue(&self, identity: u128, device: u32) -> (r: Option<usize>)
        ensures
            match r {
                Some(i) => self.slot(i as int, identity, device),
                None => forall|i: int| !self.slot(i, identity, device),
            },
    {
        let mut i: usize = 0;
        while i < self.queues.len()
            invariant
                i <= self.queues@.len(),
                forall|j: int| 0 <= j < i ==> !self.slot(j, identity, device),
            decreases self.queues@.len() - i,
        {
            if self.queues[i].identity == identity && self.queues[i].device == device {
                return Some(i);
            }
            i = i + 1;
        }
        None
    }

    /// Index of the queue for the device, creating an empty one if there is none.
    fn queue_slot(&mut self, identity: u128, device: u32) -> (r: usize)
        requires
            old(self).wf(),
        ensures
            final(self).wf(),
            final(self).slot(r as int, identity, device),
            forall|a: u128, b: u32| #[trigger] final(self).device(a, b) == old(self).device(a, b),
    {
        match self.find_queue(identity, device) {
            Some(i) => i,
            None => {
                let ghost c1 = *self;
                self.queues.push(
                    DeviceQueue {
                        identity,
                        device,
                        next_sequence: 0,
                        last_insert: 0,
                        persisting: false,
                        durable: 0,
                        entries: Vec::new(),
                    },
                );
                let n = self.queues.len() - 1;
                proof {
                    let c2 = *self;
                    assert(entry_models(Seq::<QueueEntry>::empty()) =~= Seq::<EntryModel>::empty());
                    assert forall|p: int, q: int|
                        0 <= p < c2.queues@.len() && 0 <= q < c2.queues@.len() && p != q implies !(
                        #[trigger] c2.queues@[p].identity == #[trigger] c2.queues@[q].identity
                            && c2.queues@[p].device == c2.queues@[q].device) by {
                        if p == n as int {
                            assert(!c1.slot(q, identity, device));
                        } else if q == n as int {
                            assert(!c1.slot(p, identity, device));
                        } else {
                            assert(c1.queues@[p] == c2.queues@[p] && c1.queues@[q] == c2.queues@[q]);
                        }
                    }
                    assert forall|i: int| 0 <= i < c2.queues@.len() implies (
                    #[trigger] c2.queues@[i]).well_formed() by {
                        if i < n {
                            assert(c1.queues@[i] == c2.queues@[i]);
                        }
                    }
                    c2.lemma_slot_model(n as int);
                    assert forall|a: u128, b: u32| #[trigger] c2.device(a, b) == c1.device(a, b) by {
                        if !(a == identity && b == device) {
                            assert forall|j: int| #[trigger] c2.slot(j, a, b) implies j
                                < c1.queues@.len() && c2.queues@[j] == c1.queues@[j] by {
                                assert(j != n);
                            }
                            DummyMessagesCache::lemma_device_kept(c1, c2, a, b);
                        }
                    }
                }
                n
            },
        }
    }

    /// Position of the entry carrying guid `g`, found the way `guid_index` finds it.
    fn find_guid(entries: &Vec<QueueEntry>, g: &String) -> (r: Option<usize>)
        ensures
            match r {
                Some(k) => k as int == guid_index(entry_models(entries@), g@),
                None => guid_index(entry_models(entries@), g@) < 0,
            },
    {
        let ghost es = entry_models(entries@);
        let mut i: usize = entries.len();
        assert(es.subrange(0, i as int) =~= es);
        while i > 0
            invariant
                i <= entries@.len(),
                es == entry_models(entries@),
                guid_index(es, g@) == guid_index(es.subrange(0, i as int), g@),
            decreases i,
        {
            let eg = entries[i - 1].envelope.guid();
            let ghost sub = es.subrange(0, i as int);
            assert(sub.last() == entries@[i - 1]@);
            if eg == *g {
                return Some(i - 1);
            }
            assert(sub.drop_last() =~= es.subrange(0, i - 1));
            i = i - 1;
        }
        None
    }

    /// Admits `envelope` to the device's queue under the next sequence number and
    /// returns the new entry. An envelope whose guid is already queued is not
    /// stored again: the queued entry is returned. When the device's sequence
    /// numbers are used up, nothing changes and `StorageError` is returned.
    pub fn insert(&mut self, identity: u128, device: u32, envelope: Envelope) -> (r: Result<
        QueueEntry,
        CacheError,
    >)
        requires
            old(self).wf(),
        ensures
            final(self).wf(),
            final(self).state(identity, device) == insert_spec(
                old(self).state(identity, device),
                envelope@,
            ),
            final(self).device(identity, device).persisting == old(self).device(
                identity,
                device,
            ).persisting,
            final(self).device(identity, device).durable == old(self).device(
                identity,
                device,
            ).durable,
            final(self).device(identity, device).last_insert == if admits(
                old(self).state(identity, device),
                envelope@,
            ) {
                envelope@.stamp()
            } else {
                old(self).device(identity, device).last_insert
            },
            final(self).unchanged_except(*old(self), identity, device),
            r is Err <==> (!old(self).state(identity, device).contains_guid(envelope@.guid())
                && old(self).state(identity, device).next_sequence == u64::MAX),
            r matches Ok(x) ==> if old(self).state(identity, device).contains_guid(
                envelope@.guid(),
            ) {
                x@ == old(self).state(identity, device).entries[guid_index(
                    old(self).state(identity, device).entries,
                    envelope@.guid(),
                )]
            } else {
                x@ == (EntryModel {
                    sequence: old(self).state(identity, device).next_sequence,
                    envelope: envelope@,
                })
            },
    {
        let idx = self.queue_slot(identity, device);
        let ghost c1 = *self;
        proof {
            c1.lemma_slot_model(idx as int);
        }
        let g = envelope.guid();
        let found = Self::find_guid(&self.queues[idx].entries, &g);
        proof {
            lemma_guid_index(entry_models(self.queues@[idx as int].entries@), g@);
        }
        match found {
            Some(k) => Ok(self.queues[idx].entries[k].duplicate()),
            None => {
                if self.queues[idx].next_sequence == u64::MAX {
                    return Err(CacheError::StorageError);
                }
                let mut q = self.queues.remove(idx);
                let ghost q0 = q;
                let seq = q.next_sequence;
                let copy = QueueEntry { sequence: seq, envelope: envelope.duplicate() };
                q.last_insert = match envelope.server_timestamp {
                    Some(t) => t,
                    None => 0,
                };
                q.entries.push(QueueEntry { sequence: seq, envelope });
                q.next_sequence = seq + 1;
                let ghost q1 = q;
                self.queues.insert(idx, q);
                proof {
                    let c2 = *self;
                    assert(c2.queues@ =~= c1.queues@.update(idx as int, q1));
                    assert(entry_models(q1.entries@) =~= entry_models(q0.entries@).push(copy@));
                    lemma_insert_wf(q0.model().queue, copy.envelope@);
                    DummyMessagesCache::lemma_update(c1, c2, idx as int);
                }
                Ok(copy)
            },
        }
    }

    /// Removes the entry with the given guid from the device's queue and returns
    /// it; `None`, with nothing changed, when no entry has that guid.
    pub fn remove_by_guid(&mut self, identity: u128, device: u32, guid: &String) -> (r: Option<
        QueueEntry,
    >)
        requires
            old(self).wf(),
        ensures
            final(self).wf(),
            final(self).state(identity, device) == remove_spec(
                old(self).state(identity, device),
                guid@,
            ),
            final(self).device(identity, device).persisting == old(self).device(
                identity,
                device,
            ).persisting,
            final(self).device(identity, device).last_insert == old(self).device(
                identity,
                device,
            ).last_insert,
            final(self).unchanged_except(*old(self), identity, device),
            final(self).device(identity, device).durable == if old(self).state(
                identity,
                device,
            ).contains_guid(guid@) && guid_index(old(self).state(identity, device).entries, guid@)
                < old(self).device(identity, device).durable {
                (old(self).device(identity, device).durable - 1) as nat
            } else {
                old(self).device(identity, device).durable
            },
            r is Some <==> old(self).state(identity, device).contains_guid(guid@),
            r matches Some(x) ==> x@ == old(self).state(identity, device).entries[guid_index(
                old(self).state(identity, device).entries,
                guid@,
            )],
    {
        let idx = match self.find_queue(identity, device) {
            Some(i) => i,
            None => {
                return None;
            },
        };
        let ghost c1 = *self;
        proof {
            c1.lemma_slot_model(idx as int);
        }
        let found = Self::find_guid(&self.queues[idx].entries, guid);
        proof {
            lemma_guid_index(entry_models(self.queues@[idx as int].entries@), guid@);
        }
        match found {
            None => None,
            Some(k) => {
                let mut q = self.queues.remove(idx);
                let ghost q0 = q;
                let x = q.entries.remove(k);
                if k < q.durable {
                    q.durable = q.durable - 1;
                }
                let ghost q1 = q;
                self.queues.insert(idx, q);
                proof {
                    let c2 = *self;
                    assert(c2.queues@ =~= c1.queues@.update(idx as int, q1));
                    assert(entry_models(q1.entries@) =~= entry_models(q0.entries@).remove(
                        k as int,
                    ));
                    lemma_remove_wf(q0.model().queue, guid@);
                    DummyMessagesCache::lemma_update(c1, c2, idx as int);
                }
                Some(x)
            },
        }
    }

    /// Removes, one guid after another, each entry whose guid is listed; guids
    /// that match nothing are skipped. Returns the removed entries in that order.
    pub fn remove_batch(&mut self, identity: u128, device: u32, guids: &Vec<String>) -> (r: Vec<
        QueueEntry,
    >)
        requires
            old(self).wf(),
        ensures
            final(self).wf(),
            final(self).state(identity, device) == remove_all_spec(
                old(self).state(identity, device),
                texts(guids@),
            ),
            entry_models(r@) == removed_spec(old(self).state(identity, device), texts(guids@)),
            final(self).device(identity, device).durable <= old(self).device(identity, device).durable,
            final(self).device(identity, device).persisting == old(self).device(
                identity,
                device,
            ).persisting,
            final(self).device(identity, device).last_insert == old(self).device(
                identity,
                device,
            ).last_insert,
            final(self).unchanged_except(*old(self), identity, device),
    {
        let ghost gs = texts(guids@);
        let ghost s0 = self.state(identity, device);
        let mut r: Vec<QueueEntry> = Vec::new();
        let mut i: usize = 0;
        assert(gs.subrange(0, gs.len() as int) =~= gs);
        assert(entry_models(r@) + removed_spec(s0, gs) =~= removed_spec(s0, gs));
        while i < guids.len()
            invariant
                self.wf(),
                i <= guids@.len(),
                gs == texts(guids@),
                remove_all_spec(s0, gs) == remove_all_spec(
                    self.state(identity, device),
                    gs.subrange(i as int, gs.len() as int),
                ),
                removed_spec(s0, gs) == entry_models(r@) + removed_spec(
                    self.state(identity, device),
                    gs.subrange(i as int, gs.len() as int),
                ),
                self.device(identity, device).persisting == old(self).device(
                    identity,
                    device,
                ).persisting,
                self.device(identity, device).last_insert == old(self).device(
                    identity,
                    device,
                ).last_insert,
                self.unchanged_except(*old(self), identity, device),
                self.device(identity, device).durable <= old(self).device(identity, device).durable,
            decreases guids@.len() - i,
        {
            let ghost cur = self.state(identity, device);
            let ghost sub = gs.subrange(i as int, gs.len() as int);
            let ghost r0 = entry_models(r@);
            let x = self.remove_by_guid(identity, device, &guids[i]);
            proof {
                assert(sub[0] == guids@[i as int]@);
                assert(sub.drop_first() =~= gs.subrange(i + 1, gs.len() as int));
            }
            match x {
                Some(e) => {
                    r.push(e);
                    proof {
                        assert(entry_models(r@) =~= r0 + seq![e@]);
                        assert(r0 + (seq![e@] + removed_spec(
                            self.state(identity, device),
                            sub.drop_first(),
                        )) =~= entry_models(r@) + removed_spec(
                            self.state(identity, device),
                            sub.drop_first(),
                        ));
                    }
                },
                None => {
                    proof {
                        assert(Seq::<EntryModel>::empty() + removed_spec(
                            self.state(identity, device),
                            sub.drop_first(),
                        ) =~= removed_spec(self.state(identity, device), sub.drop_first()));
                    }
                },
            }
            i = i + 1;
        }
        proof {
            assert(gs.subrange(i as int, gs.len() as int) =~= Seq::<Seq<char>>::empty());
            assert(entry_models(r@) + Seq::<EntryModel>::empty() =~= entry_models(r@));
        }
        r
    }

    /// Reads up to `limit` entries of the device's queue, oldest first: from the
    /// front, or after the entry whose sequence number `after` gives. Changes nothing.
    pub fn read_queue(&self, identity: u128, device: u32, after: Option<u64>, limit: usize) -> (r:
        Vec<QueueEntry>)
        requires
            self.wf(),
        ensures
            entry_models(r@) == page_spec(self.state(identity, device).entries, after, limit as nat),
    {
        let idx = match self.find_queue(identity, device) {
            Some(i) => i,
            None => {
                let r: Vec<QueueEntry> = Vec::new();
                assert(entry_models(r@) =~= page_spec(
                    self.state(identity, device).entries,
                    after,
                    limit as nat,
                ));
                return r;
            },
        };
        proof {
            self.lemma_slot_model(idx as int);
        }
        let entries = &self.queues[idx].entries;
        let ghost es = entry_models(entries@);
        let k: usize = match after {
            Some(c) => Self::lead_count(entries, c),
            None => 0,
        };
        let end: usize = if limit < entries.len() - k {
            k + limit
        } else {
            entries.len()
        };
        let r = Self::copy_range(entries, k, end);
        assert(entry_models(r@) =~= page_spec(es, after, limit as nat));
        r
    }

    fn lead_count(entries: &Vec<QueueEntry>, c: u64) -> (k: usize)
        ensures
            k as int == lead_upto(entry_models(entries@), c),
            k <= entries@.len(),
    {
        let ghost es = entry_models(entries@);
        let mut k: usize = 0;
        assert(es.subrange(0, es.len() as int) =~= es);
        while k < entries.len() && entries[k].sequence <= c
            invariant
                k <= entries@.len(),
                es == entry_models(entries@),
                lead_upto(es, c) == k + lead_upto(es.subrange(k as int, es.len() as int), c),
            decreases entries@.len() - k,
        {
            let ghost sub = es.subrange(k as int, es.len() as int);
            assert(sub.drop_first() =~= es.subrange(k + 1, es.len() as int));
            k = k + 1;
        }
        k
    }

    fn copy_range(entries: &Vec<QueueEntry>, k: usize, end: usize) -> (r: Vec<QueueEntry>)
        requires
            k <= end <= entries@.len(),
        ensures
            entry_models(r@) == entry_models(entries@).subrange(k as int, end as int),
    {
        let ghost es = entry_models(entries@);
        let mut r: Vec<QueueEntry> = Vec::new();
        let mut j: usize = k;
        while j < end
            invariant
                k <= j <= end <= entries@.len(),
                es == entry_models(entries@),
                entry_models(r@) == es.subrange(k as int, j as int),
            decreases end - j,
        {
            let e = entries[j].duplicate();
            assert(e@ == es[j as int]);
            let ghost r0 = r@;
            r.push(e);
            assert(entry_models(r@) =~= entry_models(r0).push(e@));
            assert(entry_models(r@) =~= es.subrange(k as int, j + 1));
            j = j + 1;
        }
        r
    }

    /// The metadata record of the device's queue.
    pub fn metadata(&self, identity: u128, device: u32) -> (r: QueueMetadata)
        requires
            self.wf(),
        ensures
            r.count == self.state(identity, device).count(),
            r.next_sequence == self.state(identity, device).next_sequence,
            r.last_insert == self.device(identity, device).last_insert,
            r.persisting == self.device(identity, device).persisting,
            r.durable == self.device(identity, device).durable,
    {
        match self.find_queue(identity, device) {
            Some(i) => {
                proof {
                    self.lemma_slot_model(i as int);
                }
                let q = &self.queues[i];
                QueueMetadata {
                    count: q.entries.len(),
                    next_sequence: q.next_sequence,
                    last_insert: q.last_insert,
                    persisting: q.persisting,
                    durable: q.durable,
                }
            },
            None => QueueMetadata {
                count: 0,
                next_sequence: 0,
                last_insert: 0,
                persisting: false,
                durable: 0,
            },
        }
    }

    fn set_persisting(&mut self, identity: u128, device: u32, flag: bool)
        requires
            old(self).wf(),
        ensures
            final(self).wf(),
            final(self).device(identity, device) == (DeviceModel {
                persisting: flag,
                ..old(self).device(identity, device)
            }),
            final(self).unchanged_except(*old(self), identity, device),
    {
        let idx = self.queue_slot(identity, device);
        let ghost c1 = *self;
        proof {
            c1.lemma_slot_model(idx as int);
        }
        let mut q = self.queues.remove(idx);
        q.persisting = flag;
        let ghost q1 = q;
        self.queues.insert(idx, q);
        proof {
            let c2 = *self;
            assert(c2.queues@ =~= c1.queues@.update(idx as int, q1));
            DummyMessagesCache::lemma_update(c1, c2, idx as int);
        }
    }

    /// Takes the device's migration guard: true, with the guard now held, when no
    /// migration of this queue was under way; false, with nothing changed, otherwise.
    pub fn try_begin_persist(&mut self, identity: u128, device: u32) -> (r: bool)
        requires
            old(self).wf(),
        ensures
            final(self).wf(),
            r == !old(self).device(identity, device).persisting,
            final(self).device(identity, device) == (DeviceModel {
                persisting: true,
                ..old(self).device(identity, device)
            }),
            final(self).unchanged_except(*old(self), identity, device),
    {
        let m = self.metadata(identity, device);
        if m.persisting {
            proof {
                assert(self.device(identity, device) == (DeviceModel {
                    persisting: true,
                    ..self.device(identity, device)
                }));
            }
            false
        } else {
            self.set_persisting(identity, device, true);
            true
        }
    }

    /// Releases the device's migration guard.
    pub fn end_persist(&mut self, identity: u128, device: u32)
        requires
            old(self).wf(),
        ensures
            final(self).wf(),
            final(self).device(identity, device) == (DeviceModel {
                persisting: false,
                ..old(self).device(identity, device)
            }),
            final(self).unchanged_except(*old(self), identity, device),
    {
        self.set_persisting(identity, device, false);
    }

    /// Moves up to `n` more of the oldest fast-tier entries to the durable tier
    /// and returns how many moved. Only a holder of the migration guard moves
    /// anything; the entries, their order and the queue that reads see are kept.
    pub fn migrate(&mut self, identity: u128, device: u32, n: usize) -> (r: usize)
        requires
            old(self).wf(),
        ensures
            final(self).wf(),
            r == if old(self).device(identity, device).persisting {
                let room = old(self).state(identity, device).count() - old(self).device(
                    identity,
                    device,
                ).durable;
                if n < room {
                    n as int
                } else {
                    room
                }
            } else {
                0
            },
            final(self).device(identity, device) == (DeviceModel {
                durable: old(self).device(identity, device).durable + r as nat,
                ..old(self).device(identity, device)
            }),
            final(self).unchanged_except(*old(self), identity, device),
    {
        let idx = match self.find_queue(identity, device) {
            Some(i) => i,
            None => {
                return 0;
            },
        };
        let ghost c1 = *self;
        proof {
            c1.lemma_slot_model(idx as int);
        }
        if !self.queues[idx].persisting {
            return 0;
        }
        let room = self.queues[idx].entries.len() - self.queues[idx].durable;
        let m = if n < room {
            n
        } else {
            room
        };
        let mut q = self.queues.remove(idx);
        q.durable = q.durable + m;
        let ghost q1 = q;
        self.queues.insert(idx, q);
        proof {
            let c2 = *self;
            assert(c2.queues@ =~= c1.queues@.update(idx as int, q1));
            DummyMessagesCache::lemma_update(c1, c2, idx as int);
        }
        m
    }
}

} // verus!
