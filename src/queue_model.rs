use vstd::prelude::*;
use crate::envelope::EnvelopeModel;

verus! {

/// An envelope at its position in one device's queue.
pub ghost struct EntryModel {
    pub sequence: u64,
    pub envelope: EnvelopeModel,
}

/// The state of one device's queue: its entries, oldest first, and the
/// high-water mark from which the next sequence number is taken.
pub ghost struct QueueState {
    pub entries: Seq<EntryModel>,
    pub next_sequence: u64,
}

/// Index of the last entry whose envelope has guid `g`, or -1 when none has.
pub open spec fn guid_index(es: Seq<EntryModel>, g: Seq<char>) -> int
    decreases es.len(),
{
    if es.len() == 0 {
        -1
    } else if es.last().envelope.guid() == g {
        es.len() - 1
    } else {
        guid_index(es.drop_last(), g)
    }
}

/// The guids of a queue's entries, in queue order.
pub open spec fn guids(es: Seq<EntryModel>) -> Seq<Seq<char>> {
    es.map_values(|e: EntryModel| e.envelope.guid())
}

impl QueueState {
    pub open spec fn empty() -> QueueState {
        QueueState { entries: Seq::empty(), next_sequence: 0 }
    }

    /// The number of entries stored for the device.
    pub open spec fn count(self) -> nat {
        self.entries.len()
    }

    pub open spec fn contains_guid(self, g: Seq<char>) -> bool {
        guid_index(self.entries, g) >= 0
    }

    /// Sequence numbers strictly increase and stay below the high-water mark;
    /// no two entries share a guid.
    pub open spec fn wf(self) -> bool {
        &&& forall|a: int, b: int|
            0 <= a < b < self.entries.len() ==> #[trigger] self.entries[a].sequence
                < #[trigger] self.entries[b].sequence
        &&& forall|a: int|
            0 <= a < self.entries.len() ==> #[trigger] self.entries[a].sequence
                < self.next_sequence
        &&& forall|a: int, b: int|
            0 <= a < b < self.entries.len() ==> #[trigger] self.entries[a].envelope.guid()
                != #[trigger] self.entries[b].envelope.guid()
    }
}

/// The queue after admitting `e`: unchanged when its guid is already queued or
/// the sequence numbers are exhausted, else `e` appended under the next number.
pub open spec fn insert_spec(s: QueueState, e: EnvelopeModel) -> QueueState {
    if s.contains_guid(e.guid()) || s.next_sequence == u64::MAX {
        s
    } else {
        QueueState {
            entries: s.entries.push(EntryModel { sequence: s.next_sequence, envelope: e }),
            next_sequence: (s.next_sequence + 1) as u64,
        }
    }
}

/// The queue after removing the entry with guid `g`, if there is one.
pub open spec fn remove_spec(s: QueueState, g: Seq<char>) -> QueueState {
    let k = guid_index(s.entries, g);
    if k < 0 {
        s
    } else {
        QueueState { entries: s.entries.remove(k), next_sequence: s.next_sequence }
    }
}

/// Whether `insert_spec` appends `e`: its guid is new and a sequence number is left.
pub open spec fn admits(s: QueueState, e: EnvelopeModel) -> bool {
    !s.contains_guid(e.guid()) && s.next_sequence < u64::MAX
}

/// The entries that `remove_all_spec` takes out, in the order it takes them.
pub open spec fn removed_spec(s: QueueState, gs: Seq<Seq<char>>) -> Seq<EntryModel>
    decreases gs.len(),
{
    if gs.len() == 0 {
        Seq::empty()
    } else {
        let k = guid_index(s.entries, gs[0]);
        let head = if k >= 0 {
            seq![s.entries[k]]
        } else {
            Seq::empty()
        };
        head + removed_spec(remove_spec(s, gs[0]), gs.drop_first())
    }
}

/// The queue after removing every entry whose guid is in `gs`, in that order.
pub open spec fn remove_all_spec(s: QueueState, gs: Seq<Seq<char>>) -> QueueState
    decreases gs.len(),
{
    if gs.len() == 0 {
        s
    } else {
        remove_all_spec(remove_spec(s, gs[0]), gs.drop_first())
    }
}

/// The number of leading entries whose sequence number is at most `c`.
pub open spec fn lead_upto(es: Seq<EntryModel>, c: u64) -> int
    decreases es.len(),
{
    if es.len() == 0 {
        0
    } else if es[0].sequence <= c {
        1 + lead_upto(es.drop_first(), c)
    } else {
        0
    }
}

/// Where a page starts: at the front, or just after the entry numbered by the cursor.
pub open spec fn page_start(es: Seq<EntryModel>, after: Option<u64>) -> int {
    match after {
        None => 0,
        Some(c) => lead_upto(es, c),
    }
}

/// At most `limit` entries, oldest first, starting at `page_start`.
pub open spec fn page_spec(es: Seq<EntryModel>, after: Option<u64>, limit: nat) -> Seq<EntryModel> {
    let k = page_start(es, after);
    let end = if k + limit < es.len() {
        k + limit
    } else {
        es.len() as int
    };
    es.subrange(k, end)
}

pub proof fn lemma_lead_upto_bounds(es: Seq<EntryModel>, c: u64)
    ensures
        0 <= lead_upto(es, c) <= es.len(),
    decreases es.len(),
{
    if es.len() > 0 {
        lemma_lead_upto_bounds(es.drop_first(), c);
    }
}

/// The queue after admitting each envelope of `es` in turn.
pub open spec fn insert_all_spec(s: QueueState, es: Seq<EnvelopeModel>) -> QueueState
    decreases es.len(),
{
    if es.len() == 0 {
        s
    } else {
        insert_all_spec(insert_spec(s, es[0]), es.drop_first())
    }
}

pub proof fn lemma_guid_index(es: Seq<EntryModel>, g: Seq<char>)
    ensures
        -1 <= guid_index(es, g) < es.len(),
        guid_index(es, g) >= 0 ==> es[guid_index(es, g)].envelope.guid() == g,
        guid_index(es, g) < 0 ==> forall|j: int|
            0 <= j < es.len() ==> #[trigger] es[j].envelope.guid() != g,
    decreases es.len(),
{
    if es.len() > 0 {
        lemma_guid_index(es.drop_last(), g);
        if es.last().envelope.guid() != g {
            assert forall|j: int| 0 <= j < es.len() - 1 implies es[j] == es.drop_last()[j] by {}
        }
    }
}

/// With unique guids, the entry carrying a guid is the one that `guid_index` finds.
pub proof fn lemma_guid_index_unique(s: QueueState, j: int)
    requires
        s.wf(),
        0 <= j < s.entries.len(),
    ensures
        guid_index(s.entries, s.entries[j].envelope.guid()) == j,
{
    let g = s.entries[j].envelope.guid();
    lemma_guid_index(s.entries, g);
    let k = guid_index(s.entries, g);
    if k != j {
        if k < j {
            assert(s.entries[k].envelope.guid() != s.entries[j].envelope.guid());
        } else {
            assert(s.entries[j].envelope.guid() != s.entries[k].envelope.guid());
        }
    }
}

pub proof fn lemma_insert_wf(s: QueueState, e: EnvelopeModel)
    requires
        s.wf(),
    ensures
        insert_spec(s, e).wf(),
{
    lemma_guid_index(s.entries, e.guid());
}

pub proof fn lemma_remove_wf(s: QueueState, g: Seq<char>)
    requires
        s.wf(),
    ensures
        remove_spec(s, g).wf(),
{
    lemma_guid_index(s.entries, g);
    let k = guid_index(s.entries, g);
    if k >= 0 {
        let r = remove_spec(s, g).entries;
        assert forall|a: int| 0 <= a < r.len() implies r[a] == s.entries[if a < k {
            a
        } else {
            a + 1
        }] by {}
        assert forall|a: int, b: int| 0 <= a < b < r.len() implies #[trigger] r[a].sequence
            < #[trigger] r[b].sequence by {
            let a1 = if a < k { a } else { a + 1 };
            let b1 = if b < k { b } else { b + 1 };
            assert(r[a] == s.entries[a1] && r[b] == s.entries[b1]);
        }
        assert forall|a: int, b: int| 0 <= a < b < r.len() implies #[trigger] r[a].envelope.guid()
            != #[trigger] r[b].envelope.guid() by {
            let a1 = if a < k { a } else { a + 1 };
            let b1 = if b < k { b } else { b + 1 };
            assert(r[a] == s.entries[a1] && r[b] == s.entries[b1]);
        }
    }
}

} // verus!
