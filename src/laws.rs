use vstd::prelude::*;
use crate::envelope::EnvelopeModel;
use crate::manager::fires_on_register;
use crate::queue_model::{
    EntryModel, QueueState, admits, guid_index, insert_all_spec, insert_spec, remove_spec,
    lemma_guid_index, lemma_guid_index_unique, lemma_insert_wf, lemma_remove_wf,
};

verus! {

/// The entries that admitting `es` one after another appends to `s`.
pub open spec fn appended(s: QueueState, es: Seq<EnvelopeModel>) -> Seq<EntryModel> {
    Seq::new(
        es.len(),
        |i: int| EntryModel { sequence: (s.next_sequence + i) as u64, envelope: es[i] },
    )
}

/// Admitting envelopes with distinct new guids one after another appends them
/// to the queue in exactly that order, under consecutive sequence numbers.
pub proof fn lemma_insert_order(s: QueueState, es: Seq<EnvelopeModel>)
    requires
        s.wf(),
        s.next_sequence + es.len() <= u64::MAX,
        forall|i: int, j: int|
            0 <= i < j < es.len() ==> #[trigger] es[i].guid() != #[trigger] es[j].guid(),
        forall|i: int| 0 <= i < es.len() ==> !s.contains_guid(#[trigger] es[i].guid()),
    ensures
        insert_all_spec(s, es).entries == s.entries + appended(s, es),
        insert_all_spec(s, es).next_sequence == s.next_sequence + es.len(),
    decreases es.len(),
{
    if es.len() == 0 {
        assert(s.entries + appended(s, es) =~= s.entries);
    } else {
        let e = es[0];
        let s1 = insert_spec(s, e);
        assert(!s.contains_guid(es[0].guid()));
        lemma_insert_wf(s, e);
        let rest = es.drop_first();
        assert forall|i: int| 0 <= i < rest.len() implies !s1.contains_guid(#[trigger] rest[i].guid()) by {
            assert(rest[i] == es[i + 1]);
            assert(!s.contains_guid(es[i + 1].guid()));
            lemma_guid_index(s.entries, es[i + 1].guid());
            lemma_guid_index(s1.entries, es[i + 1].guid());
            if s1.contains_guid(rest[i].guid()) {
                let k = guid_index(s1.entries, rest[i].guid());
                if k < s.entries.len() {
                    assert(s1.entries[k] == s.entries[k]);
                } else {
                    assert(es[0].guid() != es[i + 1].guid());
                }
            }
        }
        assert forall|i: int, j: int| 0 <= i < j < rest.len() implies #[trigger] rest[i].guid()
            != #[trigger] rest[j].guid() by {
            assert(es[i + 1].guid() != es[j + 1].guid());
        }
        lemma_insert_order(s1, rest);
        assert(s.entries + appended(s, es) =~= s1.entries + appended(s1, rest));
    }
}

/// Admitting the same envelope twice stores it once: the second insert changes
/// nothing, and the first adds exactly one entry, the only one with that guid.
/// An envelope whose guid is already queued finds the one entry with that guid,
/// which is what `insert` then returns.
pub proof fn lemma_insert_idempotent(s: QueueState, e: EnvelopeModel)
    requires
        s.wf(),
    ensures
        insert_spec(insert_spec(s, e), e) == insert_spec(s, e),
        admits(s, e) ==> insert_spec(s, e).count() == s.count() + 1,
        !admits(s, e) ==> insert_spec(s, e).count() == s.count(),
        forall|j: int|
            0 <= j < s.entries.len() && (#[trigger] s.entries[j]).envelope.guid() == e.guid()
                ==> guid_index(s.entries, e.guid()) == j,
        admits(s, e) ==> forall|j: int|
            0 <= j < insert_spec(s, e).entries.len() && (#[trigger] insert_spec(s, e).entries[j]).envelope.guid()
                == e.guid() ==> j == s.entries.len(),
{
    let t = insert_spec(s, e);
    lemma_insert_wf(s, e);
    assert forall|j: int|
        0 <= j < s.entries.len() && (#[trigger] s.entries[j]).envelope.guid() == e.guid()
            implies guid_index(s.entries, e.guid()) == j by {
        lemma_guid_index_unique(s, j);
    }
    if admits(s, e) {
        assert(t.entries.last().envelope.guid() == e.guid());
        assert(t.contains_guid(e.guid()));
        assert forall|j: int|
            0 <= j < t.entries.len() && (#[trigger] t.entries[j]).envelope.guid() == e.guid()
                implies j == s.entries.len() by {
            lemma_guid_index_unique(t, j);
            lemma_guid_index_unique(t, s.entries.len() as int);
        }
    }
}

/// Every queued entry can be removed by its guid, and only once: the removal
/// takes that very entry out, and a second removal of the guid changes nothing.
pub proof fn lemma_remove_round_trip(s: QueueState, j: int)
    requires
        s.wf(),
        0 <= j < s.entries.len(),
    ensures
        s.contains_guid(s.entries[j].envelope.guid()),
        guid_index(s.entries, s.entries[j].envelope.guid()) == j,
        remove_spec(s, s.entries[j].envelope.guid()).count() == s.count() - 1,
        !remove_spec(s, s.entries[j].envelope.guid()).contains_guid(s.entries[j].envelope.guid()),
        remove_spec(remove_spec(s, s.entries[j].envelope.guid()), s.entries[j].envelope.guid())
            == remove_spec(s, s.entries[j].envelope.guid()),
{
    let g = s.entries[j].envelope.guid();
    lemma_guid_index_unique(s, j);
    let t = remove_spec(s, g);
    lemma_remove_wf(s, g);
    lemma_guid_index(t.entries, g);
    if t.contains_guid(g) {
        let k = guid_index(t.entries, g);
        if k < j {
            assert(t.entries[k] == s.entries[k]);
        } else {
            assert(t.entries[k] == s.entries[k + 1]);
        }
    }
}

/// A listener registered after an envelope was admitted, and before it was
/// removed, is signalled at once; one registered on an empty queue is not.
pub proof fn lemma_listener_after_insert(s: QueueState, e: EnvelopeModel)
    requires
        s.wf(),
    ensures
        admits(s, e) ==> fires_on_register(insert_spec(s, e)),
        !fires_on_register(QueueState::empty()),
{
}

} // verus!
