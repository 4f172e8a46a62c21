use vstd::prelude::*;
use crate::cache::{
    CacheError, DeviceModel, DummyMessagesCache, QueueEntry, QueueMetadata, entry_models, texts,
};
use crate::envelope::Envelope;
use crate::notifier::AvailabilityNotifier;
use crate::queue_model::{
    QueueState, guid_index, insert_spec, page_spec, remove_all_spec, remove_spec, removed_spec,
};
use crate::removed::{RemovedMessage, report_of};

verus! {

/// Why an insert was refused.
#[derive(Clone, Copy, Debug, PartialEq, Eq, Structural)]
pub enum QueueError {
    /// The destination device is not registered.
    RecipientNotFound,
    /// The queue could not take the envelope.
    StorageError,
}

/// Whether registering a listener signals it at once: mail is waiting.
pub open spec fn fires_on_register(s: QueueState) -> bool {
    s.count() > 0
}

/// The façade over the delivery cache and the availability listeners.
pub struct MessagesManager {
    cache: DummyMessagesCache,
    notifier: AvailabilityNotifier,
}

impl MessagesManager {
    pub closed spec fn wf(self) -> bool {
        self.cache.wf() && self.notifier.wf()
    }

    /// What the cache holds for the device: its queue and metadata.
    pub closed spec fn device(self, identity: u128, device: u32) -> DeviceModel {
        self.cache.device(identity, device)
    }

    /// The device's queue.
    pub open spec fn state(self, identity: u128, device: u32) -> QueueState {
        self.device(identity, device).queue
    }

    /// In a well-formed manager every device's queue is well formed.
    pub proof fn lemma_state_wf(self, identity: u128, device: u32)
        requires
            self.wf(),
        ensures
            self.state(identity, device).wf(),
    {
        self.cache.lemma_state_wf(identity, device);
    }

    /// The listener registered for the device.
    pub closed spec fn listener(self, identity: u128, device: u32) -> Option<u64> {
        self.notifier.listener(identity, device)
    }

    /// Every queue but the device's is the same in `self` and `other`, and every listener.
    pub open spec fn queues_same_except(self, other: MessagesManager, identity: u128, device: u32) -> bool {
        &&& forall|a: u128, b: u32|
            !(a == identity && b == device) ==> #[trigger] self.state(a, b) == other.state(a, b)
        &&& forall|a: u128, b: u32| #[trigger] self.listener(a, b) == other.listener(a, b)
    }

    /// Every queue is the same in `self` and `other`, and every listener but the device's.
    pub open spec fn listeners_same_except(self, other: MessagesManager, identity: u128, device: u32) -> bool {
        &&& forall|a: u128, b: u32| #[trigger] self.state(a, b) == other.state(a, b)
        &&& forall|a: u128, b: u32|
            !(a == identity && b == device) ==> #[trigger] self.listener(a, b) == other.listener(a, b)
    }

    /// No mail and no listener anywhere.
    pub fn new() -> (r: MessagesManager)
        ensures
            r.wf(),
            forall|a: u128, b: u32| #[trigger] r.state(a, b) == QueueState::empty(),
            forall|a: u128, b: u32| #[trigger] r.listener(a, b) is None,
    {
        MessagesManager { cache: DummyMessagesCache::new(), notifier: AvailabilityNotifier::new() }
    }

    /// Queues `message` for the device and returns the listener to signal, if one
    /// is registered. A device that is not registered gets nothing queued and
    /// `RecipientNotFound`; a guid already queued is absorbed and still signals.
    pub fn insert(
        &mut self,
        dst_uuid: u128,
        dst_device_id: u32,
        message: Envelope,
        recipient_exists: bool,
    ) -> (r: Result<Option<u64>, QueueError>)
        requires
            old(self).wf(),
        ensures
            final(self).wf(),
            final(self).queues_same_except(*old(self), dst_uuid, dst_device_id),
            !recipient_exists ==> r == Err::<Option<u64>, QueueError>(QueueError::RecipientNotFound)
                && final(self).state(dst_uuid, dst_device_id) == old(self).state(
                dst_uuid,
                dst_device_id,
            ),
            recipient_exists ==> final(self).state(dst_uuid, dst_device_id) == insert_spec(
                old(self).state(dst_uuid, dst_device_id),
                message@,
            ),
            recipient_exists ==> (r is Err <==> (!old(self).state(
                dst_uuid,
                dst_device_id,
            ).contains_guid(message@.guid()) && old(self).state(
                dst_uuid,
                dst_device_id,
            ).next_sequence == u64::MAX)),
            recipient_exists ==> r != Err::<Option<u64>, QueueError>(QueueError::RecipientNotFound),
            r matches Ok(l) ==> l == old(self).listener(dst_uuid, dst_device_id),
    {
        if !recipient_exists {
            return Err(QueueError::RecipientNotFound);
        }
        match self.cache.insert(dst_uuid, dst_device_id, message) {
            Ok(_) => Ok(self.notifier.notify(dst_uuid, dst_device_id)),
            Err(CacheError::StorageError) => Err(QueueError::StorageError),
        }
    }

    /// Removes the message with the given guid from the device's queue and
    /// reports it; `None` when there is none. Listeners are not signalled.
    pub fn remove(&mut self, dst_uuid: u128, dst_device_id: u32, guid: &String) -> (r: Option<
        RemovedMessage,
    >)
        requires
            old(self).wf(),
        ensures
            final(self).wf(),
            final(self).queues_same_except(*old(self), dst_uuid, dst_device_id),
            final(self).state(dst_uuid, dst_device_id) == remove_spec(
                old(self).state(dst_uuid, dst_device_id),
                guid@,
            ),
            r is Some <==> old(self).state(dst_uuid, dst_device_id).contains_guid(guid@),
            r matches Some(m) ==> m@ == report_of(
                old(self).state(dst_uuid, dst_device_id).entries[guid_index(
                    old(self).state(dst_uuid, dst_device_id).entries,
                    guid@,
                )].envelope,
            ),
    {
        proof {
            crate::queue_model::lemma_guid_index(self.cache.state(dst_uuid, dst_device_id).entries, guid@);
        }
        match self.cache.remove_by_guid(dst_uuid, dst_device_id, guid) {
            Some(e) => Some(RemovedMessage::from_envelope(e.envelope)),
            None => None,
        }
    }

    /// Removes each listed guid from the device's queue in turn and reports the
    /// messages removed, in that order; guids that match nothing are skipped.
    pub fn remove_many(&mut self, dst_uuid: u128, dst_device_id: u32, guids: &Vec<String>) -> (r:
        Vec<RemovedMessage>)
        requires
            old(self).wf(),
        ensures
            final(self).wf(),
            final(self).queues_same_except(*old(self), dst_uuid, dst_device_id),
            final(self).state(dst_uuid, dst_device_id) == remove_all_spec(
                old(self).state(dst_uuid, dst_device_id),
                texts(guids@),
            ),
            r@.len() == removed_spec(old(self).state(dst_uuid, dst_device_id), texts(guids@)).len(),
            forall|i: int|
                0 <= i < r@.len() ==> #[trigger] r@[i]@ == report_of(
                    removed_spec(old(self).state(dst_uuid, dst_device_id), texts(guids@))[i].envelope,
                ),
    {
        let es = self.cache.remove_batch(dst_uuid, dst_device_id, guids);
        let ghost ms = entry_models(es@);
        let mut r: Vec<RemovedMessage> = Vec::new();
        let mut i: usize = 0;
        while i < es.len()
            invariant
                i <= es@.len(),
                ms == entry_models(es@),
                r@.len() == i,
                forall|j: int|
                    0 <= j < i ==> #[trigger] r@[j]@ == report_of(ms[j].envelope),
            decreases es@.len() - i,
        {
            let e = es[i].envelope.duplicate();
            r.push(RemovedMessage::from_envelope(e));
            i = i + 1;
        }
        r
    }

    /// Up to `limit` queued entries of the device, oldest first, from the front
    /// or after the sequence number `after`.
    pub fn read_queue(&self, dst_uuid: u128, dst_device_id: u32, after: Option<u64>, limit: usize) -> (r:
        Vec<QueueEntry>)
        requires
            self.wf(),
        ensures
            entry_models(r@) == page_spec(self.state(dst_uuid, dst_device_id).entries, after, limit as nat),
    {
        self.cache.read_queue(dst_uuid, dst_device_id, after, limit)
    }

    /// The metadata record of the device's queue.
    pub fn metadata(&self, dst_uuid: u128, dst_device_id: u32) -> (r: QueueMetadata)
        requires
            self.wf(),
        ensures
            r.count == self.state(dst_uuid, dst_device_id).count(),
            r.next_sequence == self.state(dst_uuid, dst_device_id).next_sequence,
            r.last_insert == self.device(dst_uuid, dst_device_id).last_insert,
            r.persisting == self.device(dst_uuid, dst_device_id).persisting,
            r.durable == self.device(dst_uuid, dst_device_id).durable,
    {
        self.cache.metadata(dst_uuid, dst_device_id)
    }

    /// Registers `listener` for the device, replacing any earlier one; true when
    /// mail is already waiting, so that the listener is to be signalled now.
    pub fn add_message_availability_listener(
        &mut self,
        dst_uuid: u128,
        dst_device_id: u32,
        listener: u64,
    ) -> (r: bool)
        requires
            old(self).wf(),
        ensures
            final(self).wf(),
            final(self).listeners_same_except(*old(self), dst_uuid, dst_device_id),
            final(self).listener(dst_uuid, dst_device_id) == Some(listener),
            r == fires_on_register(old(self).state(dst_uuid, dst_device_id)),
    {
        self.notifier.register(dst_uuid, dst_device_id, listener);
        let m = self.cache.metadata(dst_uuid, dst_device_id);
        m.count > 0
    }

    /// Unregisters the device's listener, if any; its queue is untouched.
    pub fn remove_message_availability_listener(&mut self, dst_uuid: u128, dst_device_id: u32)
        requires
            old(self).wf(),
        ensures
            final(self).wf(),
            final(self).listeners_same_except(*old(self), dst_uuid, dst_device_id),
            final(self).listener(dst_uuid, dst_device_id) is None,
    {
        self.notifier.unregister(dst_uuid, dst_device_id);
    }
}

} // verus!
