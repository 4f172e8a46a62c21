use message_queue::cache::{CacheError, DummyMessagesCache};
use message_queue::envelope::{Envelope, EnvelopeType};
use message_queue::keys::{
    get_message_queue_key, get_message_queue_metadata_key, get_queue_index_key,
};
use message_queue::manager::{MessagesManager, QueueError};
use message_queue::removed::{RemovedMessage, ServiceId};
use message_queue::state::{AccountManager, KeyManager, SignalServerState};

const U1: u128 = 0x6ba7b810_9dad_11d1_80b4_00c04fd430c8;

fn envelope(guid: &str) -> Envelope {
    Envelope {
        envelope_type: Some(1),
        source_service_id: Some(String::from("source_service_id")),
        source_device: Some(2),
        client_timestamp: Some(7),
        content: Some(vec![0x48, 0x65, 0x61, 0x20, 0x42, 0x6f, 0x62, 0x21]),
        server_guid: Some(String::from(guid)),
        server_timestamp: Some(9),
        ephemeral: Some(false),
        destination_service_id: Some(String::from("destination_service_id")),
        urgent: Some(false),
        updated_pni: None,
        story: Some(false),
        report_spam_token: None,
        shared_mrm_key: None,
    }
}

fn guids_of(m: &MessagesManager, id: u128, dev: u32) -> Vec<String> {
    m.read_queue(id, dev, None, 1000)
        .iter()
        .map(|e| e.envelope.server_guid.clone().unwrap())
        .collect()
}

fn seqs_of(m: &MessagesManager, id: u128, dev: u32) -> Vec<u64> {
    m.read_queue(id, dev, None, 1000).iter().map(|e| e.sequence).collect()
}

#[test]
fn my_test() {
    let mut messages_manager = MessagesManager::new();
    let envelope = Envelope {
        envelope_type: Some(8),
        source_service_id: Some(String::from("source_service_id")),
        source_device: Some(2),
        client_timestamp: Some(1),
        content: Some(vec![0x48, 0x65, 0x61, 0x20, 0x42, 0x6f, 0x62, 0x21]),
        server_guid: Some(String::from("server_guid")),
        server_timestamp: Some(1),
        ephemeral: Some(false),
        destination_service_id: Some(String::from("destination_service_id")),
        urgent: Some(false),
        updated_pni: Some(String::from("pni")),
        story: Some(false),
        report_spam_token: None,
        shared_mrm_key: None,
    };
    let report = RemovedMessage::from_envelope(envelope.duplicate());
    assert_eq!(report.src_service_id, None);
    assert_eq!(report.dst_service_id, None);
    assert_eq!(report.server_guid, 0);
    assert_eq!(report.server_time_stamp, 1);
    assert_eq!(report.client_time_stamp, 1);
    assert_eq!(report.envelope_type, EnvelopeType::PlaintextContent);
    let r = messages_manager.insert(0, 3, envelope, true);
    assert_eq!(r, Ok(None));
    assert_eq!(messages_manager.metadata(0, 3).count, 1);
}

#[test]
fn single_insert_read_back() {
    let mut m = MessagesManager::new();
    assert_eq!(m.insert(U1, 1, envelope("g1"), true), Ok(None));
    let q = m.read_queue(U1, 1, None, 10);
    assert_eq!(q.len(), 1);
    assert_eq!(q[0].sequence, 0);
    assert_eq!(q[0].envelope.server_guid.as_deref(), Some("g1"));
    assert_eq!(m.metadata(U1, 1).count, 1);
}

#[test]
fn two_inserts_keep_order() {
    let mut m = MessagesManager::new();
    m.insert(U1, 1, envelope("g1"), true).unwrap();
    m.insert(U1, 1, envelope("g2"), true).unwrap();
    assert_eq!(guids_of(&m, U1, 1), vec!["g1", "g2"]);
    assert_eq!(seqs_of(&m, U1, 1), vec![0, 1]);
}

#[test]
fn remove_by_guid_reports_message() {
    let mut m = MessagesManager::new();
    m.insert(U1, 1, envelope("g1"), true).unwrap();
    m.insert(U1, 1, envelope("g2"), true).unwrap();
    let removed = m.remove(U1, 1, &String::from("g1")).unwrap();
    let expected = RemovedMessage {
        src_service_id: None,
        dst_service_id: None,
        server_guid: 0,
        server_guid_text: String::from("g1"),
        server_time_stamp: 9,
        client_time_stamp: 7,
        envelope_type: EnvelopeType::Ciphertext,
    };
    assert!(removed == expected);
    assert_eq!(guids_of(&m, U1, 1), vec!["g2"]);
    assert_eq!(m.metadata(U1, 1).count, 1);
}

#[test]
fn remove_missing_guid_changes_nothing() {
    let mut m = MessagesManager::new();
    m.insert(U1, 1, envelope("g1"), true).unwrap();
    assert!(m.remove(U1, 1, &String::from("nonexistent")).is_none());
    assert_eq!(m.metadata(U1, 1).count, 1);
}

#[test]
fn listener_registered_after_insert_fires() {
    let mut m = MessagesManager::new();
    assert_eq!(m.insert(U1, 1, envelope("g1"), true), Ok(None));
    assert!(m.add_message_availability_listener(U1, 1, 42));
}

#[test]
fn hundred_interleaved_inserts() {
    let mut m = MessagesManager::new();
    let producers: u32 = 4;
    for i in 0..25u32 {
        for p in 0..producers {
            let g = format!("p{}-{}", p, i);
            m.insert(U1, 1, envelope(&g), true).unwrap();
        }
    }
    let q = m.read_queue(U1, 1, None, 1000);
    assert_eq!(q.len(), 100);
    for (i, e) in q.iter().enumerate() {
        assert_eq!(e.sequence, i as u64);
    }
    for p in 0..producers {
        let mine: Vec<String> = guids_of(&m, U1, 1)
            .into_iter()
            .filter(|g| g.starts_with(&format!("p{}-", p)))
            .collect();
        let want: Vec<String> = (0..25).map(|i| format!("p{}-{}", p, i)).collect();
        assert_eq!(mine, want);
    }
}

#[test]
fn order_kept_across_devices() {
    let mut m = MessagesManager::new();
    m.insert(U1, 1, envelope("a1"), true).unwrap();
    m.insert(U1, 2, envelope("b1"), true).unwrap();
    m.insert(U1, 1, envelope("a2"), true).unwrap();
    m.insert(7, 1, envelope("c1"), true).unwrap();
    m.insert(U1, 1, envelope("a3"), true).unwrap();
    assert_eq!(guids_of(&m, U1, 1), vec!["a1", "a2", "a3"]);
    assert_eq!(seqs_of(&m, U1, 1), vec![0, 1, 2]);
    assert_eq!(guids_of(&m, U1, 2), vec!["b1"]);
    assert_eq!(guids_of(&m, 7, 1), vec!["c1"]);
}

#[test]
fn duplicate_insert_stored_once() {
    let mut c = DummyMessagesCache::new();
    let first = c.insert(U1, 1, envelope("g1")).unwrap();
    let again = c.insert(U1, 1, envelope("g1")).unwrap();
    assert_eq!(first.sequence, 0);
    assert_eq!(again.sequence, 0);
    assert_eq!(c.metadata(U1, 1).count, 1);
    assert_eq!(c.metadata(U1, 1).next_sequence, 1);
}

#[test]
fn remove_twice_round_trip() {
    let mut c = DummyMessagesCache::new();
    c.insert(U1, 1, envelope("g1")).unwrap();
    c.insert(U1, 1, envelope("g2")).unwrap();
    let q = c.read_queue(U1, 1, None, 10);
    for e in q.iter() {
        let g = e.envelope.server_guid.clone().unwrap();
        let r = c.remove_by_guid(U1, 1, &g).unwrap();
        assert_eq!(r.sequence, e.sequence);
        let before = c.metadata(U1, 1).count;
        assert!(c.remove_by_guid(U1, 1, &g).is_none());
        assert_eq!(c.metadata(U1, 1).count, before);
    }
    assert_eq!(c.metadata(U1, 1).count, 0);
}

#[test]
fn sequence_not_reused_after_removal() {
    let mut c = DummyMessagesCache::new();
    c.insert(U1, 1, envelope("g1")).unwrap();
    c.remove_by_guid(U1, 1, &String::from("g1")).unwrap();
    let e = c.insert(U1, 1, envelope("g2")).unwrap();
    assert_eq!(e.sequence, 1);
}

#[test]
fn listener_before_insert() {
    let mut m = MessagesManager::new();
    assert!(!m.add_message_availability_listener(U1, 1, 5));
    assert_eq!(m.insert(U1, 1, envelope("g1"), true), Ok(Some(5)));
    assert_eq!(m.insert(U1, 1, envelope("g2"), true), Ok(Some(5)));
}

#[test]
fn listener_replaced_and_removed() {
    let mut m = MessagesManager::new();
    m.add_message_availability_listener(U1, 1, 5);
    m.add_message_availability_listener(U1, 1, 6);
    assert_eq!(m.insert(U1, 1, envelope("g1"), true), Ok(Some(6)));
    m.remove_message_availability_listener(U1, 1);
    assert_eq!(m.insert(U1, 1, envelope("g2"), true), Ok(None));
    assert_eq!(m.metadata(U1, 1).count, 2);
    m.remove_message_availability_listener(U1, 2);
}

#[test]
fn insert_unknown_recipient() {
    let mut m = MessagesManager::new();
    assert_eq!(m.insert(U1, 1, envelope("g1"), false), Err(QueueError::RecipientNotFound));
    assert_eq!(m.metadata(U1, 1).count, 0);
}

#[test]
fn storage_error_variant() {
    let e = CacheError::StorageError;
    assert_eq!(e, CacheError::StorageError);
    assert_ne!(QueueError::StorageError, QueueError::RecipientNotFound);
}

#[test]
fn remove_many_skips_missing() {
    let mut m = MessagesManager::new();
    m.insert(U1, 1, envelope("g1"), true).unwrap();
    m.insert(U1, 1, envelope("g2"), true).unwrap();
    m.insert(U1, 1, envelope("g3"), true).unwrap();
    let gs = vec![String::from("g3"), String::from("zz"), String::from("g1"), String::from("g3")];
    let r = m.remove_many(U1, 1, &gs);
    assert_eq!(r.len(), 2);
    assert_eq!(guids_of(&m, U1, 1), vec!["g2"]);
}

#[test]
fn read_queue_pages() {
    let mut c = DummyMessagesCache::new();
    for g in ["a", "b", "c", "d", "e"] {
        c.insert(U1, 1, envelope(g)).unwrap();
    }
    let p1 = c.read_queue(U1, 1, None, 2);
    assert_eq!(p1.iter().map(|e| e.sequence).collect::<Vec<_>>(), vec![0, 1]);
    let p2 = c.read_queue(U1, 1, Some(p1[1].sequence), 2);
    assert_eq!(p2.iter().map(|e| e.sequence).collect::<Vec<_>>(), vec![2, 3]);
    let p3 = c.read_queue(U1, 1, Some(p2[1].sequence), 2);
    assert_eq!(p3.iter().map(|e| e.sequence).collect::<Vec<_>>(), vec![4]);
    assert!(c.read_queue(U1, 1, Some(4), 2).is_empty());
    assert!(c.read_queue(U1, 1, None, 0).is_empty());
    assert!(c.read_queue(U1, 9, None, 5).is_empty());
}

#[test]
fn metadata_and_persist_guard() {
    let mut c = DummyMessagesCache::new();
    c.insert(U1, 1, envelope("g1")).unwrap();
    let md = c.metadata(U1, 1);
    assert_eq!(md.last_insert, 9);
    assert!(!md.persisting);
    assert!(c.try_begin_persist(U1, 1));
    assert!(!c.try_begin_persist(U1, 1));
    assert!(c.try_begin_persist(U1, 2));
    c.end_persist(U1, 1);
    assert!(c.try_begin_persist(U1, 1));
}

#[test]
fn removed_message_reads_uuid_guid() {
    let mut e = envelope("550e8400-e29b-41d4-a716-446655440000");
    e.source_service_id = Some(String::new());
    e.envelope_type = Some(42);
    let r = RemovedMessage::from_envelope(e);
    assert_eq!(r.server_guid, 0x550e8400_e29b_41d4_a716_446655440000);
    assert_eq!(r.server_guid_text, "550e8400-e29b-41d4-a716-446655440000");
    assert_eq!(r.src_service_id, None);
    assert_eq!(r.envelope_type, EnvelopeType::Unknown);
}

#[test]
fn removed_message_bad_guid_is_nil() {
    let r = RemovedMessage::from_envelope(envelope("not-a-uuid"));
    assert_eq!(r.server_guid, 0);
    assert_eq!(r.envelope_type, EnvelopeType::Ciphertext);
}

#[test]
fn keys_have_expected_text() {
    let k = String::from_utf8(get_message_queue_key(U1, 17)).unwrap();
    assert_eq!(k, "user_queue::{6ba7b810-9dad-11d1-80b4-00c04fd430c8::17}");
    let k = String::from_utf8(get_message_queue_metadata_key(U1, 1)).unwrap();
    assert_eq!(k, "user_queue_metadata::{6ba7b810-9dad-11d1-80b4-00c04fd430c8::1}");
    let k = String::from_utf8(get_queue_index_key(0, 0)).unwrap();
    assert_eq!(k, "user_queue_index::{00000000-0000-0000-0000-000000000000::0}");
    assert_ne!(get_message_queue_key(U1, 1), get_message_queue_key(U1, 11));
}

#[test]
fn server_state_parts() {
    let mut s = SignalServerState::new(7u8);
    assert_eq!(s.database(), 7);
    s.messages_mut().insert(U1, 1, envelope("g1"), true).unwrap();
    assert_eq!(s.messages().metadata(U1, 1).count, 1);
    let _a = AccountManager::new();
    let _k = KeyManager::new();
}

#[test]
fn migration_keeps_one_ordered_view() {
    let mut c = DummyMessagesCache::new();
    for g in ["a", "b", "c"] {
        c.insert(U1, 1, envelope(g)).unwrap();
    }
    assert_eq!(c.migrate(U1, 1, 2), 0);
    assert!(c.try_begin_persist(U1, 1));
    assert_eq!(c.migrate(U1, 1, 2), 2);
    assert_eq!(c.migrate(U1, 1, 5), 1);
    assert_eq!(c.metadata(U1, 1).durable, 3);
    c.end_persist(U1, 1);
    c.remove_by_guid(U1, 1, &String::from("a")).unwrap();
    assert_eq!(c.metadata(U1, 1).durable, 2);
    c.insert(U1, 1, envelope("d")).unwrap();
    let seqs: Vec<u64> = c.read_queue(U1, 1, None, 10).iter().map(|e| e.sequence).collect();
    assert_eq!(seqs, vec![1, 2, 3]);
    assert_eq!(c.metadata(U1, 1).durable, 2);
}

#[test]
fn removed_message_parses_service_ids() {
    let mut e = envelope("g9");
    e.source_service_id = Some(String::from("6ba7b810-9dad-11d1-80b4-00c04fd430c8"));
    e.destination_service_id = Some(String::from("PNI:550e8400-e29b-41d4-a716-446655440000"));
    let r = RemovedMessage::from_envelope(e);
    assert_eq!(r.src_service_id, Some(ServiceId::Aci(U1)));
    assert_eq!(r.dst_service_id, Some(ServiceId::Pni(0x550e8400_e29b_41d4_a716_446655440000)));
    let mut e = envelope("g9");
    e.source_service_id = Some(String::from("PNI:"));
    e.destination_service_id = None;
    let r = RemovedMessage::from_envelope(e);
    assert_eq!(r.src_service_id, None);
    assert_eq!(r.dst_service_id, None);
}
