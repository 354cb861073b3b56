use cups::keys::{PubKey, SecKey};
use cups::message::{complete_send, receive, NewInboundMessage, NewOutboundMessage};
use cups::migrations::{migrate, Schema};
use cups::query::{BeforeAfter, Limits};
use cups::store::Store;
use cups::wire::encode;

fn test_key(seed: u8) -> PubKey {
    let sk = ed25519_dalek::SecretKey::from_bytes(&[seed; 32]).unwrap();
    let esk = ed25519_dalek::ExpandedSecretKey::from(&sk);
    SecKey::from_bytes(esk.to_bytes().to_vec()).unwrap().public()
}

fn test_seckey(seed: u8) -> SecKey {
    let sk = ed25519_dalek::SecretKey::from_bytes(&[seed; 32]).unwrap();
    let esk = ed25519_dalek::ExpandedSecretKey::from(&sk);
    SecKey::from_bytes(esk.to_bytes().to_vec()).unwrap()
}

fn inbound(key: &PubKey, time: i64, content: &str) -> NewInboundMessage {
    NewInboundMessage {
        from: PubKey::from_bytes(key.as_bytes().to_vec()).unwrap(),
        time,
        content: content.to_string(),
    }
}

fn store_with_inbound(key: &PubKey, n: usize) -> Store {
    let mut store = Store::new();
    for i in 0..n {
        store
            .save_in_message(inbound(key, 1000 + i as i64, &format!("m{}", i)))
            .unwrap();
    }
    store
}

fn no_limits() -> Limits {
    Limits { limit: None, before_after: None }
}

#[test]
fn listing_is_strictly_decreasing_and_complete() {
    let pk = test_key(1);
    let mut store = store_with_inbound(&pk, 5);
    let msgs = store.get_messages(&pk, &no_limits(), false);
    let ids: Vec<i64> = msgs.iter().map(|m| m.id).collect();
    assert_eq!(ids, vec![5, 4, 3, 2, 1]);
    assert_eq!(store.count_messages_by_user(&pk), 5);
}

#[test]
fn pagination_windows() {
    let pk = test_key(2);
    let mut store = store_with_inbound(&pk, 5);
    let first = store.get_messages(
        &pk,
        &Limits { limit: Some(2), before_after: None },
        false,
    );
    let ids: Vec<i64> = first.iter().map(|m| m.id).collect();
    assert_eq!(ids, vec![5, 4]);
    let before = store.get_messages(
        &pk,
        &Limits { limit: Some(2), before_after: Some(BeforeAfter::Before(4)) },
        false,
    );
    let ids: Vec<i64> = before.iter().map(|m| m.id).collect();
    assert_eq!(ids, vec![3, 2]);
    let after = store.get_messages(
        &pk,
        &Limits { limit: None, before_after: Some(BeforeAfter::After(3)) },
        false,
    );
    let ids: Vec<i64> = after.iter().map(|m| m.id).collect();
    assert_eq!(ids, vec![4, 5]);
}

#[test]
fn listings_separate_correspondents() {
    let pk1 = test_key(3);
    let pk2 = test_key(4);
    let mut store = Store::new();
    store.save_in_message(inbound(&pk1, 1, "a")).unwrap();
    store.save_in_message(inbound(&pk2, 2, "b")).unwrap();
    store.save_in_message(inbound(&pk1, 3, "c")).unwrap();
    let msgs = store.get_messages(&pk1, &no_limits(), false);
    let ids: Vec<i64> = msgs.iter().map(|m| m.id).collect();
    assert_eq!(ids, vec![3, 1]);
    assert_eq!(store.count_messages_by_user(&pk2), 1);
}

#[test]
fn mark_as_read_is_stable_and_counted() {
    let pk = test_key(5);
    let mut store = store_with_inbound(&pk, 4);
    let infos = store.get_user_info().unwrap();
    assert_eq!(infos.len(), 1);
    assert_eq!(infos[0].unreads, 4);
    let lim = Limits { limit: Some(2), before_after: None };
    let first = store.get_messages(&pk, &lim, true);
    let second = store.get_messages(&pk, &lim, false);
    let a: Vec<i64> = first.iter().map(|m| m.id).collect();
    let b: Vec<i64> = second.iter().map(|m| m.id).collect();
    assert_eq!(a, b);
    let infos = store.get_user_info().unwrap();
    assert_eq!(infos[0].unreads, 2);
}

#[test]
fn new_messages_drain_in_windows() {
    let pk = test_key(6);
    let mut store = store_with_inbound(&pk, 5);
    let first = store.get_new_messages(&pk, Some(3), true);
    let ids: Vec<i64> = first.iter().map(|m| m.id).collect();
    assert_eq!(ids, vec![1, 2, 3]);
    let second = store.get_new_messages(&pk, None, true);
    let ids: Vec<i64> = second.iter().map(|m| m.id).collect();
    assert_eq!(ids, vec![4, 5]);
    let third = store.get_new_messages(&pk, None, true);
    assert!(third.is_empty());
}

#[test]
fn users_and_names_upsert_and_delete() {
    let pk = test_key(7);
    let mut store = Store::new();
    store.save_user(
        PubKey::from_bytes(pk.as_bytes().to_vec()).unwrap(),
        "alice".to_string(),
    )
    .unwrap();
    let infos = store.get_user_info().unwrap();
    assert_eq!(infos.len(), 1);
    assert_eq!(infos[0].name.as_deref(), Some("alice"));
    assert_eq!(infos[0].unreads, 0);
    store.save_user(
        PubKey::from_bytes(pk.as_bytes().to_vec()).unwrap(),
        "bob".to_string(),
    )
    .unwrap();
    let infos = store.get_user_info().unwrap();
    assert_eq!(infos.len(), 1);
    assert_eq!(infos[0].name.as_deref(), Some("bob"));
    store.save_in_message(inbound(&pk, 9, "kept")).unwrap();
    store
        .del_user(PubKey::from_bytes(pk.as_bytes().to_vec()).unwrap())
        .unwrap();
    // The message is retained; the name is gone.
    let infos = store.get_user_info().unwrap();
    assert_eq!(infos.len(), 1);
    assert_eq!(infos[0].name, None);
    assert_eq!(infos[0].unreads, 1);
    assert_eq!(store.count_messages_by_user(&pk), 1);
}

#[test]
fn outbound_messages_are_read_and_tracked() {
    let pk = test_key(8);
    let mut store = Store::new();
    let msg = NewOutboundMessage {
        tracking_id: Some(vec![9u8; 16]),
        to: PubKey::from_bytes(pk.as_bytes().to_vec()).unwrap(),
        time: 77,
        content: "out".to_string(),
    };
    complete_send(&mut store, msg, 200).unwrap();
    let infos = store.get_user_info().unwrap();
    assert_eq!(infos[0].unreads, 0);
    let msgs = store.get_messages(&pk, &no_limits(), false);
    assert_eq!(msgs.len(), 1);
    assert!(!msgs[0].inbound);
    assert_eq!(msgs[0].tracking_id.as_deref(), Some(&[9u8; 16][..]));
    assert_eq!(msgs[0].time, 77);
}

#[test]
fn rejected_outbound_is_not_persisted() {
    let pk = test_key(9);
    let mut store = Store::new();
    let msg = NewOutboundMessage {
        tracking_id: None,
        to: PubKey::from_bytes(pk.as_bytes().to_vec()).unwrap(),
        time: 1,
        content: "lost".to_string(),
    };
    let err = complete_send(&mut store, msg, 502).unwrap_err();
    assert_eq!(err, cups::error::Error::RemoteRejected { status: 502 });
    assert_eq!(store.count_messages_by_user(&pk), 0);
    let infos = store.get_user_info().unwrap();
    assert!(infos.is_empty());
}

#[test]
fn received_envelope_is_persisted_unread() {
    let peer = test_seckey(10);
    let mut store = Store::new();
    let msg = NewOutboundMessage {
        tracking_id: None,
        to: peer.public(),
        time: 1700000000,
        content: "hi".to_string(),
    };
    let bytes = encode(&peer, &msg).unwrap();
    receive(&mut store, &bytes).unwrap();
    let infos = store.get_user_info().unwrap();
    assert_eq!(infos.len(), 1);
    assert_eq!(infos[0].unreads, 1);
    assert_eq!(infos[0].pubkey.as_bytes(), peer.public().as_bytes());
    let msgs = store.get_messages(&peer.public(), &no_limits(), false);
    assert_eq!(msgs.len(), 1);
    assert!(msgs[0].inbound);
    assert_eq!(msgs[0].content, "hi");
}

#[test]
fn bad_signature_is_not_persisted() {
    let peer = test_seckey(12);
    let mut store = Store::new();
    let msg = NewOutboundMessage {
        tracking_id: None,
        to: peer.public(),
        time: 5,
        content: "tampered".to_string(),
    };
    let mut bytes = encode(&peer, &msg).unwrap();
    let last = bytes.len() - 1;
    bytes[last] ^= 0xff;
    let err = receive(&mut store, &bytes).unwrap_err();
    assert_eq!(err, cups::error::Error::BadSignature);
    assert!(store.get_user_info().unwrap().is_empty());
    assert_eq!(store.count_messages_by_user(&peer.public()), 0);
}

#[test]
fn from_rows_accepts_exactly_well_formed_tables() {
    let pk = test_key(15);
    let row = |id: i64, read: bool| cups::store::MessageRow {
        id,
        tracking_id: None,
        user_id: pk.as_bytes().to_vec(),
        inbound: true,
        time: 0,
        content: "c".to_string(),
        read,
    };
    let mut store = Store::from_rows(vec![row(1, true), row(5, false)], Vec::new()).unwrap();
    assert_eq!(store.next_id(), 6);
    assert_eq!(store.count_messages_by_user(&pk), 2);
    let ids: Vec<i64> = store
        .get_messages(&pk, &no_limits(), false)
        .iter()
        .map(|m| m.id)
        .collect();
    assert_eq!(ids, vec![5, 1]);
    assert_eq!(store.get_user_info().unwrap()[0].unreads, 1);

    // Out-of-order or repeated ids, ids below 1, an unread outbound row, a
    // nil tracking id, and duplicate user keys are all refused.
    assert!(Store::from_rows(vec![row(5, true), row(5, true)], Vec::new()).is_none());
    assert!(Store::from_rows(vec![row(5, true), row(2, true)], Vec::new()).is_none());
    assert!(Store::from_rows(vec![row(0, true)], Vec::new()).is_none());
    let mut outbound_unread = row(1, false);
    outbound_unread.inbound = false;
    assert!(Store::from_rows(vec![outbound_unread], Vec::new()).is_none());
    let mut nil_tracking = row(1, true);
    nil_tracking.tracking_id = Some(vec![0u8; 16]);
    assert!(Store::from_rows(vec![nil_tracking], Vec::new()).is_none());
    let user = || cups::store::UserRow { id: pk.as_bytes().to_vec(), name: "n".to_string() };
    assert!(Store::from_rows(Vec::new(), vec![user()]).is_some());
    assert!(Store::from_rows(Vec::new(), vec![user(), user()]).is_none());
}

#[test]
fn migrations_are_idempotent() {
    let mut schema = Schema {
        has_messages_table: false,
        has_users_table: false,
        has_migrations_table: false,
        has_tracking_id_column: false,
        has_user_id_index: false,
        has_tracking_id_index: false,
        migrations: Vec::new(),
    };
    migrate(&mut schema);
    assert!(schema.has_messages_table);
    assert!(schema.has_users_table);
    assert!(schema.has_migrations_table);
    assert!(schema.has_tracking_id_column);
    assert!(schema.has_user_id_index);
    assert!(schema.has_tracking_id_index);
    assert_eq!(schema.migrations, vec!["init".to_string(), "tracking_ids".to_string()]);
    migrate(&mut schema);
    assert_eq!(schema.migrations, vec!["init".to_string(), "tracking_ids".to_string()]);
}

#[test]
fn migration_steps_are_name_gated() {
    let mut schema = Schema {
        has_messages_table: true,
        has_users_table: true,
        has_migrations_table: true,
        has_tracking_id_column: false,
        has_user_id_index: false,
        has_tracking_id_index: false,
        migrations: vec!["init".to_string()],
    };
    migrate(&mut schema);
    assert_eq!(schema.migrations, vec!["init".to_string(), "tracking_ids".to_string()]);
    assert!(schema.has_tracking_id_column);
}
