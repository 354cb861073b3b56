use cups::api::{check_auth, parse_post_body, version_bytes, PostAction};
use cups::config::{load_seckey, Config};
use cups::error::Error;
use cups::keys::{PubKey, SecKey};
use cups::message::NewInboundMessage;
use cups::query::{handle, Limits, Query};
use cups::store::Store;

fn test_seckey(seed: u8) -> SecKey {
    let sk = ed25519_dalek::SecretKey::from_bytes(&[seed; 32]).unwrap();
    let esk = ed25519_dalek::ExpandedSecretKey::from(&sk);
    SecKey::from_bytes(esk.to_bytes().to_vec()).unwrap()
}

fn test_key(seed: u8) -> PubKey {
    test_seckey(seed).public()
}

fn b32(bytes: &[u8]) -> String {
    base32::encode(base32::Alphabet::RFC4648 { padding: false }, bytes).to_lowercase()
}

fn inbound(key: &PubKey, time: i64, content: &str) -> NewInboundMessage {
    NewInboundMessage {
        from: PubKey::from_bytes(key.as_bytes().to_vec()).unwrap(),
        time,
        content: content.to_string(),
    }
}

#[test]
fn auth_accepts_exactly_the_encoded_credentials() {
    let expected = format!("Basic {}", base64::encode("me:hunter2"));
    assert!(check_auth(expected.as_bytes(), b"hunter2"));
    assert!(!check_auth(b"Basic hunter2", b"hunter2"));
    let wrong = format!("Basic {}", base64::encode("me:other"));
    assert!(!check_auth(wrong.as_bytes(), b"hunter2"));
    assert!(!check_auth(b"", b"hunter2"));
}

#[test]
fn version_blob_is_three_big_endian_words() {
    let v = version_bytes(1, 2, 0x0102030405060708);
    assert_eq!(v.len(), 24);
    assert_eq!(&v[..8], &[0, 0, 0, 0, 0, 0, 0, 1]);
    assert_eq!(&v[8..16], &[0, 0, 0, 0, 0, 0, 0, 2]);
    assert_eq!(&v[16..], &[1, 2, 3, 4, 5, 6, 7, 8]);
}

#[test]
fn post_body_send_is_parsed() {
    let to = test_key(1);
    let mut body = vec![0u8];
    body.extend_from_slice(&[7u8; 16]);
    body.extend_from_slice(to.as_bytes());
    body.extend_from_slice("hello".as_bytes());
    match parse_post_body(&body, 99).unwrap() {
        PostAction::Send(m) => {
            assert_eq!(m.tracking_id.as_deref(), Some(&[7u8; 16][..]));
            assert_eq!(m.to.as_bytes(), to.as_bytes());
            assert_eq!(m.time, 99);
            assert_eq!(m.content, "hello");
        },
        _ => panic!("expected a send"),
    }
}

#[test]
fn post_body_nil_tracking_id_is_absent() {
    let to = test_key(2);
    let mut body = vec![0u8];
    body.extend_from_slice(&[0u8; 16]);
    body.extend_from_slice(to.as_bytes());
    body.extend_from_slice("x".as_bytes());
    match parse_post_body(&body, 1).unwrap() {
        PostAction::Send(m) => assert!(m.tracking_id.is_none()),
        _ => panic!("expected a send"),
    }
}

#[test]
fn post_body_save_user_is_parsed() {
    let key = test_key(3);
    let mut body = vec![1u8];
    body.extend_from_slice(key.as_bytes());
    body.extend_from_slice("alice".as_bytes());
    match parse_post_body(&body, 0).unwrap() {
        PostAction::SaveUser(k, name) => {
            assert_eq!(k.as_bytes(), key.as_bytes());
            assert_eq!(name, "alice");
        },
        _ => panic!("expected an upsert"),
    }
}

#[test]
fn post_body_errors() {
    assert_eq!(parse_post_body(&[0u8; 32], 0).unwrap_err(), Error::BadEncoding);
    let mut unknown = vec![9u8];
    unknown.extend_from_slice(&[0u8; 48]);
    assert_eq!(parse_post_body(&unknown, 0).unwrap_err(), Error::BadEncoding);
    let mut short_send = vec![0u8];
    short_send.extend_from_slice(&[1u8; 40]);
    assert_eq!(parse_post_body(&short_send, 0).unwrap_err(), Error::BadKey);
    let key = test_key(4);
    let mut bad_utf8 = vec![1u8];
    bad_utf8.extend_from_slice(key.as_bytes());
    bad_utf8.extend_from_slice(&[0xff, 0xfe]);
    assert_eq!(parse_post_body(&bad_utf8, 0).unwrap_err(), Error::BadEncoding);
}

#[test]
fn users_listing_encodes_name_and_unreads() {
    let pk = test_key(5);
    let mut store = Store::new();
    store
        .save_user(PubKey::from_bytes(pk.as_bytes().to_vec()).unwrap(), "alice".to_string())
        .unwrap();
    let out = handle(&mut store, Query::Users { include_recent_messages: 0 }).unwrap();
    let mut expected = pk.as_bytes().to_vec();
    expected.extend_from_slice(&[0u8; 8]);
    expected.push(5);
    expected.extend_from_slice("alice".as_bytes());
    assert_eq!(out, expected);
}

#[test]
fn users_listing_counts_unreads_without_name() {
    let pk = test_key(6);
    let mut store = Store::new();
    store.save_in_message(inbound(&pk, 1, "a")).unwrap();
    let out = handle(&mut store, Query::Users { include_recent_messages: 0 }).unwrap();
    let mut expected = pk.as_bytes().to_vec();
    expected.extend_from_slice(&[0, 0, 0, 0, 0, 0, 0, 1]);
    expected.push(0);
    assert_eq!(out, expected);
}

#[test]
fn users_listing_includes_recent_messages() {
    let pk = test_key(7);
    let mut store = Store::new();
    store.save_in_message(inbound(&pk, 11, "hi")).unwrap();
    let out = handle(&mut store, Query::Users { include_recent_messages: 3 }).unwrap();
    let mut expected = pk.as_bytes().to_vec();
    expected.extend_from_slice(&[0, 0, 0, 0, 0, 0, 0, 1]);
    expected.push(0);
    expected.push(1);
    expected.push(1);
    expected.extend_from_slice(&[0, 0, 0, 0, 0, 0, 0, 1]);
    expected.extend_from_slice(&[0u8; 16]);
    expected.extend_from_slice(&[0, 0, 0, 0, 0, 0, 0, 11]);
    expected.extend_from_slice(&[0, 0, 0, 0, 0, 0, 0, 2]);
    expected.extend_from_slice("hi".as_bytes());
    assert_eq!(out, expected);
    // Listing with recent messages marks nothing as read.
    let infos = store.get_user_info().unwrap();
    assert_eq!(infos[0].unreads, 1);
}

#[test]
fn messages_query_encodes_the_window() {
    let pk = test_key(8);
    let mut store = Store::new();
    store.save_in_message(inbound(&pk, 21, "one")).unwrap();
    store.save_in_message(inbound(&pk, 22, "two")).unwrap();
    let q = Query::Messages {
        pubkey: b32(pk.as_bytes()),
        limits: Limits { limit: Some(1), before_after: None },
        mark_as_read: false,
    };
    let out = handle(&mut store, q).unwrap();
    let mut expected = vec![1u8];
    expected.extend_from_slice(&[0, 0, 0, 0, 0, 0, 0, 2]);
    expected.extend_from_slice(&[0u8; 16]);
    expected.extend_from_slice(&[0, 0, 0, 0, 0, 0, 0, 22]);
    expected.extend_from_slice(&[0, 0, 0, 0, 0, 0, 0, 3]);
    expected.extend_from_slice("two".as_bytes());
    assert_eq!(out, expected);
}

#[test]
fn new_query_drains_the_backlog() {
    let pk = test_key(9);
    let mut store = Store::new();
    store.save_in_message(inbound(&pk, 1, "a")).unwrap();
    store.save_in_message(inbound(&pk, 2, "b")).unwrap();
    let q = Query::New { pubkey: b32(pk.as_bytes()), limit: None };
    let out = handle(&mut store, q).unwrap();
    assert!(!out.is_empty());
    let q2 = Query::New { pubkey: b32(pk.as_bytes()), limit: None };
    let out2 = handle(&mut store, q2).unwrap();
    assert!(out2.is_empty());
}

#[test]
fn login_is_empty_and_bad_pubkey_is_refused() {
    let mut store = Store::new();
    let out = handle(&mut store, Query::Login).unwrap();
    assert!(out.is_empty());
    let q = Query::Messages {
        pubkey: "!!!!".to_string(),
        limits: Limits { limit: None, before_after: None },
        mark_as_read: false,
    };
    assert_eq!(handle(&mut store, q).unwrap_err(), Error::BadEncoding);
    let q = Query::New { pubkey: b32(&[0u8; 7]), limit: None };
    assert_eq!(handle(&mut store, q).unwrap_err(), Error::BadKey);
}

#[test]
fn delete_removes_the_user_row() {
    let pk = test_key(10);
    let mut store = Store::new();
    store
        .save_user(PubKey::from_bytes(pk.as_bytes().to_vec()).unwrap(), "gone".to_string())
        .unwrap();
    cups::delete::handle(&mut store, cups::delete::Query::User { pubkey: b32(pk.as_bytes()) })
        .unwrap();
    assert!(store.get_user_info().unwrap().is_empty());
    let err = cups::delete::handle(
        &mut store,
        cups::delete::Query::User { pubkey: "????".to_string() },
    )
    .unwrap_err();
    assert_eq!(err, Error::BadEncoding);
}

#[test]
fn seckey_loads_from_base32_config() {
    let key = test_seckey(13);
    let sk = ed25519_dalek::SecretKey::from_bytes(&[13u8; 32]).unwrap();
    let esk = ed25519_dalek::ExpandedSecretKey::from(&sk);
    let config = Config {
        password: "pw".to_string(),
        address_private_key: base32::encode(
            base32::Alphabet::RFC4648 { padding: false },
            &esk.to_bytes(),
        ),
    };
    let loaded = load_seckey(&config).unwrap();
    assert_eq!(loaded.public().as_bytes(), key.public().as_bytes());
    let bad = Config { password: "pw".to_string(), address_private_key: "***".to_string() };
    assert_eq!(load_seckey(&bad).unwrap_err(), Error::Config);
}
