use cups::error::Error;
use cups::keys::{PubKey, SecKey};
use cups::message::NewOutboundMessage;
use cups::onion::derive_onion;
use cups::wire::{encode, parse};
use sha3::Digest;

fn test_seckey(seed: u8) -> SecKey {
    let sk = ed25519_dalek::SecretKey::from_bytes(&[seed; 32]).unwrap();
    let esk = ed25519_dalek::ExpandedSecretKey::from(&sk);
    SecKey::from_bytes(esk.to_bytes().to_vec()).unwrap()
}

fn draft(key: &SecKey, time: i64, content: &str) -> NewOutboundMessage {
    NewOutboundMessage {
        tracking_id: None,
        to: key.public(),
        time,
        content: content.to_string(),
    }
}

#[test]
fn encode_decode_round_trip() {
    let key = test_seckey(7);
    let msg = draft(&key, 1700000000, "hello over the wire");
    let bytes = encode(&key, &msg).unwrap();
    assert_eq!(bytes.len(), 105 + "hello over the wire".len());
    assert_eq!(bytes[0], 0);
    let decoded = parse(&bytes).unwrap();
    assert_eq!(decoded.from.as_bytes(), key.public().as_bytes());
    assert_eq!(decoded.time, 1700000000);
    assert_eq!(decoded.content, "hello over the wire");
}

#[test]
fn encode_decode_negative_time() {
    let key = test_seckey(9);
    let msg = draft(&key, -12345, "");
    let bytes = encode(&key, &msg).unwrap();
    assert_eq!(bytes.len(), 105);
    let decoded = parse(&bytes).unwrap();
    assert_eq!(decoded.time, -12345);
    assert_eq!(decoded.content, "");
}

#[test]
fn mutated_payload_is_bad_signature() {
    let key = test_seckey(3);
    let msg = draft(&key, 42, "payload under signature");
    let bytes = encode(&key, &msg).unwrap();
    for idx in [97usize, 100, 104, 105, bytes.len() - 1] {
        let mut bad = bytes.clone();
        bad[idx] ^= 0x01;
        assert_eq!(parse(&bad).unwrap_err(), Error::BadSignature);
    }
}

#[test]
fn mutated_signature_is_bad_signature() {
    let key = test_seckey(4);
    let msg = draft(&key, 42, "x");
    let bytes = encode(&key, &msg).unwrap();
    for idx in [33usize, 50, 96] {
        let mut bad = bytes.clone();
        bad[idx] ^= 0x01;
        assert_eq!(parse(&bad).unwrap_err(), Error::BadSignature);
    }
}

#[test]
fn short_input_is_truncated_frame() {
    assert_eq!(parse(&[]).unwrap_err(), Error::TruncatedFrame);
    assert_eq!(parse(&[0u8]).unwrap_err(), Error::TruncatedFrame);
    let almost = vec![0u8; 96];
    assert_eq!(parse(&almost).unwrap_err(), Error::TruncatedFrame);
}

#[test]
fn short_payload_after_signature_check() {
    // 97 <= len < 105: too short for a timestamp. The all-zero frame even
    // verifies (zero key and signature are degenerate curve points), so the
    // decoder reaches the payload and refuses it as truncated.
    let bytes = vec![0u8; 100];
    assert_eq!(parse(&bytes).unwrap_err(), Error::TruncatedFrame);

    // A signed frame whose payload is still shorter than a timestamp.
    let key = test_seckey(6);
    let msg = draft(&key, 0, "");
    let full = encode(&key, &msg).unwrap();
    let mut short = full[..97].to_vec();
    let sig = {
        let sk = ed25519_dalek::SecretKey::from_bytes(&[6u8; 32]).unwrap();
        let esk = ed25519_dalek::ExpandedSecretKey::from(&sk);
        let pk = ed25519_dalek::PublicKey::from(&esk);
        esk.sign(b"abc", &pk).to_bytes()
    };
    short[33..97].copy_from_slice(&sig);
    short.extend_from_slice(b"abc");
    assert_eq!(parse(&short).unwrap_err(), Error::TruncatedFrame);
}

#[test]
fn unknown_version_is_rejected() {
    let key = test_seckey(5);
    let msg = draft(&key, 1, "v");
    let mut bytes = encode(&key, &msg).unwrap();
    bytes[0] = 1;
    assert_eq!(parse(&bytes).unwrap_err(), Error::UnsupportedVersion);
}

#[test]
fn invalid_utf8_content_is_bad_encoding() {
    // Assemble an envelope by hand, signing an invalid-UTF-8 payload.
    let sk = ed25519_dalek::SecretKey::from_bytes(&[8u8; 32]).unwrap();
    let esk = ed25519_dalek::ExpandedSecretKey::from(&sk);
    let pk = ed25519_dalek::PublicKey::from(&esk);
    let mut payload = vec![0u8; 8];
    payload.extend_from_slice(&[0xff, 0xfe]);
    let sig = esk.sign(&payload, &pk);
    let mut envelope = vec![0u8];
    envelope.extend_from_slice(pk.as_bytes());
    envelope.extend_from_slice(&sig.to_bytes());
    envelope.extend_from_slice(&payload);
    assert_eq!(parse(&envelope).unwrap_err(), Error::BadEncoding);
}

#[test]
fn pubkey_from_bytes_checks_length() {
    assert!(PubKey::from_bytes(vec![0u8; 31]).is_none());
    assert!(PubKey::from_bytes(vec![0u8; 33]).is_none());
}

#[test]
fn seckey_from_bytes_checks_clamping() {
    assert!(SecKey::from_bytes(vec![0u8; 64]).is_none());
    let mut ok = vec![0u8; 64];
    ok[31] = 64;
    assert!(SecKey::from_bytes(ok.clone()).is_some());
    let mut unclamped = ok.clone();
    unclamped[0] = 1;
    assert!(SecKey::from_bytes(unclamped).is_none());
    assert!(SecKey::from_bytes(vec![0u8; 63]).is_none());
}

#[test]
fn onion_derivation_matches_tor_v3() {
    let key = test_seckey(11);
    let pk = key.public();
    let onion = derive_onion(&pk);
    assert_eq!(onion.len(), 56);
    assert_eq!(onion, onion.to_lowercase());

    // Recompute independently: base32(pk || sha3_256(".onion checksum" || pk
    // || 3)[..2] || 3), lower case.
    let mut hasher = sha3::Sha3_256::new();
    hasher.update(b".onion checksum");
    hasher.update(pk.as_bytes());
    hasher.update(&[3u8]);
    let checksum = hasher.finalize();
    let mut addr = pk.as_bytes().to_vec();
    addr.extend_from_slice(&checksum[..2]);
    addr.push(3);
    let expected =
        base32::encode(base32::Alphabet::RFC4648 { padding: false }, &addr).to_lowercase();
    assert_eq!(onion, expected);
}

#[test]
fn onion_differs_per_key() {
    let a = derive_onion(&test_seckey(1).public());
    let b = derive_onion(&test_seckey(2).public());
    assert_ne!(a, b);
}
