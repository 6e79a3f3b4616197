use std::collections::BTreeMap;

use settled::server::signing::SigningIdentity;
use settled::sth::{sign_tree_head, signing_payload, verify_tree_head};
use settled::witness::{archive_get, decode_push_body, push, ArchivedSth, NodeState, PushBody, PushRejected};

fn public_key(seed: [u8; 32]) -> [u8; 32] {
    SigningIdentity { seed, version: 1 }.public_key_bytes()
}

fn make_state() -> NodeState {
    NodeState { signing_key: [0x33u8; 32], archive: BTreeMap::new() }
}

fn valid_push_body(server_seed: [u8; 32]) -> PushBody {
    let root_hash = [0xde_u8; 32];
    let tree_size = 42u64;
    let timestamp_ns = 1_700_000_000_000_000_000i64;
    let sig = sign_tree_head(&server_seed, tree_size, &root_hash, timestamp_ns);
    PushBody {
        tree_size,
        root_hash: hex::encode(root_hash),
        timestamp_ns,
        signature: hex::encode(sig),
        public_key: hex::encode(public_key(server_seed)),
        key_version: 1,
    }
}

#[test]
fn valid_push_returns_counter_signature() {
    let mut state = make_state();
    let node_pub = public_key(state.signing_key);
    let body = valid_push_body([0x11u8; 32]);

    let pr = push(&mut state, &body).ok().unwrap();
    assert_eq!(pr.public_key, hex::encode(node_pub));

    // Verify the counter-signature over the pushed head's payload.
    let root: [u8; 32] = hex::decode(&body.root_hash).unwrap().try_into().unwrap();
    let sig: [u8; 64] = hex::decode(&pr.counter_signature).unwrap().try_into().unwrap();
    assert!(verify_tree_head(&node_pub, body.tree_size, &root, body.timestamp_ns, &sig));
    let _ = signing_payload(body.tree_size, &root, body.timestamp_ns);
}

#[test]
fn invalid_signature_returns_400() {
    let mut state = make_state();
    let body = PushBody {
        tree_size: 1,
        root_hash: hex::encode([0u8; 32]),
        timestamp_ns: 0,
        signature: hex::encode([0u8; 64]),
        public_key: hex::encode([0u8; 32]),
        key_version: 1,
    };
    assert_eq!(push(&mut state, &body).err(), Some(PushRejected::BadSignature));
    assert!(state.archive.is_empty());
}

#[test]
fn malformed_push_is_refused() {
    let mut state = make_state();
    let mut body = valid_push_body([0x11u8; 32]);
    body.root_hash = "00".repeat(31);
    assert_eq!(push(&mut state, &body).err(), Some(PushRejected::Malformed));
    body.root_hash = "not hex".to_owned();
    assert_eq!(push(&mut state, &body).err(), Some(PushRejected::Malformed));
    assert!(decode_push_body(&body).is_none());
    assert!(state.archive.is_empty());
}

#[test]
fn archive_retrieval() {
    let mut state = make_state();
    let body = valid_push_body([0x11u8; 32]);
    push(&mut state, &body).ok().unwrap();
    let archived: ArchivedSth = archive_get(&state, body.tree_size).unwrap();
    assert_eq!(archived.tree_size, body.tree_size);
    assert_eq!(archived.root_hash, body.root_hash);
    assert_eq!(archived.signature, body.signature);
}

#[test]
fn archive_not_found_returns_404() {
    let state = make_state();
    assert!(archive_get(&state, 999).is_none());
}

#[test]
fn archive_keeps_first_head_of_a_size() {
    let mut state = make_state();
    let first = valid_push_body([0x11u8; 32]);
    push(&mut state, &first).ok().unwrap();
    let second = valid_push_body([0x22u8; 32]);
    push(&mut state, &second).ok().unwrap();
    assert_eq!(state.archive.len(), 1);
    assert_eq!(archive_get(&state, 42).unwrap().public_key, first.public_key);
}
