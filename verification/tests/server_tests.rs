use settled::hash::leaf_hash;
use settled::merkle::{mth, MerkleTree};
use settled::proofs::ProofError;
use settled::server::admin::{api_key_accepts, stats, KeyRecordJson, SthJson};
use settled::server::errors::{Code, Error, Status};
use settled::server::push::{
    final_sth, parse_counter_signature, push_url, record_push_failure, record_push_success,
    CounterSignatureError, PushResponse, RetrySchedule, RetryStep, SthPushBody,
};
use settled::server::service::{
    by_key_limit, check_key, check_leaf_in_range, check_old_size, check_size_order,
    consistency_path, consistency_response, get_response, inclusion_path, inclusion_response,
    latest_count, list_limit, list_start, resolve_tree_size, sth_response, sth_to_proto,
};
use settled::server::signing::{
    rotation_record, seed_key_record, sign_and_store, startup_key_version, Signer, SigningIdentity,
};
use settled::server::state::AppendState;
use settled::server::watch::{lagged_message, lagged_status, replay_next, WatchCursor};
use settled::storage::keys::KeyRecord;
use settled::storage::settled::SettledRecord;
use settled::storage::types::{Error as StorageError, LogEntry, SignedTreeHead};
use settled::storage::verify::verify_sth;
use settled::sth::verify_tree_head;

fn fake_sth(tree_size: u64) -> SignedTreeHead {
    SignedTreeHead {
        tree_size,
        root_hash: [tree_size as u8; 32],
        timestamp_ns: tree_size as i64 * 1_000_000,
        signature: [0u8; 64],
        public_key: [0u8; 32],
        key_version: 1,
    }
}

fn leaves(n: usize) -> Vec<[u8; 32]> {
    (0..n).map(|i| leaf_hash(format!("entry-{i}").as_bytes())).collect()
}

fn status_of(e: Error) -> (Code, String) {
    let s = Status::from(e);
    (s.code, s.message)
}

#[test]
fn get_latest_returns_newest_first_and_clamps_zero_to_one() {
    assert_eq!(latest_count(0), 1);
    assert_eq!(latest_count(3), 3);
    assert_eq!(latest_count(1000), 1000);
    assert_eq!(latest_count(5000), 1000);
}

#[test]
fn page_sizes_and_cursor() {
    assert_eq!(list_limit(0), 50);
    assert_eq!(list_limit(10), 10);
    assert_eq!(list_limit(2000), 1000);
    assert_eq!(by_key_limit(0), 50);
    assert_eq!(by_key_limit(999), 999);
    assert_eq!(by_key_limit(u32::MAX), 1000);
    assert_eq!(list_start(0, 17), 17);
    assert_eq!(list_start(5, 17), 5);
    assert_eq!(status_of(check_key(b"").err().unwrap()), (Code::InvalidArgument, "key must not be empty".to_owned()));
    assert!(check_key(b"k").is_ok());
}

#[test]
fn get_unknown_seq_returns_not_found() {
    assert_eq!(status_of(get_response(42, None).err().unwrap()), (Code::NotFound, "seq 42 not found".to_owned()));
    let e = LogEntry { seq: 1, timestamp_ns: 2, key: b"k".to_vec(), data: b"d".to_vec(), leaf_hash: leaf_hash(b"d") };
    let m = get_response(1, Some(e)).ok().unwrap();
    assert_eq!((m.seq, m.timestamp_ns, m.key, m.data), (1, 2, b"k".to_vec(), b"d".to_vec()));
    assert_eq!(m.leaf_hash, leaf_hash(b"d").to_vec());
}

#[test]
fn tree_size_resolution_and_head_lookup() {
    assert_eq!(resolve_tree_size(5, None).ok().unwrap(), 5);
    assert_eq!(resolve_tree_size(0, Some(9)).ok().unwrap(), 9);
    assert_eq!(status_of(resolve_tree_size(0, None).err().unwrap()), (Code::NotFound, "no STH available yet".to_owned()));
    assert_eq!(status_of(sth_response(0, None).err().unwrap()).1, "no STH available yet");
    assert_eq!(status_of(sth_response(7, None).err().unwrap()).1, "no STH at tree_size 7");
    let m = sth_response(7, Some(fake_sth(7))).ok().unwrap();
    assert_eq!((m.tree_size, m.root_hash, m.key_version), (7, vec![7u8; 32], 1));
    let p = sth_to_proto(&fake_sth(3));
    assert_eq!((p.signature.len(), p.public_key.len(), p.timestamp_ns), (64, 32, 3_000_000));
}

#[test]
fn inclusion_request_flow() {
    let lh = leaves(8);
    assert_eq!(
        status_of(check_leaf_in_range(8, 8).err().unwrap()),
        (Code::InvalidArgument, "seq 8 is out of range for tree_size 8".to_owned())
    );
    assert!(check_leaf_in_range(7, 8).is_ok());
    let path = inclusion_path(&lh, 3).ok().unwrap();
    assert_eq!(path, settled::proofs::inclusion_proof(&lh, 3).unwrap());
    let (code, msg) = status_of(inclusion_path(&lh[..2].to_vec(), 5).err().unwrap());
    assert_eq!((code, msg.as_str()), (Code::Internal, "leaf index 5 out of range for tree size 2"));
    assert_eq!(status_of(inclusion_response(3, 8, &path, None).err().unwrap()).1, "no STH at tree_size 8");
    let r = inclusion_response(3, 8, &path, Some(fake_sth(8))).ok().unwrap();
    assert_eq!((r.leaf_index, r.tree_size), (3, 8));
    assert_eq!(r.proof, path.iter().map(|h| h.to_vec()).collect::<Vec<_>>());
    assert_eq!(r.sth.unwrap().tree_size, 8);
}

#[test]
fn consistency_request_flow() {
    let lh = leaves(8);
    assert_eq!(status_of(check_old_size(0).err().unwrap()), (Code::InvalidArgument, "old_size must be > 0".to_owned()));
    assert_eq!(status_of(check_size_order(9, 8).err().unwrap()).1, "old_size 9 > new_size 8");
    assert!(check_size_order(8, 8).is_ok());
    let path = consistency_path(&lh, 4).ok().unwrap();
    assert_eq!(path, settled::proofs::consistency_proof(&lh, 4).unwrap());
    assert_eq!(status_of(consistency_path(&lh, 9).err().unwrap()).1, "invalid tree sizes: old=9 new=8");
    assert_eq!(status_of(consistency_response(4, 8, &path, None, Some(fake_sth(8))).err().unwrap()).1, "no STH at old_size 4");
    assert_eq!(status_of(consistency_response(4, 8, &path, Some(fake_sth(4)), None).err().unwrap()).1, "no STH at new_size 8");
    let r = consistency_response(4, 8, &path, Some(fake_sth(4)), Some(fake_sth(8))).ok().unwrap();
    assert_eq!((r.old_size, r.new_size, r.proof.len()), (4, 8, path.len()));
    assert_eq!((r.old_sth.unwrap().tree_size, r.new_sth.unwrap().tree_size), (4, 8));
}

#[test]
fn storage_and_proof_errors_are_internal() {
    assert_eq!(
        status_of(Error::Storage(StorageError::Corruption("x".to_owned()))),
        (Code::Internal, "Data corruption: x".to_owned())
    );
    assert_eq!(status_of(Error::Proof(ProofError::TooLong)), (Code::Internal, "proof too long".to_owned()));
}

#[test]
fn watch_skips_entries_already_replayed() {
    let mut c = WatchCursor::new();
    assert!(c.admit_live(0));
    let mut c = WatchCursor::new();
    for seq in 3..6 {
        c.replayed(seq);
    }
    let sent: Vec<u64> = [4u64, 5, 6, 6, 2, 7].iter().copied().filter(|&s| c.admit_live(s)).collect();
    assert_eq!(sent, vec![6, 7]);
    assert_eq!(c.last_sent, Some(7));
    assert_eq!(replay_next(0), None);
    assert_eq!(replay_next(200), Some(200));
    assert_eq!(lagged_message(12), "stream lagged by 12 entries; reconnect with last seen seq");
    assert_eq!(lagged_status(3).code, Code::ResourceExhausted);
}

#[test]
fn push_body_is_hex() {
    let b = SthPushBody::from(&fake_sth(10));
    assert_eq!(b.tree_size, 10);
    assert_eq!(b.root_hash, "0a".repeat(32));
    assert_eq!(b.signature, "00".repeat(64));
    assert_eq!(b.public_key, "00".repeat(32));
    assert_eq!((b.timestamp_ns, b.key_version), (10_000_000, 1));
    assert_eq!(push_url("http://n:1"), "http://n:1/push");
}

#[test]
fn counter_signature_parsing() {
    let ok = PushResponse { counter_signature: "ab".repeat(64), public_key: "CD".repeat(32) };
    let cs = parse_counter_signature("http://w", &ok).ok().unwrap();
    assert_eq!(cs.settled_node_url, "http://w");
    assert_eq!(cs.signature, [0xab; 64]);
    assert_eq!(cs.public_key, [0xcd; 32]);

    let bad_hex = PushResponse { counter_signature: "zz".to_owned(), public_key: "00".repeat(32) };
    assert!(matches!(parse_counter_signature("u", &bad_hex), Err(CounterSignatureError::InvalidHex(_))));
    let short_sig = PushResponse { counter_signature: "00".repeat(63), public_key: "00".repeat(32) };
    let e = parse_counter_signature("u", &short_sig).err().unwrap();
    assert_eq!(e.length_message().unwrap(), "counter_signature must be 64 bytes");
    let short_key = PushResponse { counter_signature: "00".repeat(64), public_key: "00".repeat(31) };
    let e = parse_counter_signature("u", &short_key).err().unwrap();
    assert_eq!(e.length_message().unwrap(), "public_key must be 32 bytes");
}

#[test]
fn server_retries_failed_push_with_backoff() {
    let mut s = RetrySchedule::new();
    let mut attempts = 1;
    let mut delays = Vec::new();
    loop {
        match s.after_failure() {
            RetryStep::Retry { delay_ms } => {
                delays.push(delay_ms);
                attempts += 1;
            }
            RetryStep::GiveUp => break,
        }
    }
    assert_eq!(attempts, 4, "must retry 4 times before giving up");
    assert_eq!(delays, vec![1000, 2000, 4000]);
}

#[test]
fn dead_node_flagged_after_max_failures() {
    let mut r = SettledRecord {
        url: "http://127.0.0.1:1".to_owned(),
        public_key: None,
        consecutive_failures: 0,
        flagged_dead: false,
        registered_at_ns: 0,
    };
    record_push_failure(&mut r, 2);
    assert!(!r.flagged_dead);
    record_push_failure(&mut r, 2);
    assert!(r.flagged_dead, "node must be flagged dead after max_push_failures");
    assert_eq!(r.consecutive_failures, 2);
    record_push_success(&mut r);
    assert!(!r.flagged_dead);
    assert_eq!(r.consecutive_failures, 0);
}

#[test]
fn final_head_kept_only_with_threshold() {
    assert!(final_sth(0, fake_sth(1), vec![]).is_none());
    let f = final_sth(2, fake_sth(1), vec![]).unwrap();
    assert_eq!(f.sth.tree_size, 1);
    assert!(f.counter_signatures.is_empty());
}

#[test]
fn signed_tree_head_signature_verifies() {
    let identity = SigningIdentity { seed: [4u8; 32], version: 3 };
    let lh = leaves(5);
    let mut tree = MerkleTree::new();
    assert!(sign_and_store(&identity, &tree, None, 1).is_none(), "an empty tree is not signed");
    for h in &lh {
        tree.append(*h);
    }
    assert!(sign_and_store(&identity, &tree, Some(5), 1).is_none(), "a size already signed is skipped");
    let sth = sign_and_store(&identity, &tree, Some(3), 77).unwrap();
    assert_eq!(sth.tree_size, 5);
    assert_eq!(sth.root_hash, mth(&lh).unwrap());
    assert_eq!(sth.timestamp_ns, 77);
    assert_eq!(sth.key_version, 3);
    assert_eq!(sth.public_key, identity.public_key());
    assert!(verify_tree_head(&sth.public_key, 5, &sth.root_hash, 77, &sth.signature));
    assert!(verify_sth(&sth));
    assert_eq!(identity.sign(&settled::sth::signing_payload(5, &sth.root_hash, 77)), sth.signature);
    assert_eq!(identity.key_version(), 3);
}

#[test]
fn append_state_rebuilds_from_log() {
    let lh = leaves(6);
    let mut st = AppendState::rebuild(&lh);
    assert_eq!(st.merkle.size(), 6);
    assert_eq!(st.merkle.root().unwrap(), mth(&lh).unwrap());
    let extra = leaf_hash(b"more");
    st.record_append(extra);
    let mut all = lh.clone();
    all.push(extra);
    assert_eq!(st.merkle.root().unwrap(), mth(&all).unwrap());
}

#[test]
fn key_versions_at_startup_and_rotation() {
    assert_eq!(startup_key_version(&None), (1, true));
    let k = KeyRecord { version: 4, public_key: [1; 32], activated_at_tree_size: 9 };
    assert_eq!(startup_key_version(&Some(k)), (4, false));
    let s = seed_key_record([2; 32]);
    assert_eq!((s.version, s.public_key, s.activated_at_tree_size), (1, [2; 32], 0));
    let r = rotation_record(4, [3; 32], 120);
    assert_eq!((r.version, r.public_key, r.activated_at_tree_size), (5, [3; 32], 120));
}

#[test]
fn admin_answers() {
    let j = KeyRecordJson::from(KeyRecord { version: 2, public_key: [0xff; 32], activated_at_tree_size: 8 });
    assert_eq!((j.version, j.public_key, j.activated_at_tree_size), (2, "ff".repeat(32), 8));
    let s = SthJson::from(&fake_sth(1));
    assert_eq!((s.tree_size, s.root_hash), (1, "01".repeat(32)));
    let st = stats(10, 12, &Some(fake_sth(2)));
    assert_eq!((st.entry_count, st.tree_size, st.last_sth_timestamp_ns), (10, 12, Some(2_000_000)));
    assert_eq!(stats(0, 0, &None).last_sth_timestamp_ns, None);
}

#[test]
fn api_key_check() {
    assert!(api_key_accepts(None, None));
    assert!(api_key_accepts(Some("s3cret"), Some(b"Bearer s3cret")));
    assert!(!api_key_accepts(Some("s3cret"), Some(b"Bearer s3cre")));
    assert!(!api_key_accepts(Some("s3cret"), Some(b"bearer s3cret")));
    assert!(!api_key_accepts(Some("s3cret"), None));
}

#[test]
fn failure_count_stops_at_the_limit() {
    let mut r = SettledRecord {
        url: "http://w".to_owned(),
        public_key: None,
        consecutive_failures: 0,
        flagged_dead: false,
        registered_at_ns: 0,
    };
    for k in 1..=6u32 {
        // Only live witnesses are pushed to.
        if !r.flagged_dead {
            record_push_failure(&mut r, 3);
        }
        assert_eq!(r.consecutive_failures, k.min(3));
        assert_eq!(r.flagged_dead, k >= 3);
    }
}

#[test]
fn watch_sends_every_later_entry_in_order() {
    let mut c = WatchCursor::new();
    c.replayed(4);
    let sent: Vec<u64> = (0u64..10).filter(|&s| c.admit_live(s)).collect();
    assert_eq!(sent, vec![5, 6, 7, 8, 9]);
}
