use settled::merkle::mth;
use settled::proofs::{consistency_proof, inclusion_proof};
use settled::sdk::checks::{
    leaf_hash, node_hash, signing_payload, verify_consistency, verify_inclusion, verify_tree_head,
    verify_tree_head_sequential, verify_tree_head_with_chain, KeyRecord,
};
use settled::sdk::client::{
    append_result, consistency_result, entries_from_pb, entry_or_default, from_pb_entry,
    from_pb_sth, inclusion_result, sth_or_default,
};
use settled::server::signing::SigningIdentity;
use settled::sth::sign_tree_head;
use settled::wire;

fn leaves(n: usize) -> Vec<[u8; 32]> {
    (0..n).map(|i| leaf_hash(format!("entry-{i}").as_bytes())).collect()
}

fn public_key(seed: [u8; 32]) -> [u8; 32] {
    SigningIdentity { seed, version: 1 }.public_key_bytes()
}

#[test]
fn sdk_hashes_match_core() {
    assert_eq!(leaf_hash(b"abc"), settled::hash::leaf_hash(b"abc"));
    let a = leaf_hash(b"a");
    let b = leaf_hash(b"b");
    assert_eq!(node_hash(&a, &b), settled::hash::node_hash(&a, &b));
    assert_ne!(node_hash(&a, &b), node_hash(&b, &a));
}

#[test]
fn sdk_verifies_generated_proofs() {
    for n in 1..=20usize {
        let lh = leaves(n);
        let root = mth(&lh).unwrap();
        for i in 0..n {
            let p = inclusion_proof(&lh, i).unwrap();
            assert!(verify_inclusion(lh[i], i as u64, n as u64, &p, root));
            assert!(!verify_inclusion(lh[i], i as u64, n as u64, &p, lh[i]) || n == 1);
        }
        for old in 1..=n {
            let old_root = mth(&lh[..old]).unwrap();
            let p = consistency_proof(&lh, old).unwrap();
            assert!(verify_consistency(old as u64, n as u64, &p, old_root, root));
        }
    }
}

#[test]
fn sdk_rejects_malformed_consistency() {
    let lh = leaves(8);
    let old_root = mth(&lh[..3]).unwrap();
    let new_root = mth(&lh).unwrap();
    let p = consistency_proof(&lh, 3).unwrap();
    assert!(verify_consistency(3, 8, &p, old_root, new_root));
    assert!(!verify_consistency(0, 8, &p, old_root, new_root));
    assert!(!verify_consistency(8, 3, &p, old_root, new_root));
    assert!(!verify_consistency(3, 8, &p[..p.len() - 1], old_root, new_root));
    let mut long = p.clone();
    long.push([0u8; 32]);
    assert!(!verify_consistency(3, 8, &long, old_root, new_root));
    assert!(!verify_consistency(3, 8, &p, new_root, new_root));
}

#[test]
fn test_verify_tree_head_sequential() {
    let seed = [3u8; 32];
    let pk = public_key(seed);
    let lh = leaves(8);
    let heads: Vec<(u64, [u8; 32], i64, [u8; 64])> = [(1u64, 1_000_000_000i64), (4, 2_000_000_000), (8, 1_713_362_400_000_000_000)]
        .iter()
        .map(|&(size, ts)| {
            let root = mth(&lh[..size as usize]).unwrap();
            (size, root, ts, sign_tree_head(&seed, size, &root, ts))
        })
        .collect();
    for pair in heads.windows(2) {
        let (size, root, ts, sig) = pair[1];
        assert!(verify_tree_head_sequential(size, root, ts, &sig, &pk, pair[0].2));
    }
    let (size, root, ts, sig) = heads[0];
    assert!(!verify_tree_head_sequential(size, root, ts, &sig, &pk, ts), "equal timestamp must fail");
    assert!(!verify_tree_head_sequential(size, root, ts, &sig, &pk, ts + 1));
}

#[test]
fn sdk_verify_tree_head_checks_lengths_and_signature() {
    let seed = [9u8; 32];
    let pk = public_key(seed);
    let root = [0x42u8; 32];
    let sig = sign_tree_head(&seed, 10, &root, 5);
    assert!(verify_tree_head(10, root, 5, &sig, &pk));
    assert!(!verify_tree_head(10, root, 5, &sig[..63], &pk));
    assert!(!verify_tree_head(10, root, 5, &sig, &pk[..31]));
    assert!(!verify_tree_head(11, root, 5, &sig, &pk));
    assert_eq!(signing_payload(10, root, 5), settled::sth::signing_payload(10, &root, 5));
}

#[test]
fn sdk_verify_with_key_chain() {
    let seed1 = [1u8; 32];
    let seed2 = [2u8; 32];
    let chain = vec![
        KeyRecord { version: 1, public_key: public_key(seed1), activated_at_tree_size: 0 },
        KeyRecord { version: 2, public_key: public_key(seed2), activated_at_tree_size: 100 },
    ];
    let root = [7u8; 32];
    let sig2 = sign_tree_head(&seed2, 150, &root, 99);
    assert!(verify_tree_head_with_chain(150, root, 99, &sig2, 2, &chain));
    assert!(!verify_tree_head_with_chain(150, root, 99, &sig2, 1, &chain));
    assert!(!verify_tree_head_with_chain(150, root, 99, &sig2, 3, &chain));
}

#[test]
fn client_conversions_keep_fields() {
    let s = wire::SignedTreeHead {
        tree_size: 3,
        root_hash: vec![1; 32],
        timestamp_ns: -4,
        signature: vec![2; 64],
        public_key: vec![3; 32],
        key_version: 5,
    };
    let c = from_pb_sth(s);
    assert_eq!((c.tree_size, c.timestamp_ns, c.key_version), (3, -4, 5));
    assert_eq!((c.root_hash, c.signature, c.public_key), (vec![1; 32], vec![2; 64], vec![3; 32]));

    let d = sth_or_default(None);
    assert_eq!((d.tree_size, d.timestamp_ns, d.key_version), (0, 0, 0));
    assert!(d.root_hash.is_empty() && d.signature.is_empty() && d.public_key.is_empty());

    let e = from_pb_entry(wire::Entry {
        seq: 9,
        timestamp_ns: 10,
        key: b"k".to_vec(),
        data: b"d".to_vec(),
        leaf_hash: vec![4; 32],
    });
    assert_eq!((e.seq, e.timestamp_ns), (9, 10));
    assert_eq!((e.key, e.data, e.leaf_hash), (b"k".to_vec(), b"d".to_vec(), vec![4; 32]));
    assert_eq!(entry_or_default(None).seq, 0);

    let es = entries_from_pb(vec![
        wire::Entry { seq: 1, timestamp_ns: 0, key: vec![], data: vec![], leaf_hash: vec![] },
        wire::Entry { seq: 2, timestamp_ns: 0, key: vec![], data: vec![], leaf_hash: vec![] },
    ]);
    assert_eq!(es.iter().map(|e| e.seq).collect::<Vec<_>>(), vec![1, 2]);

    let a = append_result(wire::AppendResponse { seq: 7, timestamp_ns: 8, leaf_hash: vec![5] });
    assert_eq!((a.seq, a.timestamp_ns, a.leaf_hash), (7, 8, vec![5]));

    let ip = inclusion_result(wire::InclusionProofResponse {
        leaf_index: 1,
        tree_size: 2,
        proof: vec![vec![6; 32]],
        sth: None,
    });
    assert_eq!((ip.leaf_index, ip.tree_size, ip.proof.len(), ip.sth.tree_size), (1, 2, 1, 0));

    let cp = consistency_result(wire::ConsistencyProofResponse {
        old_size: 1,
        new_size: 2,
        proof: vec![],
        old_sth: None,
        new_sth: Some(wire::SignedTreeHead {
            tree_size: 2,
            root_hash: vec![],
            timestamp_ns: 0,
            signature: vec![],
            public_key: vec![],
            key_version: 1,
        }),
    });
    assert_eq!((cp.old_size, cp.new_size, cp.old_sth.tree_size, cp.new_sth.tree_size), (1, 2, 0, 2));
}

#[test]
fn sdk_consistency_with_huge_sizes_is_rejected_without_panic() {
    assert!(!verify_consistency(1, u64::MAX, &[], [0u8; 32], [0u8; 32]));
    assert!(!verify_consistency(u64::MAX - 1, u64::MAX, &[[1u8; 32]], [0u8; 32], [0u8; 32]));
}
