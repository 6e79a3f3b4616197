use settled::hash::{leaf_hash, node_hash};
use settled::merkle::{mth, MerkleTree};
use settled::proofs::{consistency_proof, inclusion_proof, verify_consistency, verify_inclusion, ProofError};
use settled::server::signing::SigningIdentity;
use settled::sth::{sign_tree_head, signing_payload, verify_tree_head};

fn standard_leaf_hashes() -> Vec<[u8; 32]> {
    (0..8).map(|i| leaf_hash(format!("entry-{i}").as_bytes())).collect()
}

fn public_key(seed: [u8; 32]) -> [u8; 32] {
    SigningIdentity { seed, version: 1 }.public_key_bytes()
}

#[test]
fn incremental_tree_matches_mth() {
    // Build a tree incrementally and verify the root matches mth() at each step.
    let entries: Vec<Vec<u8>> = (0..8).map(|i| format!("entry-{i}").into_bytes()).collect();
    let leaf_hashes: Vec<[u8; 32]> = entries.iter().map(|e| leaf_hash(e)).collect();

    let mut tree = MerkleTree::new();
    for (i, &lh) in leaf_hashes.iter().enumerate() {
        tree.append(lh);
        let expected = mth(&leaf_hashes[..=i]).unwrap();
        assert_eq!(
            tree.root().unwrap(),
            expected,
            "incremental root mismatch at size {}",
            i + 1
        );
    }
}

/// A server that alters a historical entry cannot produce a valid consistency
/// proof against a client holding the earlier signed tree head.
#[test]
fn tampered_history_fails_consistency_check() {
    let real_hashes = standard_leaf_hashes();
    let old_root = mth(&real_hashes[..4]).unwrap(); // STH at size 4

    // Attacker rewrites entry 0 and builds a new tree from tampered data.
    let mut tampered = real_hashes.clone();
    tampered[0] = leaf_hash(b"TAMPERED-ENTRY");
    let tampered_new_root = mth(&tampered).unwrap();

    let tampered_proof = consistency_proof(&tampered, 4).unwrap();
    assert!(
        !verify_consistency(4, 8, &tampered_proof, &old_root, &tampered_new_root),
        "tampered history must fail consistency check"
    );

    // Also confirm: the correct proof from the real tree does verify.
    let real_proof = consistency_proof(&real_hashes, 4).unwrap();
    let real_new_root = mth(&real_hashes).unwrap();
    assert!(
        verify_consistency(4, 8, &real_proof, &old_root, &real_new_root),
        "real proof must verify"
    );
}

/// A proof produced by a completely different tree cannot be used to convince
/// a verifier holding a root from a different tree.
#[test]
fn proof_from_different_tree_fails() {
    let tree_a: Vec<[u8; 32]> = (0u8..8).map(|i| leaf_hash(&[i])).collect();
    let tree_b: Vec<[u8; 32]> = (10u8..18).map(|i| leaf_hash(&[i])).collect();

    let old_root_a = mth(&tree_a[..4]).unwrap();
    let new_root_b = mth(&tree_b).unwrap();
    let proof_b = consistency_proof(&tree_b, 4).unwrap();

    assert!(
        !verify_consistency(4, 8, &proof_b, &old_root_a, &new_root_b),
        "proof from different tree must fail"
    );
}

/// verify_consistency must reject malformed inputs without panicking.
#[test]
fn consistency_edge_cases() {
    let lh = standard_leaf_hashes();
    let old_root = mth(&lh[..4]).unwrap();
    let new_root = mth(&lh).unwrap();
    let proof = consistency_proof(&lh, 4).unwrap();

    // old_size > new_size
    assert!(!verify_consistency(8, 4, &proof, &old_root, &new_root));
    // old_size == 0
    assert!(!verify_consistency(0, 8, &proof, &old_root, &new_root));
    // proof too long (extra element)
    let mut long_proof = proof.clone();
    long_proof.push([0u8; 32]);
    assert!(!verify_consistency(4, 8, &long_proof, &old_root, &new_root));
    // proof too short (missing element)
    assert!(!verify_consistency(4, 8, &proof[..proof.len() - 1], &old_root, &new_root));
    // empty proof for non-equal sizes
    assert!(!verify_consistency(4, 8, &[], &old_root, &new_root));
}

/// verify_inclusion must reject malformed inputs without panicking.
#[test]
fn inclusion_edge_cases() {
    let lh = standard_leaf_hashes();
    let root = mth(&lh).unwrap();
    let proof = inclusion_proof(&lh, 3).unwrap();

    // leaf_index >= tree_size
    assert!(!verify_inclusion(&lh[3], 8, 8, &proof, &root));
    // tree_size == 0
    assert!(!verify_inclusion(&lh[0], 0, 0, &[], &root));
    // proof too long
    let mut long_proof = proof.clone();
    long_proof.push([0u8; 32]);
    assert!(!verify_inclusion(&lh[3], 3, 8, &long_proof, &root));
}

#[test]
fn wrong_key_fails() {
    let seed_a = [0u8; 32];
    let seed_b = [1u8; 32]; // different key
    let root = [0xABu8; 32];

    let sig = sign_tree_head(&seed_a, 100, &root, 999_999_999);

    // Valid with key A
    assert!(verify_tree_head(&public_key(seed_a), 100, &root, 999_999_999, &sig));
    // Invalid with key B
    assert!(!verify_tree_head(&public_key(seed_b), 100, &root, 999_999_999, &sig));
}

#[test]
fn every_leaf_inclusion_proof_verifies() {
    for n in 1..=33usize {
        let lh: Vec<[u8; 32]> = (0..n).map(|i| leaf_hash(format!("leaf-{i}").as_bytes())).collect();
        let root = mth(&lh).unwrap();
        for i in 0..n {
            let proof = inclusion_proof(&lh, i).unwrap();
            assert!(
                verify_inclusion(&lh[i], i as u64, n as u64, &proof, &root),
                "inclusion failed: size={n} idx={i}"
            );
        }
    }
}

#[test]
fn any_two_snapshots_are_consistent() {
    for n in 1..=33usize {
        let lh: Vec<[u8; 32]> = (0..n).map(|i| leaf_hash(&[i as u8, 7])).collect();
        let new_root = mth(&lh).unwrap();
        for old in 1..=n {
            let old_root = mth(&lh[..old]).unwrap();
            let proof = consistency_proof(&lh, old).unwrap();
            assert!(
                verify_consistency(old as u64, n as u64, &proof, &old_root, &new_root),
                "consistency failed: old={old} new={n}"
            );
        }
    }
}

#[test]
fn proof_for_one_index_fails_at_another() {
    for n in 2..=16usize {
        let lh: Vec<[u8; 32]> = (0..n).map(|i| leaf_hash(format!("x{i}").as_bytes())).collect();
        let root = mth(&lh).unwrap();
        let proof = inclusion_proof(&lh, 0).unwrap();
        assert!(!verify_inclusion(&lh[0], 1, n as u64, &proof, &root));
    }
}

#[test]
fn leaf_hash_of_empty_input() {
    // RFC 6962 leaf hash of the empty string: SHA-256 of the single byte 0x00.
    let h = leaf_hash(b"");
    assert_eq!(
        hex::encode(h),
        "6e340b9cffb37a989ca544e6bb780a2c78901d3fb33738768511a30617afa01d"
    );
}

#[test]
fn node_hash_is_not_commutative() {
    let a = leaf_hash(b"a");
    let b = leaf_hash(b"b");
    assert_ne!(node_hash(&a, &b), node_hash(&b, &a));
    assert_ne!(node_hash(&a, &b), a);
}

#[test]
fn mth_of_small_trees() {
    let lh = standard_leaf_hashes();
    assert_eq!(mth(&[]), None);
    assert_eq!(mth(&lh[..1]).unwrap(), lh[0]);
    assert_eq!(mth(&lh[..2]).unwrap(), node_hash(&lh[0], &lh[1]));
    let left = node_hash(&lh[0], &lh[1]);
    assert_eq!(mth(&lh[..3]).unwrap(), node_hash(&left, &lh[2]));
    let right = node_hash(&lh[2], &lh[3]);
    assert_eq!(mth(&lh[..4]).unwrap(), node_hash(&left, &right));
}

#[test]
fn merkle_tree_size_and_append_index() {
    let lh = standard_leaf_hashes();
    let mut tree = MerkleTree::default();
    assert_eq!(tree.size(), 0);
    assert_eq!(tree.root(), None);
    for (i, &h) in lh.iter().enumerate() {
        assert_eq!(tree.append(h), i as u64);
        assert_eq!(tree.size(), i as u64 + 1);
    }
}

#[test]
fn inclusion_proof_paths_of_small_tree() {
    let lh = standard_leaf_hashes();
    assert!(inclusion_proof(&lh[..1], 0).unwrap().is_empty());
    assert_eq!(inclusion_proof(&lh[..2], 0).unwrap(), vec![lh[1]]);
    assert_eq!(inclusion_proof(&lh[..3], 2).unwrap(), vec![node_hash(&lh[0], &lh[1])]);
    assert_eq!(
        inclusion_proof(&lh[..4], 0).unwrap(),
        vec![lh[1], node_hash(&lh[2], &lh[3])]
    );
}

#[test]
fn proof_generation_errors() {
    let lh = standard_leaf_hashes();
    assert!(matches!(
        inclusion_proof(&lh, 8),
        Err(ProofError::LeafIndexOutOfRange(8, 8))
    ));
    assert!(matches!(consistency_proof(&lh, 0), Err(ProofError::InvalidSizes(0, 8))));
    assert!(matches!(consistency_proof(&lh, 9), Err(ProofError::InvalidSizes(9, 8))));
    assert!(consistency_proof(&lh, 8).unwrap().is_empty());
    assert_eq!(
        ProofError::LeafIndexOutOfRange(8, 8).message(),
        "leaf index 8 out of range for tree size 8"
    );
    assert_eq!(ProofError::InvalidSizes(0, 8).message(), "invalid tree sizes: old=0 new=8");
    assert_eq!(ProofError::TooShort.message(), "proof too short");
    assert_eq!(ProofError::TooLong.message(), "proof too long");
}

#[test]
fn consistency_proof_of_small_trees() {
    let lh = standard_leaf_hashes();
    // RFC 6962: PROOF(1, D[2]) = [h1]; PROOF(2, D[4]) = [MTH(D[2:4])].
    assert_eq!(consistency_proof(&lh[..2], 1).unwrap(), vec![lh[1]]);
    assert_eq!(consistency_proof(&lh[..4], 2).unwrap(), vec![node_hash(&lh[2], &lh[3])]);
    // Equal sizes: an empty proof and equal roots.
    let root = mth(&lh).unwrap();
    assert!(verify_consistency(8, 8, &[], &root, &root));
    assert!(!verify_consistency(8, 8, &[], &root, &lh[0]));
}

#[test]
fn signing_payload_layout() {
    let root = [0x11u8; 32];
    let p = signing_payload(0x0102030405060708, &root, -1);
    assert_eq!(&p[..8], &[1, 2, 3, 4, 5, 6, 7, 8]);
    assert_eq!(&p[8..40], &root);
    assert_eq!(&p[40..], &[0xff; 8]);
}

#[test]
fn signed_head_fields_tampered_fail() {
    let seed = [7u8; 32];
    let pk = public_key(seed);
    let root = [0x5au8; 32];
    let sig = sign_tree_head(&seed, 4, &root, 2_000_000_000);
    assert!(verify_tree_head(&pk, 4, &root, 2_000_000_000, &sig));
    assert!(!verify_tree_head(&pk, 5, &root, 2_000_000_000, &sig));
    let mut bad_root = root;
    bad_root[0] ^= 0xff;
    assert!(!verify_tree_head(&pk, 4, &bad_root, 2_000_000_000, &sig));
    assert!(!verify_tree_head(&pk, 4, &root, 2_000_000_001, &sig));
}

#[test]
fn public_key_of_zero_seed() {
    assert_eq!(
        hex::encode(public_key([0u8; 32])),
        "3b6a27bcceb6a42d62a3a8d02a6f0d73653215771de243a63ac048a18b59da29"
    );
}
