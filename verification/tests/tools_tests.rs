use settled::hash::leaf_hash;
use settled::merkle::mth;
use settled::proofs::inclusion_proof;
use settled::sdk::client::{Entry, SignedTreeHead};
use settled::server::signing::SigningIdentity;
use settled::sth::sign_tree_head;
use settled::tools::check::{check_inclusion, check_latest_head, proof_path, CheckFailure};
use settled::tools::demo::{entry_row, fmt_hash, fmt_time, noun, proof32, proof_column, table_header, to32};

fn head(seed: [u8; 32], lh: &[[u8; 32]], ts: i64) -> SignedTreeHead {
    let root = mth(lh).unwrap();
    let sig = sign_tree_head(&seed, lh.len() as u64, &root, ts);
    SignedTreeHead {
        tree_size: lh.len() as u64,
        root_hash: root.to_vec(),
        timestamp_ns: ts,
        signature: sig.to_vec(),
        public_key: SigningIdentity { seed, version: 1 }.public_key_bytes().to_vec(),
        key_version: 1,
    }
}

#[test]
fn checker_accepts_a_good_head_and_inclusion() {
    let lh: Vec<[u8; 32]> = (0..5u8).map(|i| leaf_hash(&[i])).collect();
    let sth = head([6u8; 32], &lh, 123);
    let root = check_latest_head(&sth).ok().unwrap();
    assert_eq!(root, mth(&lh).unwrap());
    let wire_proof: Vec<Vec<u8>> = inclusion_proof(&lh, 2).unwrap().iter().map(|h| h.to_vec()).collect();
    let path = proof_path(&wire_proof).ok().unwrap();
    let data = vec![2u8];
    assert!(check_inclusion(2, 5, &root, 2, &path, &lh[2].to_vec(), &data).is_ok());
    // A valid proof for another leaf does not prove entry 3.
    let path3: Vec<[u8; 32]> = inclusion_proof(&lh, 3).unwrap();
    assert_eq!(
        check_inclusion(2, 5, &root, 3, &path3, &lh[2].to_vec(), &data),
        Err(CheckFailure::LeafIndexMismatch { seq: 2, leaf_index: 3 })
    );
    assert_eq!(
        check_inclusion(3, 5, &root, 3, &path3, &lh[3].to_vec(), &vec![3u8]),
        Ok(())
    );
    assert_eq!(
        check_inclusion(2, 5, &root, 2, &path, &lh[2].to_vec(), &vec![9u8]),
        Err(CheckFailure::LeafHashMismatch(2))
    );
    assert_eq!(
        check_inclusion(2, 5, &root, 2, &path3, &lh[2].to_vec(), &data),
        Err(CheckFailure::InclusionInvalid(2))
    );
    assert_eq!(check_inclusion(2, 5, &root, 2, &path, &vec![0u8; 3], &data), Err(CheckFailure::LeafHashLength));
}

#[test]
fn checker_failures() {
    let lh: Vec<[u8; 32]> = (0..3u8).map(|i| leaf_hash(&[i])).collect();
    let mut sth = head([6u8; 32], &lh, 1);
    sth.timestamp_ns = 2;
    assert_eq!(check_latest_head(&sth), Err(CheckFailure::SignatureInvalid));
    sth.root_hash.pop();
    assert_eq!(check_latest_head(&sth), Err(CheckFailure::RootHashLength));
    assert_eq!(proof_path(&vec![vec![0u8; 32], vec![0u8; 2]]), Err(CheckFailure::ProofNodeLength));
    assert_eq!(CheckFailure::RootHashLength.message(), "root_hash must be 32 bytes");
    assert_eq!(CheckFailure::SignatureInvalid.message(), "STH signature verification FAILED");
    assert_eq!(CheckFailure::ProofNodeLength.message(), "proof node must be 32 bytes");
    assert_eq!(CheckFailure::LeafHashLength.message(), "leaf_hash must be 32 bytes");
    assert_eq!(
        CheckFailure::LeafHashMismatch(4).message(),
        "leaf_hash does not match the entry data for seq=4"
    );
    assert_eq!(
        CheckFailure::LeafIndexMismatch { seq: 4, leaf_index: 5 }.message(),
        "Inclusion proof is for leaf_index=5, not seq=4"
    );
    assert_eq!(
        CheckFailure::InclusionInvalid(17).message(),
        "Inclusion proof verification FAILED for seq=17"
    );
}

#[test]
fn demo_hash_helpers() {
    assert_eq!(to32(&[5u8; 32]), [5u8; 32]);
    assert_eq!(proof32(&vec![vec![1u8; 32], vec![2u8; 32]]), vec![[1u8; 32], [2u8; 32]]);
    assert_eq!(fmt_hash(&[0xabu8; 32]), "abababababababab…");
    assert_eq!(fmt_hash(&[0x01, 0x02]), "0102…");
}

#[test]
fn demo_time_text() {
    // 1 day + 1h 2m 3s and 45 ms after the epoch.
    let ts = (86_400 + 3_723) * 1_000_000_000i64 + 45_000_000;
    assert_eq!(fmt_time(ts), "01:02:03.045Z");
    assert_eq!(fmt_time(0), "00:00:00.000Z");
    assert_eq!(fmt_time(-1_500_000_000), "00:00:01.500Z");
    assert_eq!(fmt_time(i64::MIN).len(), 13);
}

#[test]
fn demo_table_text() {
    let hdr = table_header(false);
    assert_eq!(
        hdr,
        format!("{:>4}  {:<20}  {:<20}  {:<20}  {:<18}", "Seq", "Key", "Data", "Time", "Leaf Hash")
    );
    assert_eq!(table_header(true), format!("{hdr}  Proof"));
    let e = Entry {
        seq: 7,
        timestamp_ns: 3_723_000_000_000,
        key: b"user:alice".to_vec(),
        data: b"login".to_vec(),
        leaf_hash: vec![0xcd; 32],
    };
    let row = entry_row(&e, proof_column(true, true));
    assert_eq!(
        row,
        format!(
            "{:>4}  {:<20}  {:<20}  {:<20}  {:<18}{}",
            7, "user:alice", "login", "01:02:03.000Z", "cdcdcdcdcdcdcdcd…", "  OK"
        )
    );
    assert_eq!(proof_column(false, true), "");
    assert_eq!(proof_column(true, false), "  FAIL");
    assert_eq!(noun(1), "entry");
    assert_eq!(noun(0), "entries");
    assert_eq!(noun(2), "entries");
}

#[test]
fn demo_row_of_non_utf8_key() {
    let e = Entry { seq: 12345, timestamp_ns: 0, key: vec![0xff, b'a'], data: vec![], leaf_hash: vec![] };
    let row = entry_row(&e, "");
    assert_eq!(
        row,
        format!(
            "{:>4}  {:<20}  {:<20}  {:<20}  {:<18}",
            12345, "\u{FFFD}a", "", "00:00:00.000Z", "…"
        )
    );
}
