use settled::hash::{leaf_hash, node_hash};
use settled::merkle::mth;
use settled::storage::db::{check_schema_version, next_seq_after, SchemaCheck, CURRENT_SCHEMA_VERSION};
use settled::storage::keys::{decode, key_record_key, KeyRecord, KeyRecordProto};
use settled::storage::log::{head_range_step, index_value_seq, new_log_record, range_step, seq_key};
use settled::storage::settled::{from_proto, live, to_proto, SettledRecord};
use settled::storage::tree_store::{compute_nodes_from_leaves, decode_tree_node, tree_key};
use settled::storage::types::{
    CounterSignature, CounterSignatureProto, Error, FinalSTH, FinalSTHProto, LogEntry,
    LogEntryProto, SignedTreeHead, SignedTreeHeadProto,
};

fn corruption(e: Error) -> String {
    match e {
        Error::Corruption(m) => m,
        _ => panic!("expected a corruption error"),
    }
}

#[test]
fn computed_nodes_are_subtree_roots() {
    for n in 1..=40usize {
        let lh: Vec<[u8; 32]> = (0..n).map(|i| leaf_hash(format!("e{i}").as_bytes())).collect();
        let nodes = compute_nodes_from_leaves(lh.iter().copied().enumerate().map(|(i, h)| (i as u64, h)).collect());
        // Every complete subtree of the first n leaves appears once, as its root.
        let mut expected = 0usize;
        for level in 0..7u32 {
            let width = 1usize << level;
            for index in 0..(n / width) {
                expected += 1;
                let root = mth(&lh[index * width..(index + 1) * width]).unwrap();
                assert!(
                    nodes.contains(&(level as u64, index as u64, root)),
                    "missing node level={level} index={index} n={n}"
                );
            }
        }
        assert_eq!(nodes.len(), expected);
    }
}

#[test]
fn computed_nodes_order_for_four_leaves() {
    let lh: Vec<[u8; 32]> = (0..4u8).map(|i| leaf_hash(&[i])).collect();
    let nodes = compute_nodes_from_leaves(lh.iter().copied().enumerate().map(|(i, h)| (i as u64, h)).collect());
    let n01 = node_hash(&lh[0], &lh[1]);
    let n23 = node_hash(&lh[2], &lh[3]);
    assert_eq!(
        nodes,
        vec![
            (0, 0, lh[0]),
            (0, 1, lh[1]),
            (1, 0, n01),
            (0, 2, lh[2]),
            (0, 3, lh[3]),
            (1, 1, n23),
            (2, 0, node_hash(&n01, &n23)),
        ]
    );
}

#[test]
fn tree_key_is_level_then_index_big_endian() {
    let k = tree_key(1, 0x0203);
    assert_eq!(k, [0, 0, 0, 0, 0, 0, 0, 1, 0, 0, 0, 0, 0, 0, 2, 3]);
}

#[test]
fn tree_node_values_must_have_32_bytes() {
    assert_eq!(decode_tree_node(&[9u8; 32]).ok().unwrap(), [9u8; 32]);
    assert_eq!(corruption(decode_tree_node(&[9u8; 31]).err().unwrap()), "tree node value must be 32 bytes");
}

#[test]
fn schema_version_checks() {
    match check_schema_version(None).ok().unwrap() {
        SchemaCheck::Initialise(b) => assert_eq!(b, CURRENT_SCHEMA_VERSION.to_be_bytes()),
        SchemaCheck::Compatible(_) => panic!("a new database is initialised"),
    }
    match check_schema_version(Some(&1u32.to_be_bytes()[..])).ok().unwrap() {
        SchemaCheck::Compatible(v) => assert_eq!(v, 1),
        SchemaCheck::Initialise(_) => panic!("an existing version is kept"),
    }
    match check_schema_version(Some(&2u32.to_be_bytes()[..])).err().unwrap() {
        Error::SchemaMismatch { found, supported } => assert_eq!((found, supported), (2, 1)),
        _ => panic!("a newer schema is refused"),
    }
    let e = check_schema_version(Some(&[0u8, 1][..])).err().unwrap();
    assert_eq!(e.message(), "Data corruption: bad schema_version length");
    let e = Error::SchemaMismatch { found: 7, supported: 1 };
    assert_eq!(e.message(), "Schema version mismatch: found 7, this binary supports up to 1");
}

#[test]
fn next_seq_resumes_after_last_key() {
    assert_eq!(next_seq_after(None).ok().unwrap(), 0);
    assert_eq!(next_seq_after(Some(&41u64.to_be_bytes()[..])).ok().unwrap(), 42);
    assert_eq!(corruption(next_seq_after(Some(&[1u8, 2, 3][..])).err().unwrap()), "bad seq key length");
}

#[test]
fn log_keys_and_scan_steps() {
    assert_eq!(seq_key(258), 258u64.to_be_bytes());
    assert_eq!(range_step(&5u64.to_be_bytes(), 7).ok().unwrap(), Some(5));
    assert_eq!(range_step(&7u64.to_be_bytes(), 7).ok().unwrap(), None);
    assert_eq!(corruption(range_step(&[0u8; 4], 7).err().unwrap()), "bad seq key length");
    assert_eq!(head_range_step(&6u64.to_be_bytes(), 6).ok().unwrap(), Some(6));
    assert_eq!(head_range_step(&7u64.to_be_bytes(), 6).ok().unwrap(), None);
    assert_eq!(corruption(head_range_step(&[0u8; 9], 6).err().unwrap()), "bad tree_size key length");
    assert_eq!(index_value_seq(&3u64.to_be_bytes()).ok().unwrap(), 3);
    assert_eq!(corruption(index_value_seq(&[1]).err().unwrap()), "bad seq value in index CF");
}

#[test]
fn written_entry_is_retrievable_by_seq() {
    let p = new_log_record(4, 99, b"k1", b"hello world");
    assert_eq!(p.leaf_hash, leaf_hash(b"hello world").to_vec());
    let e = LogEntry::try_from(p).ok().unwrap();
    assert_eq!(e.seq, 4);
    assert_eq!(e.timestamp_ns, 99);
    assert_eq!(e.key, b"k1");
    assert_eq!(e.data, b"hello world");
    assert_eq!(e.leaf_hash, leaf_hash(b"hello world"));
    let back = LogEntryProto::from(&e);
    assert_eq!((back.seq, back.key, back.data), (4, b"k1".to_vec(), b"hello world".to_vec()));
}

#[test]
fn stored_forms_are_checked() {
    let bad = LogEntryProto { seq: 0, timestamp_ns: 0, key: vec![], data: vec![], leaf_hash: vec![1; 31] };
    assert_eq!(corruption(LogEntry::try_from(bad).err().unwrap()), "leaf_hash must be 32 bytes");

    let sth = SignedTreeHead {
        tree_size: 10,
        root_hash: [10; 32],
        timestamp_ns: 10_000_000,
        signature: [0; 64],
        public_key: [0; 32],
        key_version: 1,
    };
    let p = SignedTreeHeadProto::from(&sth);
    let back = SignedTreeHead::try_from(p).ok().unwrap();
    assert_eq!(
        (back.tree_size, back.root_hash, back.timestamp_ns, back.key_version),
        (10, [10; 32], 10_000_000, 1)
    );
    let mk = |r: usize, s: usize, k: usize| SignedTreeHeadProto {
        tree_size: 1,
        root_hash: vec![0; r],
        timestamp_ns: 0,
        signature: vec![0; s],
        public_key: vec![0; k],
        key_version: 1,
    };
    assert_eq!(corruption(SignedTreeHead::try_from(mk(31, 64, 32)).err().unwrap()), "root_hash must be 32 bytes");
    assert_eq!(corruption(SignedTreeHead::try_from(mk(32, 63, 32)).err().unwrap()), "signature must be 32 bytes");
    assert_eq!(corruption(SignedTreeHead::try_from(mk(32, 64, 33)).err().unwrap()), "public_key must be 32 bytes");
}

#[test]
fn key_records_round_trip() {
    let r = KeyRecord { version: 3, public_key: [5; 32], activated_at_tree_size: 77 };
    let p = KeyRecordProto::from(&r);
    let back = decode(p).ok().unwrap();
    assert_eq!((back.version, back.public_key, back.activated_at_tree_size), (3, [5; 32], 77));
    assert_eq!(key_record_key(0x01020304), [1, 2, 3, 4]);
    let bad = KeyRecordProto { version: 1, public_key: vec![0; 3], activated_at_tree_size: 0 };
    assert_eq!(corruption(decode(bad).err().unwrap()), "KeyRecord public_key must be 32 bytes");
}

#[test]
fn witness_records_round_trip_and_live_filter() {
    let rec = |url: &str, dead: bool, key: Option<[u8; 32]>| SettledRecord {
        url: url.to_owned(),
        public_key: key,
        consecutive_failures: if dead { 3 } else { 0 },
        flagged_dead: dead,
        registered_at_ns: 5,
    };
    let p = to_proto(&rec("http://a", false, None));
    assert!(p.public_key.is_empty());
    let back = from_proto(p).ok().unwrap();
    assert_eq!(back.url, "http://a");
    assert_eq!(back.public_key, None);
    let p = to_proto(&rec("http://b", false, Some([8; 32])));
    assert_eq!(from_proto(p).ok().unwrap().public_key, Some([8; 32]));
    let mut p = to_proto(&rec("http://c", false, None));
    p.public_key = vec![1; 5];
    assert_eq!(corruption(from_proto(p).err().unwrap()), "settled record public_key must be 32 bytes");

    let out = live(vec![rec("1", false, None), rec("2", true, None), rec("3", false, None), rec("4", true, None)]);
    assert_eq!(out.iter().map(|r| r.url.as_str()).collect::<Vec<_>>(), vec!["1", "3"]);
}

#[test]
fn storage_error_messages() {
    assert_eq!(Error::RocksDb("io".to_owned()).message(), "RocksDB error: io");
    assert_eq!(Error::Encode("x".to_owned()).message(), "Protobuf encode error: x");
    assert_eq!(Error::Decode("y".to_owned()).message(), "Protobuf decode error: y");
    assert_eq!(Error::Corruption("z".to_owned()).message(), "Data corruption: z");
}

#[test]
fn counter_signed_heads_round_trip_and_checks() {
    let f = FinalSTH {
        sth: SignedTreeHead {
            tree_size: 3,
            root_hash: [3; 32],
            timestamp_ns: 30,
            signature: [4; 64],
            public_key: [5; 32],
            key_version: 2,
        },
        counter_signatures: vec![CounterSignature {
            settled_node_url: "http://w1".to_owned(),
            public_key: [6; 32],
            signature: [7; 64],
        }],
    };
    let p = FinalSTHProto::from(&f);
    let back = FinalSTH::try_from(p).ok().unwrap();
    assert_eq!(back.sth.tree_size, 3);
    assert_eq!(back.counter_signatures.len(), 1);
    assert_eq!(back.counter_signatures[0].settled_node_url, "http://w1");
    assert_eq!(back.counter_signatures[0].signature, [7; 64]);

    let missing = FinalSTHProto { sth: None, counter_signatures: vec![] };
    assert_eq!(corruption(FinalSTH::try_from(missing).err().unwrap()), "root_hash must be 32 bytes");

    let mut p = FinalSTHProto::from(&f);
    p.counter_signatures.push(CounterSignatureProto {
        settled_node_url: "http://w2".to_owned(),
        public_key: vec![0; 32],
        signature: vec![0; 10],
    });
    assert_eq!(corruption(FinalSTH::try_from(p).err().unwrap()), "counter_signature must be 64 bytes");
    let mut p = FinalSTHProto::from(&f);
    p.counter_signatures[0].public_key.pop();
    assert_eq!(
        corruption(FinalSTH::try_from(p).err().unwrap()),
        "counter_signature public_key must be 32 bytes"
    );
}
