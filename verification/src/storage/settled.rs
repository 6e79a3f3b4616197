//! Records of the witness nodes that counter-sign tree heads.
use vstd::prelude::*;
use crate::bytes::{array32, bytes_to_vec};
use crate::storage::types::{is_corruption, Error};

verus! {

/// A registered witness node.
pub struct SettledRecord {
    pub url: String,
    pub public_key: Option<[u8; 32]>,
    pub consecutive_failures: u32,
    pub flagged_dead: bool,
    pub registered_at_ns: i64,
}

/// The stored form of a witness record; an empty key means none.
pub struct SettledRecordProto {
    pub url: String,
    pub public_key: Vec<u8>,
    pub consecutive_failures: u32,
    pub flagged_dead: bool,
    pub registered_at_ns: i64,
}

/// The stored form of a witness record.
pub fn to_proto(r: &SettledRecord) -> (p: SettledRecordProto)
    ensures
        p.url@ == r.url@,
        p.public_key@ == (match r.public_key {
            Some(k) => k@,
            None => Seq::<u8>::empty(),
        }),
        p.consecutive_failures == r.consecutive_failures,
        p.flagged_dead == r.flagged_dead,
        p.registered_at_ns == r.registered_at_ns,
{
    let public_key = match &r.public_key {
        Some(k) => bytes_to_vec(k.as_slice()),
        None => Vec::new(),
    };
    SettledRecordProto {
        url: r.url.clone(),
        public_key,
        consecutive_failures: r.consecutive_failures,
        flagged_dead: r.flagged_dead,
        registered_at_ns: r.registered_at_ns,
    }
}

/// Checks a stored witness record: a key, when present, has 32 bytes.
pub fn from_proto(p: SettledRecordProto) -> (r: Result<SettledRecord, Error>)
    ensures
        r is Ok <==> (p.public_key@.len() == 0 || p.public_key@.len() == 32),
        r matches Ok(s) ==> s.url == p.url && s.consecutive_failures == p.consecutive_failures
            && s.flagged_dead == p.flagged_dead && s.registered_at_ns == p.registered_at_ns && (
        match s.public_key {
            Some(k) => p.public_key@.len() == 32 && k@ == p.public_key@,
            None => p.public_key@.len() == 0,
        }),
        r matches Err(e) ==> is_corruption(e, "settled record public_key must be 32 bytes"@),
{
    let public_key = if p.public_key.len() == 0 {
        None
    } else {
        match array32(p.public_key.as_slice()) {
            Some(k) => Some(k),
            None => {
                return Err(
                    Error::Corruption("settled record public_key must be 32 bytes".to_owned()),
                );
            },
        }
    };
    Ok(SettledRecord {
        url: p.url,
        public_key,
        consecutive_failures: p.consecutive_failures,
        flagged_dead: p.flagged_dead,
        registered_at_ns: p.registered_at_ns,
    })
}

/// The records that are not flagged dead, in the order given.
pub open spec fn live_records(s: Seq<SettledRecord>) -> Seq<SettledRecord> {
    s.filter(|r: SettledRecord| !r.flagged_dead)
}

/// Returns all non-dead records.
pub fn live(records: Vec<SettledRecord>) -> (out: Vec<SettledRecord>)
    ensures
        out@ == live_records(records@),
{
    let ghost all = records@;
    let mut rest = records;
    let mut out: Vec<SettledRecord> = Vec::new();
    proof {
        reveal(Seq::filter);
        assert(all.take(0) =~= Seq::<SettledRecord>::empty());
        assert(all.skip(0) =~= all);
    }
    while rest.len() > 0
        invariant
            rest@.len() <= all.len(),
            rest@ == all.skip(all.len() - rest@.len()),
            out@ == live_records(all.take(all.len() - rest@.len())),
        decreases rest@.len(),
    {
        let ghost k = all.len() - rest@.len();
        let r = rest.remove(0);
        proof {
            reveal(Seq::filter);
            assert(all.take(k + 1).drop_last() =~= all.take(k));
            assert(all.take(k + 1).last() == r);
        }
        if !r.flagged_dead {
            out.push(r);
        }
        assert(rest@ =~= all.skip(k + 1));
    }
    assert(all.take(all.len() as int) =~= all);
    out
}

} // verus!
