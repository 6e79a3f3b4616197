//! Signed tree heads: the signing payload and Ed25519 signing/verification.
use vstd::prelude::*;
use crate::crypto::{
    ed25519_public_key, ed25519_signature, ed25519_verifies, ed25519_sign, ed25519_verify,
};

verus! {

/// Big-endian bytes of a 64-bit integer.
pub open spec fn be64(x: u64) -> Seq<u8> {
    seq![
        (x >> 56u64) as u8,
        (x >> 48u64) as u8,
        (x >> 40u64) as u8,
        (x >> 32u64) as u8,
        (x >> 24u64) as u8,
        (x >> 16u64) as u8,
        (x >> 8u64) as u8,
        x as u8,
    ]
}

/// The signed bytes: tree_size (u64 BE) || root_hash || timestamp_ns (i64 BE,
/// two's complement).
pub open spec fn payload_spec(tree_size: u64, root_hash: Seq<u8>, timestamp_ns: i64) -> Seq<u8> {
    be64(tree_size) + root_hash + be64(timestamp_ns as u64)
}

/// Big-endian bytes of `x`.
pub fn be_bytes_u64(x: u64) -> (b: [u8; 8])
    ensures
        b@ == be64(x),
{
    let b = [
        (x >> 56u64) as u8,
        (x >> 48u64) as u8,
        (x >> 40u64) as u8,
        (x >> 32u64) as u8,
        (x >> 24u64) as u8,
        (x >> 16u64) as u8,
        (x >> 8u64) as u8,
        x as u8,
    ];
    assert(b@ =~= be64(x));
    b
}

/// Distinct integers have distinct big-endian bytes.
pub proof fn lemma_be64_injective(x: u64, y: u64)
    requires
        be64(x) == be64(y),
    ensures
        x == y,
{
    let bx = be64(x);
    let by = be64(y);
    assert(bx[0] == by[0] && bx[1] == by[1] && bx[2] == by[2] && bx[3] == by[3]);
    assert(bx[4] == by[4] && bx[5] == by[5] && bx[6] == by[6] && bx[7] == by[7]);
    assert(x == y) by (bit_vector)
        requires
            (x >> 56u64) as u8 == (y >> 56u64) as u8,
            (x >> 48u64) as u8 == (y >> 48u64) as u8,
            (x >> 40u64) as u8 == (y >> 40u64) as u8,
            (x >> 32u64) as u8 == (y >> 32u64) as u8,
            (x >> 24u64) as u8 == (y >> 24u64) as u8,
            (x >> 16u64) as u8 == (y >> 16u64) as u8,
            (x >> 8u64) as u8 == (y >> 8u64) as u8,
            x as u8 == y as u8,
    ;
}

/// The signing payload determines the tree size, root and timestamp: a
/// signature over it commits to all three.
pub proof fn lemma_payload_injective(
    s1: u64,
    r1: Seq<u8>,
    t1: i64,
    s2: u64,
    r2: Seq<u8>,
    t2: i64,
)
    requires
        r1.len() == 32,
        r2.len() == 32,
        payload_spec(s1, r1, t1) == payload_spec(s2, r2, t2),
    ensures
        s1 == s2,
        r1 == r2,
        t1 == t2,
{
    let p1 = payload_spec(s1, r1, t1);
    let p2 = payload_spec(s2, r2, t2);
    assert(p1.subrange(0, 8) =~= be64(s1));
    assert(p2.subrange(0, 8) =~= be64(s2));
    assert(p1.subrange(8, 40) =~= r1);
    assert(p2.subrange(8, 40) =~= r2);
    assert(p1.subrange(40, 48) =~= be64(t1 as u64));
    assert(p2.subrange(40, 48) =~= be64(t2 as u64));
    lemma_be64_injective(s1, s2);
    lemma_be64_injective(t1 as u64, t2 as u64);
    assert(t1 == t2) by (bit_vector)
        requires
            t1 as u64 == t2 as u64,
    ;
}

/// The data committed to by an Ed25519 signature on a tree head.
/// Encoding: tree_size (u64 BE) || root_hash (32 bytes) || timestamp_ns (i64 BE)
/// Total: 48 bytes.
pub fn signing_payload(tree_size: u64, root_hash: &[u8; 32], timestamp_ns: i64) -> (buf: [u8; 48])
    ensures
        buf@ == payload_spec(tree_size, root_hash@, timestamp_ns),
{
    let mut buf = [0u8; 48];
    let size_bytes = be_bytes_u64(tree_size);
    let ts_bytes = be_bytes_u64(timestamp_ns as u64);
    let mut i: usize = 0;
    while i < 48
        invariant
            i <= 48,
            buf@.len() == 48,
            size_bytes@ == be64(tree_size),
            ts_bytes@ == be64(timestamp_ns as u64),
            forall|j: int|
                0 <= j < i ==> #[trigger] buf@[j] == payload_spec(
                    tree_size,
                    root_hash@,
                    timestamp_ns,
                )[j],
        decreases 48 - i,
    {
        let v = if i < 8 {
            size_bytes[i]
        } else if i < 40 {
            root_hash[i - 8]
        } else {
            ts_bytes[i - 40]
        };
        buf[i] = v;
        i += 1;
    }
    assert(buf@ =~= payload_spec(tree_size, root_hash@, timestamp_ns));
    buf
}

/// Signs a tree head with the key whose secret seed is `key`.
pub fn sign_tree_head(key: &[u8; 32], tree_size: u64, root_hash: &[u8; 32], timestamp_ns: i64) -> (sig:
    [u8; 64])
    ensures
        sig@ == ed25519_signature(key@, payload_spec(tree_size, root_hash@, timestamp_ns)),
        ed25519_verifies(
            ed25519_public_key(key@),
            payload_spec(tree_size, root_hash@, timestamp_ns),
            sig@,
        ),
{
    let payload = signing_payload(tree_size, root_hash, timestamp_ns);
    ed25519_sign(key, payload.as_slice())
}

/// Verifies a tree-head signature under the public key bytes `key`.
pub fn verify_tree_head(
    key: &[u8; 32],
    tree_size: u64,
    root_hash: &[u8; 32],
    timestamp_ns: i64,
    signature: &[u8; 64],
) -> (ok: bool)
    ensures
        ok == ed25519_verifies(key@, payload_spec(tree_size, root_hash@, timestamp_ns), signature@),
{
    let payload = signing_payload(tree_size, root_hash, timestamp_ns);
    ed25519_verify(key, payload.as_slice(), signature)
}

} // verus!
