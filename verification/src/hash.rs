//! Domain-separated SHA-256 hashing of leaves and interior nodes.
use vstd::prelude::*;

verus! {

/// The SHA-256 digest of a byte string, as computed by the `sha2` crate.
pub uninterp spec fn sha256(data: Seq<u8>) -> Seq<u8>;

/// Calls `sha2::Sha256::digest` on `data`.
///
/// Trusted: the returned 32 bytes are the SHA-256 digest of `data`, named
/// `sha256`.  Nothing else is claimed of the digest.
#[verifier::external_body]
fn sha256_digest(data: &[u8]) -> (digest: [u8; 32])
    ensures
        digest@ == sha256(data@),
{
    <sha2::Sha256 as sha2::Digest>::digest(data).into()
}

/// Hash of a leaf: SHA-256(0x00 || data).
pub open spec fn spec_leaf_hash(data: Seq<u8>) -> Seq<u8> {
    sha256(seq![0x00u8] + data)
}

/// Hash of an interior node: SHA-256(0x01 || left || right).
pub open spec fn spec_node_hash(left: Seq<u8>, right: Seq<u8>) -> Seq<u8> {
    sha256(seq![0x01u8] + left + right)
}

/// Appends the bytes of `src` to `dst`.
fn append_bytes(dst: &mut Vec<u8>, src: &[u8])
    ensures
        final(dst)@ == old(dst)@ + src@,
{
    let mut i: usize = 0;
    while i < src.len()
        invariant
            i <= src.len(),
            dst@ == old(dst)@ + src@.take(i as int),
        decreases src.len() - i,
    {
        dst.push(src[i]);
        i = i + 1;
        assert(src@.take(i as int) == src@.take((i - 1) as int).push(src@[i - 1]));
    }
    assert(src@.take(src.len() as int) == src@);
}

/// SHA-256(0x00 || data).
pub fn leaf_hash(data: &[u8]) -> (h: [u8; 32])
    ensures
        h@ == spec_leaf_hash(data@),
{
    let mut buf: Vec<u8> = Vec::new();
    buf.push(0x00u8);
    append_bytes(&mut buf, data);
    assert(buf@ == seq![0x00u8] + data@);
    sha256_digest(buf.as_slice())
}

/// SHA-256(0x01 || left || right).
pub fn node_hash(left: &[u8; 32], right: &[u8; 32]) -> (h: [u8; 32])
    ensures
        h@ == spec_node_hash(left@, right@),
{
    let mut buf: Vec<u8> = Vec::new();
    buf.push(0x01u8);
    append_bytes(&mut buf, left.as_slice());
    append_bytes(&mut buf, right.as_slice());
    assert(buf@ == seq![0x01u8] + left@ + right@);
    sha256_digest(buf.as_slice())
}

} // verus!
