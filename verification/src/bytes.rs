//! Fixed-size byte arrays from slices, and big-endian integer fields.
use vstd::prelude::*;
use crate::sth::be64;

verus! {

/// The bytes of `s` as a 32-byte array, when `s` has exactly 32 bytes.
pub fn array32(s: &[u8]) -> (a: Option<[u8; 32]>)
    ensures
        a is Some <==> s@.len() == 32,
        a matches Some(x) ==> x@ == s@,
{
    if s.len() != 32 {
        return None;
    }
    let mut a = [0u8; 32];
    let mut i: usize = 0;
    while i < 32
        invariant
            i <= 32,
            s@.len() == 32,
            a@.len() == 32,
            forall|j: int| 0 <= j < i ==> a@[j] == s@[j],
        decreases 32 - i,
    {
        a[i] = s[i];
        i += 1;
    }
    assert(a@ =~= s@);
    Some(a)
}

/// The bytes of `s` as a 64-byte array, when `s` has exactly 64 bytes.
pub fn array64(s: &[u8]) -> (a: Option<[u8; 64]>)
    ensures
        a is Some <==> s@.len() == 64,
        a matches Some(x) ==> x@ == s@,
{
    if s.len() != 64 {
        return None;
    }
    let mut a = [0u8; 64];
    let mut i: usize = 0;
    while i < 64
        invariant
            i <= 64,
            s@.len() == 64,
            a@.len() == 64,
            forall|j: int| 0 <= j < i ==> a@[j] == s@[j],
        decreases 64 - i,
    {
        a[i] = s[i];
        i += 1;
    }
    assert(a@ =~= s@);
    Some(a)
}

/// The 64-bit integer whose big-endian bytes are `s`, when `s` has 8 bytes.
pub fn be_u64(s: &[u8]) -> (v: Option<u64>)
    ensures
        v is Some <==> s@.len() == 8,
        v matches Some(x) ==> be64(x) == s@,
{
    if s.len() != 8 {
        return None;
    }
    let b0 = s[0];
    let b1 = s[1];
    let b2 = s[2];
    let b3 = s[3];
    let b4 = s[4];
    let b5 = s[5];
    let b6 = s[6];
    let b7 = s[7];
    let x = ((b0 as u64) << 56u64) | ((b1 as u64) << 48u64) | ((b2 as u64) << 40u64) | ((b3
        as u64) << 32u64) | ((b4 as u64) << 24u64) | ((b5 as u64) << 16u64) | ((b6 as u64)
        << 8u64) | (b7 as u64);
    assert((x >> 56u64) as u8 == b0 && (x >> 48u64) as u8 == b1 && (x >> 40u64) as u8 == b2 && (x
        >> 32u64) as u8 == b3 && (x >> 24u64) as u8 == b4 && (x >> 16u64) as u8 == b5 && (x
        >> 8u64) as u8 == b6 && x as u8 == b7) by (bit_vector)
        requires
            x == ((b0 as u64) << 56u64) | ((b1 as u64) << 48u64) | ((b2 as u64) << 40u64) | ((b3
                as u64) << 32u64) | ((b4 as u64) << 24u64) | ((b5 as u64) << 16u64) | ((b6
                as u64) << 8u64) | (b7 as u64),
    ;
    assert(be64(x) =~= s@);
    Some(x)
}

/// A copy of `s` as a vector.
pub fn bytes_to_vec(s: &[u8]) -> (v: Vec<u8>)
    ensures
        v@ == s@,
{
    vstd::slice::slice_to_vec(s)
}

} // verus!
verus! {

/// Big-endian bytes of a 32-bit integer.
pub open spec fn be32(x: u32) -> Seq<u8> {
    seq![(x >> 24u32) as u8, (x >> 16u32) as u8, (x >> 8u32) as u8, x as u8]
}

/// Big-endian bytes of `x`.
pub fn be_bytes_u32(x: u32) -> (b: [u8; 4])
    ensures
        b@ == be32(x),
{
    let b = [(x >> 24u32) as u8, (x >> 16u32) as u8, (x >> 8u32) as u8, x as u8];
    assert(b@ =~= be32(x));
    b
}

/// The 32-bit integer whose big-endian bytes are `s`, when `s` has 4 bytes.
pub fn be_u32(s: &[u8]) -> (v: Option<u32>)
    ensures
        v is Some <==> s@.len() == 4,
        v matches Some(x) ==> be32(x) == s@,
{
    if s.len() != 4 {
        return None;
    }
    let b0 = s[0];
    let b1 = s[1];
    let b2 = s[2];
    let b3 = s[3];
    let x = ((b0 as u32) << 24u32) | ((b1 as u32) << 16u32) | ((b2 as u32) << 8u32) | (b3 as u32);
    assert((x >> 24u32) as u8 == b0 && (x >> 16u32) as u8 == b1 && (x >> 8u32) as u8 == b2 && x
        as u8 == b3) by (bit_vector)
        requires
            x == ((b0 as u32) << 24u32) | ((b1 as u32) << 16u32) | ((b2 as u32) << 8u32) | (b3
                as u32),
    ;
    assert(be32(x) =~= s@);
    Some(x)
}

} // verus!
