//! Byte layout of the entries this library writes to the content store.
//!
//! - record entry: `[RECORD_TAG, n] ++ type (n bytes) ++ payload`
//! - identity entry: `[IDENTITY_TAG] ++ key (ADDRESS_LEN bytes) ++ type`
//! - pointer key: `[POINTER_TAG] ++ target`, hashed to give a record's identity
//! - edge key: `[EDGE_TAG] ++ source ++ target ++ tag`, hashed to give an edge handle
use vstd::prelude::*;
use crate::bytes::{append_bytes, bytes_eq, copy_bytes, ADDRESS_LEN};

verus! {

pub const POINTER_TAG: u8 = 0;
pub const RECORD_TAG: u8 = 1;
pub const IDENTITY_TAG: u8 = 2;
pub const EDGE_TAG: u8 = 3;

/// The eight bytes of `n`, least significant first.
pub open spec fn u64_le(n: u64) -> Seq<u8> {
    seq![
        (n & 0xff) as u8, ((n >> 8u64) & 0xff) as u8, ((n >> 16u64) & 0xff) as u8, ((n >> 24u64) & 0xff) as u8,
        ((n >> 32u64) & 0xff) as u8, ((n >> 40u64) & 0xff) as u8, ((n >> 48u64) & 0xff) as u8, ((n >> 56u64) & 0xff) as u8,
    ]
}

/// The number whose eight bytes, least significant first, are `b[0..8]`.
pub open spec fn u64_of_le(b: Seq<u8>) -> u64 {
    (b[0] as u64) | ((b[1] as u64) << 8u64) | ((b[2] as u64) << 16u64) | ((b[3] as u64) << 24u64)
        | ((b[4] as u64) << 32u64) | ((b[5] as u64) << 40u64) | ((b[6] as u64) << 48u64) | ((b[7] as u64) << 56u64)
}

pub proof fn lemma_u64_le_round_trip(n: u64)
    ensures
        u64_le(n).len() == 8,
        u64_of_le(u64_le(n)) == n,
{
    let b = u64_le(n);
    assert(((n & 0xff) as u8 as u64) | ((((n >> 8u64) & 0xff) as u8 as u64) << 8u64)
        | ((((n >> 16u64) & 0xff) as u8 as u64) << 16u64) | ((((n >> 24u64) & 0xff) as u8 as u64) << 24u64)
        | ((((n >> 32u64) & 0xff) as u8 as u64) << 32u64) | ((((n >> 40u64) & 0xff) as u8 as u64) << 40u64)
        | ((((n >> 48u64) & 0xff) as u8 as u64) << 48u64) | ((((n >> 56u64) & 0xff) as u8 as u64) << 56u64) == n)
        by (bit_vector);
}

pub proof fn lemma_u64_of_le_round_trip(b: Seq<u8>)
    requires
        b.len() == 8,
    ensures
        u64_le(u64_of_le(b)) == b,
{
    let (b0, b1, b2, b3, b4, b5, b6, b7) = (b[0], b[1], b[2], b[3], b[4], b[5], b[6], b[7]);
    let x = u64_of_le(b);
    assert(x == (b0 as u64) | ((b1 as u64) << 8u64) | ((b2 as u64) << 16u64) | ((b3 as u64) << 24u64)
        | ((b4 as u64) << 32u64) | ((b5 as u64) << 40u64) | ((b6 as u64) << 48u64) | ((b7 as u64) << 56u64));
    assert((x & 0xff) as u8 == b0 && ((x >> 8u64) & 0xff) as u8 == b1 && ((x >> 16u64) & 0xff) as u8 == b2
        && ((x >> 24u64) & 0xff) as u8 == b3 && ((x >> 32u64) & 0xff) as u8 == b4 && ((x >> 40u64) & 0xff) as u8 == b5
        && ((x >> 48u64) & 0xff) as u8 == b6 && ((x >> 56u64) & 0xff) as u8 == b7) by (bit_vector)
        requires
            x == (b0 as u64) | ((b1 as u64) << 8u64) | ((b2 as u64) << 16u64) | ((b3 as u64) << 24u64)
                | ((b4 as u64) << 32u64) | ((b5 as u64) << 40u64) | ((b6 as u64) << 48u64) | ((b7 as u64) << 56u64);
    assert(u64_le(x) =~= b);
}

/// `[RECORD_TAG] ++ le64(type length) ++ type ++ payload`.
pub open spec fn record_entry(ty: Seq<u8>, payload: Seq<u8>) -> Seq<u8> {
    seq![RECORD_TAG] + u64_le(ty.len() as u64) + ty + payload
}

/// The payload of `c` if it is a record entry of type `ty`.
pub open spec fn decode_record(c: Seq<u8>, ty: Seq<u8>) -> Option<Seq<u8>> {
    if c.len() >= 9 && c[0] == RECORD_TAG {
        let n = u64_of_le(c.subrange(1, 9)) as int;
        if c.len() - 9 >= n && c.subrange(9, 9 + n) == ty {
            Some(c.subrange(9 + n, c.len() as int))
        } else {
            None
        }
    } else {
        None
    }
}

pub open spec fn identity_entry(ty: Seq<u8>, key: Seq<u8>) -> Seq<u8> {
    seq![IDENTITY_TAG] + key + ty
}

/// The (type, key) pair held by `c` if it is an identity entry.
pub open spec fn decode_identity(c: Seq<u8>) -> Option<(Seq<u8>, Seq<u8>)> {
    if c.len() >= 1 + ADDRESS_LEN && c[0] == IDENTITY_TAG {
        Some((c.subrange(1 + ADDRESS_LEN, c.len() as int), c.subrange(1, 1 + ADDRESS_LEN)))
    } else {
        None
    }
}

pub open spec fn pointer_key(target: Seq<u8>) -> Seq<u8> {
    seq![POINTER_TAG] + target
}

pub open spec fn edge_key(source: Seq<u8>, target: Seq<u8>, tag: Seq<u8>) -> Seq<u8> {
    seq![EDGE_TAG] + source + target + tag
}

/// A record entry decodes back to its type and payload.
pub proof fn lemma_record_round_trip(ty: Seq<u8>, payload: Seq<u8>)
    requires
        ty.len() <= u64::MAX,
    ensures
        decode_record(record_entry(ty, payload), ty) == Some(payload),
{
    let c = record_entry(ty, payload);
    lemma_u64_le_round_trip(ty.len() as u64);
    assert(c.subrange(1, 9) =~= u64_le(ty.len() as u64));
    assert(c.subrange(9, 9 + ty.len() as int) =~= ty);
    assert(c.subrange(9 + ty.len() as int, c.len() as int) =~= payload);
}

/// Only the record entry of type `ty` holding `p` decodes as type `ty` to `p`.
pub proof fn lemma_decode_record_exact(c: Seq<u8>, ty: Seq<u8>, p: Seq<u8>)
    requires
        decode_record(c, ty) == Some(p),
    ensures
        c == record_entry(ty, p),
{
    let b = c.subrange(1, 9);
    lemma_u64_of_le_round_trip(b);
    assert(ty.len() == u64_of_le(b) as int);
    assert(c =~= record_entry(ty, p));
}

/// An identity entry decodes back to its type and key.
pub proof fn lemma_identity_round_trip(ty: Seq<u8>, key: Seq<u8>)
    requires
        key.len() == ADDRESS_LEN,
    ensures
        decode_identity(identity_entry(ty, key)) == Some((ty, key)),
{
    let c = identity_entry(ty, key);
    assert(c.subrange(1 + ADDRESS_LEN, c.len() as int) =~= ty);
    assert(c.subrange(1, 1 + ADDRESS_LEN) =~= key);
}

pub fn encode_record(ty: &[u8], payload: &[u8]) -> (r: Vec<u8>)
    ensures
        r@ == record_entry(ty@, payload@),
{
    let n = ty.len() as u64;
    let mut r: Vec<u8> = Vec::new();
    r.push(RECORD_TAG);
    r.push((n & 0xff) as u8);
    r.push(((n >> 8u64) & 0xff) as u8);
    r.push(((n >> 16u64) & 0xff) as u8);
    r.push(((n >> 24u64) & 0xff) as u8);
    r.push(((n >> 32u64) & 0xff) as u8);
    r.push(((n >> 40u64) & 0xff) as u8);
    r.push(((n >> 48u64) & 0xff) as u8);
    r.push(((n >> 56u64) & 0xff) as u8);
    append_bytes(&mut r, ty);
    append_bytes(&mut r, payload);
    assert(r@ =~= record_entry(ty@, payload@));
    r
}

pub fn decode_record_entry(c: &[u8], ty: &[u8]) -> (r: Option<Vec<u8>>)
    ensures
        r matches Some(p) ==> decode_record(c@, ty@) == Some(p@),
        r is None ==> decode_record(c@, ty@) is None,
{
    if c.len() < 9 || c[0] != RECORD_TAG {
        return None;
    }
    let n: u64 = (c[1] as u64) | ((c[2] as u64) << 8u64) | ((c[3] as u64) << 16u64) | ((c[4] as u64) << 24u64)
        | ((c[5] as u64) << 32u64) | ((c[6] as u64) << 40u64) | ((c[7] as u64) << 48u64) | ((c[8] as u64) << 56u64);
    assert(n == u64_of_le(c@.subrange(1, 9)));
    if n > (c.len() - 9) as u64 {
        return None;
    }
    let end = 9 + n as usize;
    let slice_ty = copy_range(c, 9, end);
    if !bytes_eq(slice_ty.as_slice(), ty) {
        return None;
    }
    Some(copy_range(c, end, c.len()))
}

pub fn encode_identity(ty: &[u8], key: &[u8]) -> (r: Vec<u8>)
    ensures
        r@ == identity_entry(ty@, key@),
{
    let mut r: Vec<u8> = Vec::new();
    r.push(IDENTITY_TAG);
    append_bytes(&mut r, key);
    append_bytes(&mut r, ty);
    assert(r@ =~= identity_entry(ty@, key@));
    r
}

/// Returns `(type, key)`.
pub fn decode_identity_entry(c: &[u8]) -> (r: Option<(Vec<u8>, Vec<u8>)>)
    ensures
        r matches Some(p) ==> decode_identity(c@) == Some((p.0@, p.1@)),
        r is None ==> decode_identity(c@) is None,
{
    if c.len() < 1 + ADDRESS_LEN || c[0] != IDENTITY_TAG {
        return None;
    }
    Some((copy_range(c, 1 + ADDRESS_LEN, c.len()), copy_range(c, 1, 1 + ADDRESS_LEN)))
}

pub fn encode_pointer_key(target: &[u8]) -> (r: Vec<u8>)
    ensures
        r@ == pointer_key(target@),
{
    let mut r: Vec<u8> = Vec::new();
    r.push(POINTER_TAG);
    append_bytes(&mut r, target);
    assert(r@ =~= pointer_key(target@));
    r
}

pub fn encode_edge_key(source: &[u8], target: &[u8], tag: &[u8]) -> (r: Vec<u8>)
    ensures
        r@ == edge_key(source@, target@, tag@),
{
    let mut r: Vec<u8> = Vec::new();
    r.push(EDGE_TAG);
    append_bytes(&mut r, source);
    append_bytes(&mut r, target);
    append_bytes(&mut r, tag);
    assert(r@ =~= edge_key(source@, target@, tag@));
    r
}

/// Owned copy of `c[lo..hi]`.
fn copy_range(c: &[u8], lo: usize, hi: usize) -> (r: Vec<u8>)
    requires
        lo <= hi <= c@.len(),
    ensures
        r@ == c@.subrange(lo as int, hi as int),
{
    let mut r: Vec<u8> = Vec::new();
    let mut i: usize = lo;
    while i < hi
        invariant
            lo <= i <= hi <= c@.len(),
            r@ == c@.subrange(lo as int, i as int),
        decreases hi - i,
    {
        r.push(c[i]);
        assert(c@.subrange(lo as int, i + 1) =~= c@.subrange(lo as int, i as int).push(c@[i as int]));
        i = i + 1;
    }
    r
}

} // verus!
