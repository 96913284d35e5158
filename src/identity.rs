//! Identity addresses derived from an entry type and an external key, and the
//! placeholder entries that let them be resolved back to the key.
use vstd::prelude::*;
use crate::bytes::{blake2b_256_of, content_address, ADDRESS_LEN};
use crate::codec::{decode_identity, decode_identity_entry, encode_identity, identity_entry};
use crate::error::RecordError;
use crate::store::{Store, StoreView};

verus! {

pub open spec fn identity_address(ty: Seq<u8>, key: Seq<u8>) -> Seq<u8> {
    blake2b_256_of(identity_entry(ty, key))
}

/// The identity address of `key` under type `ty`; only a well-formed address
/// has one.
pub open spec fn identity_spec(ty: Seq<u8>, key: Seq<u8>) -> Result<Seq<u8>, RecordError> {
    if key.len() == ADDRESS_LEN {
        Ok(identity_address(ty, key))
    } else {
        Err(RecordError::DecodeError)
    }
}

/// The key that the placeholder at `address` stands for.
pub open spec fn resolve_spec(s: StoreView, address: Seq<u8>) -> Result<Seq<u8>, RecordError> {
    if !s.entries.contains_key(address) {
        Err(RecordError::NotFound)
    } else {
        match decode_identity(s.entries[address]) {
            Some(p) => Ok(p.1),
            None => Err(RecordError::DecodeError),
        }
    }
}

/// The store once the placeholder for `key` under type `ty` is present.
pub open spec fn with_identity(s: StoreView, ty: Seq<u8>, key: Seq<u8>) -> StoreView {
    StoreView { entries: s.entries.insert(identity_address(ty, key), identity_entry(ty, key)), ..s }
}

/// Derives the identity address of `key` under type `ty`. The same type and
/// key give the same address in every partition.
pub fn calculate_identity_address(ty: &[u8], key: &[u8]) -> (r: Result<Vec<u8>, RecordError>)
    ensures
        crate::error::bytes_result(r) == identity_spec(ty@, key@),
{
    if key.len() != ADDRESS_LEN {
        return Err(RecordError::DecodeError);
    }
    let entry = encode_identity(ty, key);
    Ok(content_address(entry.as_slice()))
}

/// Writes the placeholder for `key` under type `ty` (a no-op where it is
/// present) and returns its address.
pub fn ensure_identity(store: &mut Store, ty: &[u8], key: &[u8]) -> (r: Vec<u8>)
    requires
        old(store).wf(),
    ensures
        final(store).wf(),
        r@ == identity_address(ty@, key@),
        final(store)@ == with_identity(old(store)@, ty@, key@),
{
    let entry = encode_identity(ty, key);
    store.commit(entry.as_slice())
}

/// Resolves the placeholder at `address` to the key it stands for.
pub fn read_entry_identity(store: &Store, address: &[u8]) -> (r: Result<Vec<u8>, RecordError>)
    requires
        store.wf(),
    ensures
        crate::error::bytes_result(r) == resolve_spec(store@, address@),
{
    match store.get(address) {
        None => Err(RecordError::NotFound),
        Some(c) => match decode_identity_entry(c.as_slice()) {
            Some(p) => Ok(p.1),
            None => Err(RecordError::DecodeError),
        },
    }
}

/// Resolves the placeholder at `address` to its type and key.
pub fn read_identity_parts(store: &Store, address: &[u8]) -> (r: Result<(Vec<u8>, Vec<u8>), RecordError>)
    requires
        store.wf(),
    ensures
        !store@.entries.contains_key(address@) ==> r == Err::<(Vec<u8>, Vec<u8>), RecordError>(RecordError::NotFound),
        store@.entries.contains_key(address@) ==> match decode_identity(store@.entries[address@]) {
            None => r == Err::<(Vec<u8>, Vec<u8>), RecordError>(RecordError::DecodeError),
            Some(p) => r matches Ok(q) && q.0@ == p.0 && q.1@ == p.1,
        },
{
    match store.get(address) {
        None => Err(RecordError::NotFound),
        Some(c) => match decode_identity_entry(c.as_slice()) {
            Some(p) => Ok(p),
            None => Err(RecordError::DecodeError),
        },
    }
}

} // verus!
