//! Logical records: a stable identity pointing at the current content entry.
use vstd::prelude::*;
use crate::bytes::{blake2b_256_of, content_address};
use crate::codec::{
    decode_record, decode_record_entry, encode_pointer_key, encode_record, pointer_key,
    record_entry,
};
use crate::error::{bytes_result, RecordError};
use crate::store::{with_edge, Store, StoreView};

verus! {

/// Tag of the edge from a new record's identity to its first entry.
pub open spec fn initial_entry_tag() -> Seq<u8> {
    seq![105u8, 110, 105, 116, 105, 97, 108]
}

fn initial_entry_tag_bytes() -> (r: Vec<u8>)
    ensures
        r@ == initial_entry_tag(),
{
    let mut r: Vec<u8> = Vec::new();
    r.push(105u8);
    r.push(110u8);
    r.push(105u8);
    r.push(116u8);
    r.push(105u8);
    r.push(97u8);
    r.push(108u8);
    assert(r@ =~= initial_entry_tag());
    r
}

/// The identity made for a record whose first entry is at `target`.
pub open spec fn record_identity(target: Seq<u8>) -> Seq<u8> {
    blake2b_256_of(pointer_key(target))
}

/// Address of the record entry of type `ty` holding `payload`.
pub open spec fn record_address(ty: Seq<u8>, payload: Seq<u8>) -> Seq<u8> {
    blake2b_256_of(record_entry(ty, payload))
}

/// The content address identity `id` points at.
pub open spec fn dereference(s: StoreView, id: Seq<u8>) -> Result<Seq<u8>, RecordError> {
    if s.bases.contains_key(id) {
        Ok(s.bases[id])
    } else {
        Err(RecordError::NotFound)
    }
}

/// The payload of the record of type `ty` with identity `id`.
pub open spec fn read_spec(s: StoreView, ty: Seq<u8>, id: Seq<u8>) -> Result<Seq<u8>, RecordError> {
    if !s.bases.contains_key(id) || !s.entries.contains_key(s.bases[id]) {
        Err(RecordError::NotFound)
    } else {
        match decode_record(s.entries[s.bases[id]], ty) {
            Some(p) => Ok(p),
            None => Err(RecordError::DecodeError),
        }
    }
}

/// The store after identity `base` is made to point at `target`.
pub open spec fn after_base(s: StoreView, target: Seq<u8>) -> StoreView {
    StoreView { bases: s.bases.insert(record_identity(target), target), ..s }
}

/// The store after a record of type `ty` holding `payload` is created.
pub open spec fn after_create(s: StoreView, ty: Seq<u8>, payload: Seq<u8>) -> StoreView {
    let a = record_address(ty, payload);
    let id = record_identity(a);
    StoreView {
        entries: s.entries.insert(a, record_entry(ty, payload)),
        bases: s.bases.insert(id, a),
        edges: with_edge(s.edges, id, a, initial_entry_tag()),
        ..s
    }
}

/// The store after record `id` of type `ty` takes the payload `next`: a new
/// entry is written and the identity repointed only where the address changes.
pub open spec fn after_update(s: StoreView, ty: Seq<u8>, id: Seq<u8>, next: Seq<u8>) -> StoreView {
    let a = record_address(ty, next);
    if a == s.bases[id] {
        s
    } else {
        StoreView { entries: s.entries.insert(a, record_entry(ty, next)), bases: s.bases.insert(id, a), ..s }
    }
}

/// Outcome of deleting record `id` of type `ty`.
pub open spec fn delete_spec(s: StoreView, ty: Seq<u8>, id: Seq<u8>) -> Result<bool, RecordError> {
    if !s.bases.contains_key(id) {
        Ok(false)
    } else if s.entries.contains_key(s.bases[id]) && decode_record(s.entries[s.bases[id]], ty) is Some {
        Ok(true)
    } else {
        Err(RecordError::ValidationError)
    }
}

/// The store after deleting record `id` of type `ty`.
pub open spec fn after_delete(s: StoreView, ty: Seq<u8>, id: Seq<u8>) -> StoreView {
    if delete_spec(s, ty, id) == Ok::<bool, RecordError>(true) {
        StoreView { entries: s.entries.remove(s.bases[id]), bases: s.bases.remove(id), ..s }
    } else {
        s
    }
}

/// Creates a record of type `ty` holding `payload`: writes its entry, an
/// identity pointing at it, and an edge from identity to entry tagged
/// "initial". Returns the identity and the payload.
pub fn create_record(store: &mut Store, ty: &[u8], payload: &[u8]) -> (r: (Vec<u8>, Vec<u8>))
    requires
        old(store).wf(),
    ensures
        final(store).wf(),
        r.0@ == record_identity(record_address(ty@, payload@)),
        r.1@ == payload@,
        final(store)@ == after_create(old(store)@, ty@, payload@),
{
    let entry = encode_record(ty, payload);
    let address = store.commit(entry.as_slice());
    let base = create_base_entry(store, address.as_slice());
    let tag = initial_entry_tag_bytes();
    store.create_edge(base.as_slice(), address.as_slice(), tag.as_slice());
    assert(store@ =~= after_create(old(store)@, ty@, payload@));
    (base, crate::bytes::copy_bytes(payload))
}

/// Makes the identity for a record whose first entry is at `target`, pointing
/// at it, and returns the identity.
pub fn create_base_entry(store: &mut Store, target: &[u8]) -> (r: Vec<u8>)
    requires
        old(store).wf(),
    ensures
        final(store).wf(),
        r@ == record_identity(target@),
        final(store)@ == after_base(old(store)@, target@),
{
    let key = encode_pointer_key(target);
    let base = content_address(key.as_slice());
    store.set_base(base.as_slice(), target);
    base
}

/// Reads the payload of the record of type `ty` with identity `id`.
pub fn read_record_entry(store: &Store, ty: &[u8], id: &[u8]) -> (r: Result<Vec<u8>, RecordError>)
    requires
        store.wf(),
    ensures
        bytes_result(r) == read_spec(store@, ty@, id@),
{
    let address = get_dereferenced_address(store, id)?;
    match store.get(address.as_slice()) {
        None => Err(RecordError::NotFound),
        Some(content) => match decode_record_entry(content.as_slice(), ty) {
            Some(p) => Ok(p),
            None => Err(RecordError::DecodeError),
        },
    }
}

/// The content address identity `id` currently points at.
pub fn get_dereferenced_address(store: &Store, id: &[u8]) -> (r: Result<Vec<u8>, RecordError>)
    requires
        store.wf(),
    ensures
        bytes_result(r) == dereference(store@, id@),
{
    match store.get_base(id) {
        Some(t) => Ok(t),
        None => Err(RecordError::NotFound),
    }
}

/// Updates record `id` of type `ty` with the payload `merge` makes from the
/// current one. The new entry is written, and the identity repointed, only
/// where its address differs from the current one; the new payload is
/// returned either way.
pub fn update_record<F: Fn(Vec<u8>) -> Vec<u8>>(store: &mut Store, ty: &[u8], id: &[u8], merge: F) -> (r: Result<Vec<u8>, RecordError>)
    requires
        old(store).wf(),
        forall|p: Vec<u8>| merge.requires((p,)),
    ensures
        final(store).wf(),
        read_spec(old(store)@, ty@, id@) is Err ==> r == Err::<Vec<u8>, RecordError>(read_spec(old(store)@, ty@, id@)->Err_0)
            && final(store)@ == old(store)@,
        read_spec(old(store)@, ty@, id@) is Ok ==> (r matches Ok(next) && (exists|prior: Vec<u8>|
            prior@ == read_spec(old(store)@, ty@, id@)->Ok_0 && #[trigger] merge.ensures((prior,), next))
            && final(store)@ == after_update(old(store)@, ty@, id@, next@)),
{
    let current = get_dereferenced_address(store, id)?;
    let prior = read_record_entry(store, ty, id)?;
    let ghost prior_view = prior@;
    let next = merge(prior);
    let entry = encode_record(ty, next.as_slice());
    let address = content_address(entry.as_slice());
    if !crate::bytes::bytes_eq(address.as_slice(), current.as_slice()) {
        store.commit(entry.as_slice());
        store.set_base(id, address.as_slice());
    }
    assert(store@ =~= after_update(old(store)@, ty@, id@, next@));
    Ok(next)
}

/// Like `update_record`, but fails with `ConflictError`, writing nothing,
/// unless record `id` still points at `expected` (the address its caller last
/// read): an update made meanwhile is not silently overwritten.
pub fn update_record_expecting<F: Fn(Vec<u8>) -> Vec<u8>>(
    store: &mut Store, ty: &[u8], id: &[u8], expected: &[u8], merge: F,
) -> (r: Result<Vec<u8>, RecordError>)
    requires
        old(store).wf(),
        forall|p: Vec<u8>| merge.requires((p,)),
    ensures
        final(store).wf(),
        read_spec(old(store)@, ty@, id@) is Err ==> r == Err::<Vec<u8>, RecordError>(read_spec(old(store)@, ty@, id@)->Err_0)
            && final(store)@ == old(store)@,
        read_spec(old(store)@, ty@, id@) is Ok && old(store)@.bases[id@] != expected@
            ==> r == Err::<Vec<u8>, RecordError>(RecordError::ConflictError) && final(store)@ == old(store)@,
        read_spec(old(store)@, ty@, id@) is Ok && old(store)@.bases[id@] == expected@ ==> (r matches Ok(next) && (exists|prior: Vec<u8>|
            prior@ == read_spec(old(store)@, ty@, id@)->Ok_0 && #[trigger] merge.ensures((prior,), next))
            && final(store)@ == after_update(old(store)@, ty@, id@, next@)),
{
    let _prior = read_record_entry(store, ty, id)?;
    let current = get_dereferenced_address(store, id)?;
    if !crate::bytes::bytes_eq(current.as_slice(), expected) {
        return Err(RecordError::ConflictError);
    }
    update_record(store, ty, id, merge)
}

/// Deletes record `id` of type `ty`, removing both its identity and its
/// current entry. Returns `false` when the identity does not exist, and fails
/// with `ValidationError`, removing nothing, when its entry is not a record of
/// type `ty`.
pub fn delete_record(store: &mut Store, ty: &[u8], id: &[u8]) -> (r: Result<bool, RecordError>)
    requires
        old(store).wf(),
    ensures
        final(store).wf(),
        r == delete_spec(old(store)@, ty@, id@),
        final(store)@ == after_delete(old(store)@, ty@, id@),
{
    let address = match get_dereferenced_address(store, id) {
        Ok(a) => a,
        Err(_) => return Ok(false),
    };
    let matches_type = match store.get(address.as_slice()) {
        Some(content) => decode_record_entry(content.as_slice(), ty).is_some(),
        None => false,
    };
    if !matches_type {
        return Err(RecordError::ValidationError);
    }
    store.remove_base(id);
    store.remove(address.as_slice());
    assert(store@ =~= after_delete(old(store)@, ty@, id@));
    Ok(true)
}

} // verus!
