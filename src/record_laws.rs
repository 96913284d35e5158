//! Properties that relate several operations of the library.
use vstd::prelude::*;
use crate::codec::{decode_record, lemma_decode_record_exact, lemma_record_round_trip};
use crate::error::RecordError;
use crate::records::{
    after_create, after_delete, after_update, delete_spec, read_spec, record_address,
    record_identity,
};
use crate::store::{store_invariant, StoreView};

verus! {

/// Reading a freshly created record through the identity that creation
/// returned yields the payload it was created with.
pub proof fn law_read_after_create(s: StoreView, ty: Seq<u8>, payload: Seq<u8>)
    requires
        ty.len() <= u64::MAX,
    ensures
        read_spec(after_create(s, ty, payload), ty, record_identity(record_address(ty, payload)))
            == Ok::<Seq<u8>, RecordError>(payload),
{
    lemma_record_round_trip(ty, payload);
}

/// Updating a record with the content it already holds writes nothing, and
/// the record still reads as that content.
pub proof fn law_update_unchanged(s: StoreView, ty: Seq<u8>, id: Seq<u8>, next: Seq<u8>)
    requires
        store_invariant(s),
        read_spec(s, ty, id) == Ok::<Seq<u8>, RecordError>(next),
    ensures
        after_update(s, ty, id, next) == s,
        read_spec(after_update(s, ty, id, next), ty, id) == Ok::<Seq<u8>, RecordError>(next),
{
    let t = s.bases[id];
    lemma_decode_record_exact(s.entries[t], ty, next);
    assert(t == record_address(ty, next));
}

/// Once a record is deleted (or was never there), reading it fails with
/// `NotFound` and deleting it again returns `false`.
pub proof fn law_delete_then_read(s: StoreView, ty: Seq<u8>, id: Seq<u8>)
    requires
        delete_spec(s, ty, id) is Ok,
    ensures
        read_spec(after_delete(s, ty, id), ty, id) == Err::<Seq<u8>, RecordError>(RecordError::NotFound),
        delete_spec(after_delete(s, ty, id), ty, id) == Ok::<bool, RecordError>(false),
{
}

/// Deleting a record whose entry is not of the named type fails with
/// `ValidationError` and leaves the store as it was.
pub proof fn law_delete_wrong_type(s: StoreView, ty: Seq<u8>, id: Seq<u8>)
    requires
        s.bases.contains_key(id),
        s.entries.contains_key(s.bases[id]),
        decode_record(s.entries[s.bases[id]], ty) is None,
    ensures
        delete_spec(s, ty, id) == Err::<bool, RecordError>(RecordError::ValidationError),
        after_delete(s, ty, id) == s,
{
}

} // verus!
