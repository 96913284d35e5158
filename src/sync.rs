//! Reconciling this partition's index of a relationship owned by another
//! partition, from that partition's lists of added and removed addresses.
use vstd::prelude::*;
use crate::error::RecordError;
use crate::bytes::ADDRESS_LEN;
use crate::identity::{ensure_identity, with_identity};
use crate::indexes::{
    endpoints_ok, after_create_index, after_delete_index, byte_seqs, create_index, create_index_spec,
    delete_index, delete_index_spec, results_view,
};
use crate::store::{Store, StoreView};
use crate::time_index::{after_append, append_to_time_index};

verus! {

/// Per-address outcomes of a sync request.
pub struct SyncResponse {
    pub indexes_created: Vec<Result<Vec<u8>, RecordError>>,
    pub indexes_removed: Vec<Result<Vec<u8>, RecordError>>,
}

/// The arguments of a sync request that stay fixed across its steps.
pub struct SyncLink {
    pub source_ty: Seq<u8>,
    pub source: Seq<u8>,
    pub dest_ty: Seq<u8>,
    pub tag: Seq<u8>,
    pub reciprocal: Seq<u8>,
}

/// Links the first `n` of `added`, writing the placeholder of each address
/// that can be linked: the store after, and the outcomes, two handles for
/// each address that links and one `IndexNotFound` for each that does not.
pub open spec fn create_fold(s: StoreView, k: SyncLink, added: Seq<Seq<u8>>, n: int) -> (StoreView, Seq<Result<Seq<u8>, RecordError>>)
    decreases n,
{
    if n <= 0 {
        (s, Seq::empty())
    } else {
        let (s1, rs) = create_fold(s, k, added, n - 1);
        let d = added[n - 1];
        let s1p = if endpoints_ok(k.source, d) { with_identity(s1, k.dest_ty, d) } else { s1 };
        let s2 = after_create_index(s1p, k.source_ty, k.source, k.dest_ty, d, k.tag, k.reciprocal);
        match create_index_spec(k.source_ty, k.source, k.dest_ty, d, k.tag, k.reciprocal) {
            Ok(v) => (s2, rs + v),
            Err(_) => (s2, rs.push(Err(RecordError::IndexNotFound))),
        }
    }
}

/// Unlinks the first `n` of `removed`: the store after, and the outcomes, a
/// handle for each removed edge and one `IndexNotFound` for each address that
/// cannot be unlinked.
pub open spec fn remove_fold(s: StoreView, k: SyncLink, removed: Seq<Seq<u8>>, n: int) -> (StoreView, Seq<Result<Seq<u8>, RecordError>>)
    decreases n,
{
    if n <= 0 {
        (s, Seq::empty())
    } else {
        let (s1, rs) = remove_fold(s, k, removed, n - 1);
        let d = removed[n - 1];
        let s2 = after_delete_index(s1, k.source_ty, k.source, k.dest_ty, d, k.tag, k.reciprocal);
        match delete_index_spec(s1, k.source_ty, k.source, k.dest_ty, d, k.tag, k.reciprocal) {
            Ok(v) => (s2, rs + v),
            Err(_) => (s2, rs.push(Err(RecordError::IndexNotFound))),
        }
    }
}

/// The store once the source's placeholder is written, where the source is
/// well-formed.
pub open spec fn sync_start(s: StoreView, k: SyncLink) -> StoreView {
    if k.source.len() == ADDRESS_LEN {
        with_identity(s, k.source_ty, k.source)
    } else {
        s
    }
}

/// The store once the source is recorded in `time_index` at `at`; with no
/// time, as it was.
pub open spec fn after_stamp(s: StoreView, k: SyncLink, time_index: Seq<u8>, at: Option<i64>) -> StoreView {
    match at {
        Some(t) => after_append(s, time_index, k.source_ty, k.source, t),
        None => s,
    }
}

/// A sync request processed at time `at` (or with no time to record): the
/// store after, the creation outcomes and the removal outcomes.
pub open spec fn sync_spec(
    s: StoreView, k: SyncLink, added: Seq<Seq<u8>>, removed: Seq<Seq<u8>>, time_index: Seq<u8>, at: Option<i64>,
) -> (StoreView, Seq<Result<Seq<u8>, RecordError>>, Seq<Result<Seq<u8>, RecordError>>) {
    let (s1, created) = create_fold(sync_start(s, k), k, added, added.len() as int);
    let s2 = after_stamp(s1, k, time_index, at);
    let (s3, gone) = remove_fold(s2, k, removed, removed.len() as int);
    (s3, created, gone)
}

pub open spec fn sync_link(source_ty: &[u8], source: &[u8], dest_ty: &[u8], tag: &[u8], reciprocal: &[u8]) -> SyncLink {
    SyncLink { source_ty: source_ty@, source: source@, dest_ty: dest_ty@, tag: tag@, reciprocal: reciprocal@ }
}

/// Relies on `std::time::SystemTime::elapsed` from `UNIX_EPOCH`: the time
/// since the epoch by the system clock, or an error where the clock reads
/// earlier; here as whole microseconds, or `None`. Nothing is known of the
/// value.
#[verifier::external_body]
fn micros_since_epoch() -> (r: Option<u128>) {
    std::time::UNIX_EPOCH.elapsed().ok().map(|d| d.as_micros())
}

/// This partition's clock, in microseconds since the Unix epoch, where it
/// can be read and fits an `i64`.
fn clock_reading() -> (r: Option<i64>) {
    match micros_since_epoch() {
        Some(m) => if m <= i64::MAX as u128 {
            Some(m as i64)
        } else {
            None
        },
        None => None,
    }
}

/// Processes a sync request at time `at`; see `sync_stamped`.
pub fn sync_index_at(
    store: &mut Store, source_ty: &[u8], source: &[u8], dest_ty: &[u8], added: &Vec<Vec<u8>>,
    removed: &Vec<Vec<u8>>, tag: &[u8], reciprocal: &[u8], time_index: &[u8], at: i64,
) -> (r: SyncResponse)
    requires
        old(store).wf(),
    ensures
        final(store).wf(),
        (final(store)@, results_view(r.indexes_created@), results_view(r.indexes_removed@)) == sync_spec(
            old(store)@, sync_link(source_ty, source, dest_ty, tag, reciprocal), byte_seqs(added@),
            byte_seqs(removed@), time_index@, Some(at)),
{
    sync_stamped(store, source_ty, source, dest_ty, added, removed, tag, reciprocal, time_index, Some(at))
}

/// Processes a sync request: writes the placeholders of `source` and of each
/// of `added`, links `source` with each of `added`, records `source` in
/// `time_index` at `at` (where there is a time), then unlinks it from each of
/// `removed`. Each address succeeds or fails on its own; the call as a whole
/// does not fail.
fn sync_stamped(
    store: &mut Store, source_ty: &[u8], source: &[u8], dest_ty: &[u8], added: &Vec<Vec<u8>>,
    removed: &Vec<Vec<u8>>, tag: &[u8], reciprocal: &[u8], time_index: &[u8], at: Option<i64>,
) -> (r: SyncResponse)
    requires
        old(store).wf(),
    ensures
        final(store).wf(),
        (final(store)@, results_view(r.indexes_created@), results_view(r.indexes_removed@)) == sync_spec(
            old(store)@, sync_link(source_ty, source, dest_ty, tag, reciprocal), byte_seqs(added@),
            byte_seqs(removed@), time_index@, at),
{
    let ghost k = sync_link(source_ty, source, dest_ty, tag, reciprocal);
    if source.len() == ADDRESS_LEN {
        ensure_identity(store, source_ty, source);
    }
    let ghost s0 = store@;
    let ghost ad = byte_seqs(added@);
    let ghost rm = byte_seqs(removed@);
    let mut created: Vec<Result<Vec<u8>, RecordError>> = Vec::new();
    let mut i: usize = 0;
    assert(results_view(created@) =~= Seq::<Result<Seq<u8>, RecordError>>::empty());
    while i < added.len()
        invariant
            store.wf(),
            0 <= i <= added@.len(),
            ad == byte_seqs(added@),
            k == sync_link(source_ty, source, dest_ty, tag, reciprocal),
            (store@, results_view(created@)) == create_fold(s0, k, ad, i as int),
        decreases added@.len() - i,
    {
        assert(ad[i as int] == added@[i as int]@);
        let ghost before = created@;
        if source.len() == ADDRESS_LEN && added[i].len() == ADDRESS_LEN {
            ensure_identity(store, dest_ty, added[i].as_slice());
        }
        match create_index(store, source_ty, source, dest_ty, added[i].as_slice(), tag, reciprocal) {
            Ok(v) => {
                let mut j: usize = 0;
                while j < v.len()
                    invariant
                        0 <= j <= v@.len(),
                        results_view(created@) == results_view(before) + results_view(v@).take(j as int),
                    decreases v@.len() - j,
                {
                    let ghost mid = created@;
                    let x = match &v[j] {
                        Ok(h) => Ok(crate::bytes::copy_bytes(h.as_slice())),
                        Err(e) => Err(*e),
                    };
                    created.push(x);
                    assert(results_view(created@) =~= results_view(mid).push(results_view(v@)[j as int]));
                    assert(results_view(v@).take(j + 1) =~= results_view(v@).take(j as int).push(results_view(v@)[j as int]));
                    j = j + 1;
                }
                assert(results_view(v@).take(j as int) =~= results_view(v@));
            },
            Err(_) => {
                created.push(Err(RecordError::IndexNotFound));
                assert(results_view(created@) =~= results_view(before).push(Err(RecordError::IndexNotFound)));
            },
        }
        i = i + 1;
    }
    if let Some(t) = at {
        let _ = append_to_time_index(store, time_index, source_ty, source, t);
    }
    let ghost s2 = store@;
    let mut gone: Vec<Result<Vec<u8>, RecordError>> = Vec::new();
    let mut i: usize = 0;
    assert(results_view(gone@) =~= Seq::<Result<Seq<u8>, RecordError>>::empty());
    while i < removed.len()
        invariant
            store.wf(),
            0 <= i <= removed@.len(),
            rm == byte_seqs(removed@),
            k == sync_link(source_ty, source, dest_ty, tag, reciprocal),
            (store@, results_view(gone@)) == remove_fold(s2, k, rm, i as int),
        decreases removed@.len() - i,
    {
        assert(rm[i as int] == removed@[i as int]@);
        let ghost before = gone@;
        match delete_index(store, source_ty, source, dest_ty, removed[i].as_slice(), tag, reciprocal) {
            Ok(v) => {
                let mut j: usize = 0;
                while j < v.len()
                    invariant
                        0 <= j <= v@.len(),
                        results_view(gone@) == results_view(before) + results_view(v@).take(j as int),
                    decreases v@.len() - j,
                {
                    let ghost mid = gone@;
                    let x = match &v[j] {
                        Ok(h) => Ok(crate::bytes::copy_bytes(h.as_slice())),
                        Err(e) => Err(*e),
                    };
                    gone.push(x);
                    assert(results_view(gone@) =~= results_view(mid).push(results_view(v@)[j as int]));
                    assert(results_view(v@).take(j + 1) =~= results_view(v@).take(j as int).push(results_view(v@)[j as int]));
                    j = j + 1;
                }
                assert(results_view(v@).take(j as int) =~= results_view(v@));
            },
            Err(_) => {
                gone.push(Err(RecordError::IndexNotFound));
                assert(results_view(gone@) =~= results_view(before).push(Err(RecordError::IndexNotFound)));
            },
        }
        i = i + 1;
    }
    SyncResponse { indexes_created: created, indexes_removed: gone }
}

/// Processes a sync request, recording `source` in `time_index` at this
/// partition's current time (the time of indexing, not of the remote
/// record's creation). Where the clock cannot be read, nothing is recorded in
/// the time index and the rest goes ahead. See `sync_stamped`.
pub fn sync_index(
    store: &mut Store, source_ty: &[u8], source: &[u8], dest_ty: &[u8], added: &Vec<Vec<u8>>,
    removed: &Vec<Vec<u8>>, tag: &[u8], reciprocal: &[u8], time_index: &[u8],
) -> (r: SyncResponse)
    requires
        old(store).wf(),
    ensures
        final(store).wf(),
        exists|at: Option<i64>| (final(store)@, results_view(r.indexes_created@), results_view(r.indexes_removed@)) == #[trigger] sync_spec(
            old(store)@, sync_link(source_ty, source, dest_ty, tag, reciprocal), byte_seqs(added@),
            byte_seqs(removed@), time_index@, at),
{
    let at = clock_reading();
    sync_stamped(store, source_ty, source, dest_ty, added, removed, tag, reciprocal, time_index, at)
}

} // verus!
