//! Bidirectional, tagged relationship edges between identities.
use vstd::prelude::*;
use crate::bytes::{bytes_eq, contains_bytes, copy_bytes, ADDRESS_LEN};
use crate::codec::decode_identity;
use crate::error::{bytes_result, RecordError};
use crate::identity::{
    calculate_identity_address, identity_address, read_entry_identity, read_identity_parts,
    resolve_spec,
};
use crate::records::{read_record_entry, read_spec};
use crate::store::{
    edge_handle, edges_without, matching_handles, targets, time_order, with_edge, Store,
    StoreView,
};

verus! {

/// Configuration of an index that links to records kept by another zome.
#[derive(Clone, Debug)]
pub struct IndexingZomeConfig {
    /// Zome that is asked for the records by identity.
    pub record_storage_zome: String,
}

pub open spec fn results_view(v: Seq<Result<Vec<u8>, RecordError>>) -> Seq<Result<Seq<u8>, RecordError>> {
    v.map_values(|r: Result<Vec<u8>, RecordError>| bytes_result(r))
}

pub open spec fn byte_seqs(v: Seq<Vec<u8>>) -> Seq<Seq<u8>> {
    v.map_values(|b: Vec<u8>| b@)
}

/// Both endpoints are well-formed addresses.
pub open spec fn endpoints_ok(source: Seq<u8>, dest: Seq<u8>) -> bool {
    source.len() == ADDRESS_LEN && dest.len() == ADDRESS_LEN
}

/// The store after `create_index`: the edge source -> dest under `tag` and
/// the edge dest -> source under `reciprocal`; nothing else changes.
pub open spec fn after_create_index(
    s: StoreView, source_ty: Seq<u8>, source: Seq<u8>, dest_ty: Seq<u8>, dest: Seq<u8>,
    tag: Seq<u8>, reciprocal: Seq<u8>,
) -> StoreView {
    if !endpoints_ok(source, dest) {
        s
    } else {
        let a = identity_address(source_ty, source);
        let b = identity_address(dest_ty, dest);
        StoreView { edges: with_edge(with_edge(s.edges, a, b, tag), b, a, reciprocal), ..s }
    }
}

/// The handles `create_index` reports.
pub open spec fn create_index_spec(
    source_ty: Seq<u8>, source: Seq<u8>, dest_ty: Seq<u8>, dest: Seq<u8>, tag: Seq<u8>, reciprocal: Seq<u8>,
) -> Result<Seq<Result<Seq<u8>, RecordError>>, RecordError> {
    if !endpoints_ok(source, dest) {
        Err(RecordError::DecodeError)
    } else {
        let a = identity_address(source_ty, source);
        let b = identity_address(dest_ty, dest);
        Ok(seq![Ok(edge_handle(a, b, tag)), Ok(edge_handle(b, a, reciprocal))])
    }
}

/// The store after `delete_index`: no edge source -> dest under `tag`, and
/// none dest -> source under `reciprocal`.
pub open spec fn after_delete_index(
    s: StoreView, source_ty: Seq<u8>, source: Seq<u8>, dest_ty: Seq<u8>, dest: Seq<u8>,
    tag: Seq<u8>, reciprocal: Seq<u8>,
) -> StoreView {
    if !endpoints_ok(source, dest) {
        s
    } else {
        let a = identity_address(source_ty, source);
        let b = identity_address(dest_ty, dest);
        StoreView { edges: edges_without(edges_without(s.edges, a, b, tag), b, a, reciprocal), ..s }
    }
}

/// One `Ok` handle per removed edge.
pub open spec fn oks(hs: Seq<Seq<u8>>) -> Seq<Result<Seq<u8>, RecordError>> {
    hs.map_values(|h: Seq<u8>| Ok::<Seq<u8>, RecordError>(h))
}

/// The handles `delete_index` reports.
pub open spec fn delete_index_spec(
    s: StoreView, source_ty: Seq<u8>, source: Seq<u8>, dest_ty: Seq<u8>, dest: Seq<u8>,
    tag: Seq<u8>, reciprocal: Seq<u8>,
) -> Result<Seq<Result<Seq<u8>, RecordError>>, RecordError> {
    if !endpoints_ok(source, dest) {
        Err(RecordError::DecodeError)
    } else {
        let a = identity_address(source_ty, source);
        let b = identity_address(dest_ty, dest);
        let e1 = edges_without(s.edges, a, b, tag);
        Ok(oks(matching_handles(s.edges, a, b, tag) + matching_handles(e1, b, a, reciprocal)))
    }
}

/// Among the first `n` of `recent`, those in `linked`, each once, in order.
pub open spec fn by_recency_upto(recent: Seq<Seq<u8>>, linked: Seq<Seq<u8>>, n: int) -> Seq<Seq<u8>>
    decreases n,
{
    if n <= 0 {
        Seq::empty()
    } else {
        let p = by_recency_upto(recent, linked, n - 1);
        let x = recent[n - 1];
        if linked.contains(x) && !p.contains(x) {
            p.push(x)
        } else {
            p
        }
    }
}

/// Among the first `n` of `linked`, those not in `recent`, in order.
pub open spec fn unindexed_upto(linked: Seq<Seq<u8>>, recent: Seq<Seq<u8>>, n: int) -> Seq<Seq<u8>>
    decreases n,
{
    if n <= 0 {
        Seq::empty()
    } else {
        let p = unindexed_upto(linked, recent, n - 1);
        if recent.contains(linked[n - 1]) {
            p
        } else {
            p.push(linked[n - 1])
        }
    }
}

/// `linked` ordered by `recent` (newest first): those that appear in it in
/// that order, then the others in their own order.
pub open spec fn order_by_recency(linked: Seq<Seq<u8>>, recent: Seq<Seq<u8>>) -> Seq<Seq<u8>> {
    by_recency_upto(recent, linked, recent.len() as int) + unindexed_upto(linked, recent, linked.len() as int)
}

/// Resolves the first `n` addresses, stopping at the first failure.
pub open spec fn resolve_all_upto(s: StoreView, addrs: Seq<Seq<u8>>, n: int) -> Result<Seq<Seq<u8>>, RecordError>
    decreases n,
{
    if n <= 0 {
        Ok(Seq::empty())
    } else {
        match resolve_all_upto(s, addrs, n - 1) {
            Err(e) => Err(e),
            Ok(p) => match resolve_spec(s, addrs[n - 1]) {
                Ok(k) => Ok(p.push(k)),
                Err(e) => Err(e),
            },
        }
    }
}

/// Targets of `base`'s edges under `tag`, ordered by time index `order`.
pub open spec fn index_targets(s: StoreView, base_ty: Seq<u8>, base: Seq<u8>, tag: Seq<u8>, order: Seq<u8>) -> Seq<Seq<u8>> {
    order_by_recency(targets(s.edges, identity_address(base_ty, base), tag), time_order(s.times, order))
}

/// What `read_index` returns.
pub open spec fn read_index_spec(s: StoreView, base_ty: Seq<u8>, base: Seq<u8>, tag: Seq<u8>, order: Seq<u8>) -> Result<Seq<Seq<u8>>, RecordError> {
    if base.len() != ADDRESS_LEN {
        Err(RecordError::DecodeError)
    } else {
        let t = index_targets(s, base_ty, base, tag, order);
        resolve_all_upto(s, t, t.len() as int)
    }
}

/// The record a placeholder at `address` stands for, read in this store.
pub open spec fn fetch_spec(s: StoreView, address: Seq<u8>) -> Result<Seq<u8>, RecordError> {
    if !s.entries.contains_key(address) {
        Err(RecordError::NotFound)
    } else {
        match decode_identity(s.entries[address]) {
            Some(p) => read_spec(s, p.0, p.1),
            None => Err(RecordError::DecodeError),
        }
    }
}

/// What `query_index` returns.
pub open spec fn query_index_spec(s: StoreView, base_ty: Seq<u8>, base: Seq<u8>, tag: Seq<u8>, order: Seq<u8>) -> Result<Seq<Result<Seq<u8>, RecordError>>, RecordError> {
    if base.len() != ADDRESS_LEN {
        Err(RecordError::DecodeError)
    } else {
        Ok(index_targets(s, base_ty, base, tag, order).map_values(|a: Seq<u8>| fetch_spec(s, a)))
    }
}

pub open spec fn keys_result(r: Result<Vec<Vec<u8>>, RecordError>) -> Result<Seq<Seq<u8>>, RecordError> {
    match r {
        Ok(v) => Ok(byte_seqs(v@)),
        Err(e) => Err(e),
    }
}

pub open spec fn results_result(r: Result<Vec<Result<Vec<u8>, RecordError>>, RecordError>) -> Result<Seq<Result<Seq<u8>, RecordError>>, RecordError> {
    match r {
        Ok(v) => Ok(results_view(v@)),
        Err(e) => Err(e),
    }
}

/// Links `source` (of type `source_ty`) and `dest` (of type `dest_ty`) both
/// ways: source -> dest under `tag`, dest -> source under `reciprocal`. Only
/// edges are written; placeholders are the caller's concern. Edges are keyed by their endpoints and
/// tag, so linking twice is the same as linking once.
pub fn create_index(
    store: &mut Store, source_ty: &[u8], source: &[u8], dest_ty: &[u8], dest: &[u8],
    tag: &[u8], reciprocal: &[u8],
) -> (r: Result<Vec<Result<Vec<u8>, RecordError>>, RecordError>)
    requires
        old(store).wf(),
    ensures
        final(store).wf(),
        results_result(r) == create_index_spec(source_ty@, source@, dest_ty@, dest@, tag@, reciprocal@),
        final(store)@.entries == old(store)@.entries,
        final(store)@ == after_create_index(old(store)@, source_ty@, source@, dest_ty@, dest@, tag@, reciprocal@),
{
    let a = calculate_identity_address(source_ty, source)?;
    let b = calculate_identity_address(dest_ty, dest)?;
    let h1 = store.create_edge(a.as_slice(), b.as_slice(), tag);
    let h2 = store.create_edge(b.as_slice(), a.as_slice(), reciprocal);
    let mut out: Vec<Result<Vec<u8>, RecordError>> = Vec::new();
    out.push(Ok(h1));
    out.push(Ok(h2));
    assert(results_view(out@) =~= create_index_spec(source_ty@, source@, dest_ty@, dest@, tag@, reciprocal@)->Ok_0);
    Ok(out)
}

/// Removes every edge source -> dest under `tag` and dest -> source under
/// `reciprocal`; reports one handle per removed edge. Placeholders stay.
pub fn delete_index(
    store: &mut Store, source_ty: &[u8], source: &[u8], dest_ty: &[u8], dest: &[u8],
    tag: &[u8], reciprocal: &[u8],
) -> (r: Result<Vec<Result<Vec<u8>, RecordError>>, RecordError>)
    requires
        old(store).wf(),
    ensures
        final(store).wf(),
        results_result(r) == delete_index_spec(old(store)@, source_ty@, source@, dest_ty@, dest@, tag@, reciprocal@),
        final(store)@ == after_delete_index(old(store)@, source_ty@, source@, dest_ty@, dest@, tag@, reciprocal@),
{
    let a = calculate_identity_address(source_ty, source)?;
    let b = calculate_identity_address(dest_ty, dest)?;
    let forward = store.delete_edges(a.as_slice(), b.as_slice(), tag);
    let backward = store.delete_edges(b.as_slice(), a.as_slice(), reciprocal);
    let ghost hs = byte_seqs(forward@) + byte_seqs(backward@);
    let mut out: Vec<Result<Vec<u8>, RecordError>> = Vec::new();
    let mut i: usize = 0;
    while i < forward.len()
        invariant
            0 <= i <= forward@.len(),
            results_view(out@) == oks(byte_seqs(forward@).take(i as int)),
        decreases forward@.len() - i,
    {
        let ghost before = out@;
        out.push(Ok(copy_bytes(forward[i].as_slice())));
        assert(results_view(out@) =~= results_view(before).push(Ok(forward@[i as int]@)));
        assert(oks(byte_seqs(forward@).take(i + 1)) =~= oks(byte_seqs(forward@).take(i as int)).push(Ok(forward@[i as int]@)));
        i = i + 1;
    }
    let mut j: usize = 0;
    while j < backward.len()
        invariant
            0 <= j <= backward@.len(),
            forward@.len() == i,
            results_view(out@) == oks(hs.take(i + j)),
            hs == byte_seqs(forward@) + byte_seqs(backward@),
        decreases backward@.len() - j,
    {
        let ghost before = out@;
        out.push(Ok(copy_bytes(backward[j].as_slice())));
        assert(hs[i + j] == backward@[j as int]@);
        assert(results_view(out@) =~= results_view(before).push(Ok(backward@[j as int]@)));
        assert(oks(hs.take(i + j + 1)) =~= oks(hs.take(i + j)).push(Ok(hs[i + j])));
        j = j + 1;
    }
    assert(hs.take(i + j) =~= hs);
    Ok(out)
}

/// Orders `linked` by `recent`, newest first; see `order_by_recency`.
pub fn order_targets(linked: &Vec<Vec<u8>>, recent: &Vec<Vec<u8>>) -> (r: Vec<Vec<u8>>)
    ensures
        byte_seqs(r@) == order_by_recency(byte_seqs(linked@), byte_seqs(recent@)),
{
    let ghost l = byte_seqs(linked@);
    let ghost rc = byte_seqs(recent@);
    let mut out: Vec<Vec<u8>> = Vec::new();
    let mut i: usize = 0;
    while i < recent.len()
        invariant
            0 <= i <= recent@.len(),
            l == byte_seqs(linked@),
            rc == byte_seqs(recent@),
            byte_seqs(out@) == by_recency_upto(rc, l, i as int),
        decreases recent@.len() - i,
    {
        let x = &recent[i];
        assert(rc[i as int] == x@);
        if contains_bytes(linked, x.as_slice()) && !contains_bytes(&out, x.as_slice()) {
            let ghost before = out@;
            out.push(copy_bytes(x.as_slice()));
            assert(byte_seqs(out@) =~= byte_seqs(before).push(x@));
        }
        i = i + 1;
    }
    let ghost head = byte_seqs(out@);
    let mut j: usize = 0;
    while j < linked.len()
        invariant
            0 <= j <= linked@.len(),
            l == byte_seqs(linked@),
            rc == byte_seqs(recent@),
            byte_seqs(out@) == head + unindexed_upto(l, rc, j as int),
        decreases linked@.len() - j,
    {
        let x = &linked[j];
        assert(l[j as int] == x@);
        if !contains_bytes(recent, x.as_slice()) {
            let ghost before = out@;
            out.push(copy_bytes(x.as_slice()));
            assert(byte_seqs(out@) =~= byte_seqs(before).push(x@));
        }
        j = j + 1;
    }
    out
}

proof fn lemma_resolve_error_sticks(s: StoreView, addrs: Seq<Seq<u8>>, i: int, n: int)
    requires
        0 <= i <= n,
        resolve_all_upto(s, addrs, i) is Err,
    ensures
        resolve_all_upto(s, addrs, n) == resolve_all_upto(s, addrs, i),
    decreases n - i,
{
    if i < n {
        lemma_resolve_error_sticks(s, addrs, i, n - 1);
    }
}

/// Resolves each address in turn; fails with the first failure.
fn resolve_all(store: &Store, addrs: &Vec<Vec<u8>>) -> (r: Result<Vec<Vec<u8>>, RecordError>)
    requires
        store.wf(),
    ensures
        keys_result(r) == resolve_all_upto(store@, byte_seqs(addrs@), addrs@.len() as int),
{
    let ghost a = byte_seqs(addrs@);
    let mut out: Vec<Vec<u8>> = Vec::new();
    assert(byte_seqs(out@) =~= Seq::<Seq<u8>>::empty());
    let mut i: usize = 0;
    while i < addrs.len()
        invariant
            store.wf(),
            0 <= i <= addrs@.len(),
            out@.len() == i,
            a == byte_seqs(addrs@),
            resolve_all_upto(store@, a, i as int) == Ok::<Seq<Seq<u8>>, RecordError>(byte_seqs(out@)),
        decreases addrs@.len() - i,
    {
        assert(a[i as int] == addrs@[i as int]@);
        match read_entry_identity(store, addrs[i].as_slice()) {
            Ok(k) => {
                let ghost before = out@;
                out.push(k);
                assert(byte_seqs(out@) =~= byte_seqs(before).push(out@[i as int]@));
            },
            Err(e) => {
                proof {
                    lemma_resolve_error_sticks(store@, a, i + 1, a.len() as int);
                }
                return Err(e);
            },
        }
        i = i + 1;
    }
    Ok(out)
}

fn ordered_index_targets(store: &Store, base_ty: &[u8], base: &[u8], tag: &[u8], order: &[u8]) -> (r: Result<Vec<Vec<u8>>, RecordError>)
    requires
        store.wf(),
    ensures
        base@.len() != ADDRESS_LEN ==> r == Err::<Vec<Vec<u8>>, RecordError>(RecordError::DecodeError),
        base@.len() == ADDRESS_LEN ==> (r matches Ok(v) && byte_seqs(v@) == index_targets(store@, base_ty@, base@, tag@, order@)),
{
    let id = calculate_identity_address(base_ty, base)?;
    let linked = store.linked(id.as_slice(), tag);
    let recent = store.time_order(order);
    Ok(order_targets(&linked, &recent))
}

/// Identities linked from `base` (of type `base_ty`) under `tag`, ordered by
/// time index `order`, newest first. Fails with the first identity that does
/// not resolve.
pub fn read_index(store: &Store, base_ty: &[u8], base: &[u8], tag: &[u8], order: &[u8]) -> (r: Result<Vec<Vec<u8>>, RecordError>)
    requires
        store.wf(),
    ensures
        keys_result(r) == read_index_spec(store@, base_ty@, base@, tag@, order@),
{
    let addrs = ordered_index_targets(store, base_ty, base, tag, order)?;
    resolve_all(store, &addrs)
}

/// Reads the record behind the placeholder at `address`.
pub fn fetch_record(store: &Store, address: &[u8]) -> (r: Result<Vec<u8>, RecordError>)
    requires
        store.wf(),
    ensures
        bytes_result(r) == fetch_spec(store@, address@),
{
    let (ty, key) = read_identity_parts(store, address)?;
    read_record_entry(store, ty.as_slice(), key.as_slice())
}

/// What `resolve_index` returns.
pub open spec fn resolve_index_spec(s: StoreView, base_ty: Seq<u8>, base: Seq<u8>, tag: Seq<u8>, order: Seq<u8>) -> Result<Seq<Result<Seq<u8>, RecordError>>, RecordError> {
    if base.len() != ADDRESS_LEN {
        Err(RecordError::DecodeError)
    } else {
        Ok(index_targets(s, base_ty, base, tag, order).map_values(|a: Seq<u8>| resolve_spec(s, a)))
    }
}

/// Identities linked from `base` under `tag`, ordered as by `read_index`,
/// each resolved on its own: the keys to ask another partition for.
pub fn resolve_index(store: &Store, base_ty: &[u8], base: &[u8], tag: &[u8], order: &[u8]) -> (r: Result<Vec<Result<Vec<u8>, RecordError>>, RecordError>)
    requires
        store.wf(),
    ensures
        results_result(r) == resolve_index_spec(store@, base_ty@, base@, tag@, order@),
{
    let addrs = ordered_index_targets(store, base_ty, base, tag, order)?;
    let ghost a = byte_seqs(addrs@);
    let mut out: Vec<Result<Vec<u8>, RecordError>> = Vec::new();
    let mut i: usize = 0;
    while i < addrs.len()
        invariant
            store.wf(),
            0 <= i <= addrs@.len(),
            a == byte_seqs(addrs@),
            results_view(out@) == a.take(i as int).map_values(|x: Seq<u8>| resolve_spec(store@, x)),
        decreases addrs@.len() - i,
    {
        let ghost before = out@;
        let f = read_entry_identity(store, addrs[i].as_slice());
        out.push(f);
        assert(a[i as int] == addrs@[i as int]@);
        assert(results_view(out@) =~= results_view(before).push(bytes_result(f)));
        assert(a.take(i + 1).map_values(|x: Seq<u8>| resolve_spec(store@, x))
            =~= a.take(i as int).map_values(|x: Seq<u8>| resolve_spec(store@, x)).push(resolve_spec(store@, a[i as int])));
        i = i + 1;
    }
    assert(a.take(i as int) =~= a);
    Ok(out)
}

/// Records linked from `base` under `tag`, ordered as by `read_index`, each
/// read on its own: one failure does not stop the others.
pub fn query_index(store: &Store, base_ty: &[u8], base: &[u8], tag: &[u8], order: &[u8]) -> (r: Result<Vec<Result<Vec<u8>, RecordError>>, RecordError>)
    requires
        store.wf(),
    ensures
        results_result(r) == query_index_spec(store@, base_ty@, base@, tag@, order@),
{
    let addrs = ordered_index_targets(store, base_ty, base, tag, order)?;
    let ghost a = byte_seqs(addrs@);
    let mut out: Vec<Result<Vec<u8>, RecordError>> = Vec::new();
    let mut i: usize = 0;
    while i < addrs.len()
        invariant
            store.wf(),
            0 <= i <= addrs@.len(),
            a == byte_seqs(addrs@),
            results_view(out@) == a.take(i as int).map_values(|x: Seq<u8>| fetch_spec(store@, x)),
        decreases addrs@.len() - i,
    {
        let ghost before = out@;
        let f = fetch_record(store, addrs[i].as_slice());
        out.push(f);
        assert(a[i as int] == addrs@[i as int]@);
        assert(results_view(out@) =~= results_view(before).push(bytes_result(f)));
        assert(a.take(i + 1).map_values(|x: Seq<u8>| fetch_spec(store@, x))
            =~= a.take(i as int).map_values(|x: Seq<u8>| fetch_spec(store@, x)).push(fetch_spec(store@, a[i as int])));
        i = i + 1;
    }
    assert(a.take(i as int) =~= a);
    Ok(out)
}

/// Where the records behind an index are read.
pub enum Partition {
    /// This partition's own store.
    Local,
    /// The named partition, through a remote call.
    Remote(String),
}

/// The records behind an index, or what to ask another partition for them.
pub enum IndexQuery {
    /// Records read here, each on its own.
    Records(Vec<Result<Vec<u8>, RecordError>>),
    /// Keys to call `method` with in `partition`, each resolved on its own.
    Remote { partition: String, method: String, keys: Vec<Result<Vec<u8>, RecordError>> },
}

/// Records linked from `base` under `tag`, ordered as by `read_index`. For
/// `Partition::Local` they are read here, straight from this store with
/// `read_record_entry`, and `read_method` is not used; for
/// `Partition::Remote`, the result holds the keys to read with `read_method`
/// in that partition.
pub fn query_index_in(
    store: &Store, base_ty: &[u8], base: &[u8], tag: &[u8], order: &[u8], partition: Partition, read_method: String,
) -> (r: Result<IndexQuery, RecordError>)
    requires
        store.wf(),
    ensures
        base@.len() != ADDRESS_LEN ==> r == Err::<IndexQuery, RecordError>(RecordError::DecodeError),
        base@.len() == ADDRESS_LEN ==> match partition {
            Partition::Local => match r {
                Ok(IndexQuery::Records(v)) => Ok::<_, RecordError>(results_view(v@)) == query_index_spec(store@, base_ty@, base@, tag@, order@),
                _ => false,
            },
            Partition::Remote(p) => match r {
                Ok(IndexQuery::Remote { partition: q, method: m, keys }) => q == p && m == read_method
                    && Ok::<_, RecordError>(results_view(keys@)) == resolve_index_spec(store@, base_ty@, base@, tag@, order@),
                _ => false,
            },
        },
{
    match partition {
        Partition::Local => {
            let v = query_index(store, base_ty, base, tag, order)?;
            Ok(IndexQuery::Records(v))
        },
        Partition::Remote(p) => {
            let keys = resolve_index(store, base_ty, base, tag, order)?;
            Ok(IndexQuery::Remote { partition: p, method: read_method, keys })
        },
    }
}

} // verus!
