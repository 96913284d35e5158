//! Properties of the relationship index and of sync requests.
use vstd::prelude::*;
use crate::bytes::ADDRESS_LEN;
use crate::codec::{identity_entry, lemma_identity_round_trip};
use crate::edge_laws::{lemma_targets, lemma_with_edge, lemma_without};
use crate::error::RecordError;
use crate::identity::{identity_address, resolve_spec};
use crate::indexes::{
    after_create_index, after_delete_index, by_recency_upto, endpoints_ok, order_by_recency,
    read_index_spec, resolve_all_upto, unindexed_upto,
};
use crate::store::{has_edge, targets, StoreView};
use crate::sync::{create_fold, remove_fold, sync_spec, sync_start, SyncLink};

verus! {

proof fn lemma_push_keeps<A>(p: Seq<A>, y: A, x: A)
    requires
        p.contains(x),
    ensures
        p.push(y).contains(x),
{
    let j = choose|j: int| 0 <= j < p.len() && p[j] == x;
    assert(p.push(y)[j] == x);
}

proof fn lemma_by_recency_has(recent: Seq<Seq<u8>>, linked: Seq<Seq<u8>>, n: int, j: int)
    requires
        0 <= j < n <= recent.len(),
        linked.contains(recent[j]),
    ensures
        by_recency_upto(recent, linked, n).contains(recent[j]),
    decreases n,
{
    let x = recent[j];
    let p = by_recency_upto(recent, linked, n - 1);
    if j < n - 1 {
        lemma_by_recency_has(recent, linked, n - 1, j);
        if linked.contains(recent[n - 1]) && !p.contains(recent[n - 1]) {
            lemma_push_keeps(p, recent[n - 1], x);
        }
    } else if !p.contains(x) {
        assert(p.push(x)[p.len() as int] == x);
    }
}

proof fn lemma_unindexed_has(linked: Seq<Seq<u8>>, recent: Seq<Seq<u8>>, n: int, j: int)
    requires
        0 <= j < n <= linked.len(),
        !recent.contains(linked[j]),
    ensures
        unindexed_upto(linked, recent, n).contains(linked[j]),
    decreases n,
{
    let p = unindexed_upto(linked, recent, n - 1);
    if j < n - 1 {
        lemma_unindexed_has(linked, recent, n - 1, j);
        if !recent.contains(linked[n - 1]) {
            lemma_push_keeps(p, linked[n - 1], linked[j]);
        }
    } else {
        assert(p.push(linked[j])[p.len() as int] == linked[j]);
    }
}

/// Ordering by a time index drops none of the linked addresses.
pub proof fn lemma_order_keeps(linked: Seq<Seq<u8>>, recent: Seq<Seq<u8>>, x: Seq<u8>)
    requires
        linked.contains(x),
    ensures
        order_by_recency(linked, recent).contains(x),
{
    let a = by_recency_upto(recent, linked, recent.len() as int);
    let b = unindexed_upto(linked, recent, linked.len() as int);
    let o = a + b;
    if recent.contains(x) {
        let j = choose|j: int| 0 <= j < recent.len() && recent[j] == x;
        lemma_by_recency_has(recent, linked, recent.len() as int, j);
        let i = choose|i: int| 0 <= i < a.len() && a[i] == x;
        assert(o[i] == x);
    } else {
        let j = choose|j: int| 0 <= j < linked.len() && linked[j] == x;
        lemma_unindexed_has(linked, recent, linked.len() as int, j);
        let i = choose|i: int| 0 <= i < b.len() && b[i] == x;
        assert(o[a.len() + i] == x);
    }
}

/// A successful resolution resolves each address in turn.
pub proof fn lemma_resolve_all_ok(s: StoreView, addrs: Seq<Seq<u8>>, n: int, ks: Seq<Seq<u8>>)
    requires
        0 <= n <= addrs.len(),
        resolve_all_upto(s, addrs, n) == Ok::<Seq<Seq<u8>>, RecordError>(ks),
    ensures
        ks.len() == n,
        forall|i: int| 0 <= i < n ==> resolve_spec(s, addrs[i]) == Ok::<Seq<u8>, RecordError>(#[trigger] ks[i]),
    decreases n,
{
    if n > 0 {
        let p = resolve_all_upto(s, addrs, n - 1)->Ok_0;
        lemma_resolve_all_ok(s, addrs, n - 1, p);
        assert forall|i: int| 0 <= i < n implies resolve_spec(s, addrs[i]) == Ok::<Seq<u8>, RecordError>(#[trigger] ks[i]) by {
            if i < n - 1 {
                assert(ks[i] == p[i]);
            }
        }
    }
}

proof fn lemma_read_index_has(s: StoreView, ty: Seq<u8>, base: Seq<u8>, tag: Seq<u8>, order: Seq<u8>, target: Seq<u8>, key: Seq<u8>)
    requires
        base.len() == ADDRESS_LEN,
        has_edge(s.edges, identity_address(ty, base), target, tag),
        resolve_spec(s, target) == Ok::<Seq<u8>, RecordError>(key),
    ensures
        read_index_spec(s, ty, base, tag, order) matches Ok(ks) ==> ks.contains(key),
{
    let linked = targets(s.edges, identity_address(ty, base), tag);
    lemma_targets(s.edges, identity_address(ty, base), tag, target);
    let t = order_by_recency(linked, crate::store::time_order(s.times, order));
    lemma_order_keeps(linked, crate::store::time_order(s.times, order), target);
    if read_index_spec(s, ty, base, tag, order) is Ok {
        let ks = read_index_spec(s, ty, base, tag, order)->Ok_0;
        lemma_resolve_all_ok(s, t, t.len() as int, ks);
        let i = choose|i: int| 0 <= i < t.len() && t[i] == target;
        assert(ks[i] == key);
    }
}

/// After `create_index(A, tag, B)` on a store holding both placeholders,
/// both edges are present, reading A's index under `tag` (where it succeeds)
/// lists B, and reading B's index under the reciprocal tag lists A.
pub proof fn law_index_both_ways(
    s: StoreView, source_ty: Seq<u8>, source: Seq<u8>, dest_ty: Seq<u8>, dest: Seq<u8>,
    tag: Seq<u8>, reciprocal: Seq<u8>, order: Seq<u8>,
)
    requires
        endpoints_ok(source, dest),
        s.entries.contains_key(identity_address(source_ty, source)),
        s.entries[identity_address(source_ty, source)] == identity_entry(source_ty, source),
        s.entries.contains_key(identity_address(dest_ty, dest)),
        s.entries[identity_address(dest_ty, dest)] == identity_entry(dest_ty, dest),
    ensures
        has_edge(after_create_index(s, source_ty, source, dest_ty, dest, tag, reciprocal).edges,
            identity_address(source_ty, source), identity_address(dest_ty, dest), tag),
        has_edge(after_create_index(s, source_ty, source, dest_ty, dest, tag, reciprocal).edges,
            identity_address(dest_ty, dest), identity_address(source_ty, source), reciprocal),
        read_index_spec(after_create_index(s, source_ty, source, dest_ty, dest, tag, reciprocal), source_ty, source, tag, order)
            matches Ok(ks) ==> ks.contains(dest),
        read_index_spec(after_create_index(s, source_ty, source, dest_ty, dest, tag, reciprocal), dest_ty, dest, reciprocal, order)
            matches Ok(ks) ==> ks.contains(source),
{
    let a = identity_address(source_ty, source);
    let b = identity_address(dest_ty, dest);
    let s1 = after_create_index(s, source_ty, source, dest_ty, dest, tag, reciprocal);
    let e0 = crate::store::with_edge(s.edges, a, b, tag);
    lemma_with_edge(s.edges, a, b, tag, a, b, tag);
    lemma_with_edge(e0, b, a, reciprocal, a, b, tag);
    lemma_with_edge(s.edges, a, b, tag, b, a, reciprocal);
    lemma_with_edge(e0, b, a, reciprocal, b, a, reciprocal);
    lemma_identity_round_trip(dest_ty, dest);
    lemma_identity_round_trip(source_ty, source);
    lemma_read_index_has(s1, source_ty, source, tag, order, b, dest);
    lemma_read_index_has(s1, dest_ty, dest, reciprocal, order, a, source);
}

/// After `delete_index(A, tag, B)`, A's index under `tag` does not reach B and
/// B's index under the reciprocal tag does not reach A.
pub proof fn law_unindex_both_ways(
    s: StoreView, source_ty: Seq<u8>, source: Seq<u8>, dest_ty: Seq<u8>, dest: Seq<u8>,
    tag: Seq<u8>, reciprocal: Seq<u8>,
)
    requires
        endpoints_ok(source, dest),
    ensures
        !targets(after_delete_index(s, source_ty, source, dest_ty, dest, tag, reciprocal).edges,
            identity_address(source_ty, source), tag).contains(identity_address(dest_ty, dest)),
        !targets(after_delete_index(s, source_ty, source, dest_ty, dest, tag, reciprocal).edges,
            identity_address(dest_ty, dest), reciprocal).contains(identity_address(source_ty, source)),
{
    let a = identity_address(source_ty, source);
    let b = identity_address(dest_ty, dest);
    let e1 = crate::store::edges_without(s.edges, a, b, tag);
    let e2 = crate::store::edges_without(e1, b, a, reciprocal);
    lemma_without(s.edges, a, b, tag, a, b, tag);
    lemma_without(e1, b, a, reciprocal, a, b, tag);
    lemma_without(s.edges, a, b, tag, b, a, reciprocal);
    lemma_without(e1, b, a, reciprocal, b, a, reciprocal);
    lemma_targets(e2, a, tag, b);
    lemma_targets(e2, b, reciprocal, a);
}

/// Whether linking `k.source` with `d` makes the edge x0 -> x1 under x2.
pub open spec fn links(k: SyncLink, d: Seq<u8>, x0: Seq<u8>, x1: Seq<u8>, x2: Seq<u8>) -> bool {
    let a = identity_address(k.source_ty, k.source);
    let b = identity_address(k.dest_ty, d);
    endpoints_ok(k.source, d) && ((x0 == a && x1 == b && x2 == k.tag) || (x0 == b && x1 == a && x2 == k.reciprocal))
}

pub open spec fn links_any(k: SyncLink, ds: Seq<Seq<u8>>, n: int, x0: Seq<u8>, x1: Seq<u8>, x2: Seq<u8>) -> bool {
    exists|i: int| 0 <= i < n && #[trigger] links(k, ds[i], x0, x1, x2)
}

proof fn lemma_links_any_step(k: SyncLink, ds: Seq<Seq<u8>>, n: int, x0: Seq<u8>, x1: Seq<u8>, x2: Seq<u8>)
    requires
        0 < n,
    ensures
        links_any(k, ds, n, x0, x1, x2) <==> links_any(k, ds, n - 1, x0, x1, x2) || links(k, ds[n - 1], x0, x1, x2),
{
    if links_any(k, ds, n, x0, x1, x2) {
        let i = choose|i: int| 0 <= i < n && #[trigger] links(k, ds[i], x0, x1, x2);
        if i < n - 1 {
            assert(links_any(k, ds, n - 1, x0, x1, x2));
        }
    }
    if links(k, ds[n - 1], x0, x1, x2) {
        assert(links_any(k, ds, n, x0, x1, x2));
    }
}

/// The edges present after linking the first `n` addresses.
pub proof fn lemma_create_fold_edges(s: StoreView, k: SyncLink, ds: Seq<Seq<u8>>, n: int, x0: Seq<u8>, x1: Seq<u8>, x2: Seq<u8>)
    requires
        0 <= n <= ds.len(),
    ensures
        has_edge(create_fold(s, k, ds, n).0.edges, x0, x1, x2) <==> has_edge(s.edges, x0, x1, x2) || links_any(k, ds, n, x0, x1, x2),
    decreases n,
{
    if n > 0 {
        lemma_create_fold_edges(s, k, ds, n - 1, x0, x1, x2);
        lemma_links_any_step(k, ds, n, x0, x1, x2);
        let s1 = create_fold(s, k, ds, n - 1).0;
        let d = ds[n - 1];
        if endpoints_ok(k.source, d) {
            let a = identity_address(k.source_ty, k.source);
            let b = identity_address(k.dest_ty, d);
            lemma_with_edge(s1.edges, a, b, k.tag, x0, x1, x2);
            lemma_with_edge(crate::store::with_edge(s1.edges, a, b, k.tag), b, a, k.reciprocal, x0, x1, x2);
        }
    }
}

/// The edges present after unlinking the first `n` addresses.
pub proof fn lemma_remove_fold_edges(s: StoreView, k: SyncLink, ds: Seq<Seq<u8>>, n: int, x0: Seq<u8>, x1: Seq<u8>, x2: Seq<u8>)
    requires
        0 <= n <= ds.len(),
    ensures
        has_edge(remove_fold(s, k, ds, n).0.edges, x0, x1, x2) <==> has_edge(s.edges, x0, x1, x2) && !links_any(k, ds, n, x0, x1, x2),
    decreases n,
{
    if n > 0 {
        lemma_remove_fold_edges(s, k, ds, n - 1, x0, x1, x2);
        lemma_links_any_step(k, ds, n, x0, x1, x2);
        let s1 = remove_fold(s, k, ds, n - 1).0;
        let d = ds[n - 1];
        if endpoints_ok(k.source, d) {
            let a = identity_address(k.source_ty, k.source);
            let b = identity_address(k.dest_ty, d);
            lemma_without(s1.edges, a, b, k.tag, x0, x1, x2);
            lemma_without(crate::store::edges_without(s1.edges, a, b, k.tag), b, a, k.reciprocal, x0, x1, x2);
        }
    }
}

/// The edges present after a sync request: the old ones and those of the
/// added addresses, less those of the removed addresses.
pub proof fn lemma_sync_edges(
    s: StoreView, k: SyncLink, added: Seq<Seq<u8>>, removed: Seq<Seq<u8>>, time_index: Seq<u8>, at: Option<i64>,
    x0: Seq<u8>, x1: Seq<u8>, x2: Seq<u8>,
)
    ensures
        has_edge(sync_spec(s, k, added, removed, time_index, at).0.edges, x0, x1, x2) <==> (has_edge(s.edges, x0, x1, x2)
            || links_any(k, added, added.len() as int, x0, x1, x2)) && !links_any(k, removed, removed.len() as int, x0, x1, x2),
{
    let s0 = sync_start(s, k);
    let s1 = create_fold(s0, k, added, added.len() as int).0;
    let s2 = crate::sync::after_stamp(s1, k, time_index, at);
    lemma_create_fold_edges(s0, k, added, added.len() as int, x0, x1, x2);
    lemma_remove_fold_edges(s2, k, removed, removed.len() as int, x0, x1, x2);
}

proof fn lemma_create_fold_outcomes(s: StoreView, t: StoreView, k: SyncLink, ds: Seq<Seq<u8>>, n: int)
    requires
        0 <= n <= ds.len(),
    ensures
        create_fold(s, k, ds, n).1 == create_fold(t, k, ds, n).1,
    decreases n,
{
    if n > 0 {
        lemma_create_fold_outcomes(s, t, k, ds, n - 1);
    }
}

pub open spec fn all_ok(rs: Seq<Result<Seq<u8>, RecordError>>) -> bool {
    forall|j: int| 0 <= j < rs.len() ==> (#[trigger] rs[j]) is Ok
}

pub open spec fn some_err(rs: Seq<Result<Seq<u8>, RecordError>>) -> bool {
    exists|j: int| 0 <= j < rs.len() && (#[trigger] rs[j]) is Err
}

pub open spec fn some_malformed(ds: Seq<Seq<u8>>, n: int) -> bool {
    exists|i: int| 0 <= i < n && (#[trigger] ds[i]).len() != ADDRESS_LEN
}

/// With a well-formed source, linking the first `n` addresses reports an
/// error exactly when one of them is malformed.
proof fn lemma_create_fold_errors(s: StoreView, k: SyncLink, ds: Seq<Seq<u8>>, n: int)
    requires
        0 <= n <= ds.len(),
        k.source.len() == ADDRESS_LEN,
    ensures
        some_err(create_fold(s, k, ds, n).1) <==> some_malformed(ds, n),
    decreases n,
{
    if n > 0 {
        lemma_create_fold_errors(s, k, ds, n - 1);
        let p = create_fold(s, k, ds, n - 1).1;
        let q = create_fold(s, k, ds, n).1;
        assert(forall|j: int| 0 <= j < p.len() ==> q[j] == p[j]);
        if some_err(p) {
            let j = choose|j: int| 0 <= j < p.len() && (#[trigger] p[j]) is Err;
            assert(q[j] is Err);
        }
        if some_malformed(ds, n - 1) {
            let i = choose|i: int| 0 <= i < n - 1 && (#[trigger] ds[i]).len() != ADDRESS_LEN;
            assert(ds[i].len() != ADDRESS_LEN);
        }
        if ds[n - 1].len() != ADDRESS_LEN {
            assert(q[p.len() as int] is Err);
        } else {
            if some_err(q) {
                let j = choose|j: int| 0 <= j < q.len() && (#[trigger] q[j]) is Err;
                assert(j < p.len());
                assert(p[j] is Err);
            }
        }
        if some_malformed(ds, n) {
            let i = choose|i: int| 0 <= i < n && (#[trigger] ds[i]).len() != ADDRESS_LEN;
            if i < n - 1 {
                assert(some_malformed(ds, n - 1));
            }
        }
    }
}

/// With well-formed addresses, unlinking reports no error.
proof fn lemma_remove_fold_ok(s: StoreView, k: SyncLink, ds: Seq<Seq<u8>>, n: int)
    requires
        0 <= n <= ds.len(),
        k.source.len() == ADDRESS_LEN,
        !some_malformed(ds, n),
    ensures
        all_ok(remove_fold(s, k, ds, n).1),
    decreases n,
{
    if n > 0 {
        assert(!some_malformed(ds, n - 1)) by {
            if some_malformed(ds, n - 1) {
                let i = choose|i: int| 0 <= i < n - 1 && (#[trigger] ds[i]).len() != ADDRESS_LEN;
                assert(ds[i].len() != ADDRESS_LEN);
            }
        }
        lemma_remove_fold_ok(s, k, ds, n - 1);
        assert(ds[n - 1].len() == ADDRESS_LEN);
    }
}

/// Repeating a sync request leaves the same edges as doing it once, reports
/// the same creation outcomes, and, where every address is well-formed,
/// reports no error.
pub proof fn law_sync_repeat(
    s: StoreView, k: SyncLink, added: Seq<Seq<u8>>, removed: Seq<Seq<u8>>, time_index: Seq<u8>, at1: Option<i64>, at2: Option<i64>,
)
    ensures
        forall|x0: Seq<u8>, x1: Seq<u8>, x2: Seq<u8>|
            has_edge(sync_spec(sync_spec(s, k, added, removed, time_index, at1).0, k, added, removed, time_index, at2).0.edges, x0, x1, x2)
            <==> #[trigger] has_edge(sync_spec(s, k, added, removed, time_index, at1).0.edges, x0, x1, x2),
        sync_spec(sync_spec(s, k, added, removed, time_index, at1).0, k, added, removed, time_index, at2).1
            == sync_spec(s, k, added, removed, time_index, at1).1,
        (k.source.len() == ADDRESS_LEN && !some_malformed(added, added.len() as int) && !some_malformed(removed, removed.len() as int))
            ==> !some_err(sync_spec(sync_spec(s, k, added, removed, time_index, at1).0, k, added, removed, time_index, at2).1)
            && all_ok(sync_spec(sync_spec(s, k, added, removed, time_index, at1).0, k, added, removed, time_index, at2).2),
{
    let s1 = sync_spec(s, k, added, removed, time_index, at1).0;
    assert forall|x0: Seq<u8>, x1: Seq<u8>, x2: Seq<u8>|
        has_edge(sync_spec(s1, k, added, removed, time_index, at2).0.edges, x0, x1, x2)
        <==> #[trigger] has_edge(s1.edges, x0, x1, x2) by {
        lemma_sync_edges(s, k, added, removed, time_index, at1, x0, x1, x2);
        lemma_sync_edges(s1, k, added, removed, time_index, at2, x0, x1, x2);
    }
    lemma_create_fold_outcomes(sync_start(s, k), sync_start(s1, k), k, added, added.len() as int);
    if k.source.len() == ADDRESS_LEN && !some_malformed(added, added.len() as int) && !some_malformed(removed, removed.len() as int) {
        lemma_create_fold_errors(sync_start(s1, k), k, added, added.len() as int);
        let s2 = crate::sync::after_stamp(create_fold(sync_start(s1, k), k, added, added.len() as int).0, k, time_index, at2);
        lemma_remove_fold_ok(s2, k, removed, removed.len() as int);
    }
}

/// With a well-formed source, a sync request reports an error among its
/// creations exactly when an added address is malformed, and still links every
/// well-formed added address (that the request does not also remove).
pub proof fn law_sync_partial_failure(
    s: StoreView, k: SyncLink, added: Seq<Seq<u8>>, removed: Seq<Seq<u8>>, time_index: Seq<u8>, at: Option<i64>,
)
    requires
        k.source.len() == ADDRESS_LEN,
    ensures
        some_err(sync_spec(s, k, added, removed, time_index, at).1) <==> some_malformed(added, added.len() as int),
        forall|i: int, x0: Seq<u8>, x1: Seq<u8>, x2: Seq<u8>|
            0 <= i < added.len() && #[trigger] links(k, added[i], x0, x1, x2) && !links_any(k, removed, removed.len() as int, x0, x1, x2)
            ==> has_edge(sync_spec(s, k, added, removed, time_index, at).0.edges, x0, x1, x2),
{
    lemma_create_fold_errors(sync_start(s, k), k, added, added.len() as int);
    assert forall|i: int, x0: Seq<u8>, x1: Seq<u8>, x2: Seq<u8>|
        0 <= i < added.len() && #[trigger] links(k, added[i], x0, x1, x2) && !links_any(k, removed, removed.len() as int, x0, x1, x2)
        implies has_edge(sync_spec(s, k, added, removed, time_index, at).0.edges, x0, x1, x2) by {
        lemma_sync_edges(s, k, added, removed, time_index, at, x0, x1, x2);
        assert(links_any(k, added, added.len() as int, x0, x1, x2));
    }
}

proof fn lemma_by_recency_from(recent: Seq<Seq<u8>>, linked: Seq<Seq<u8>>, n: int, x: Seq<u8>)
    requires
        0 <= n <= recent.len(),
        by_recency_upto(recent, linked, n).contains(x),
    ensures
        linked.contains(x),
    decreases n,
{
    if n > 0 {
        let p = by_recency_upto(recent, linked, n - 1);
        let y = recent[n - 1];
        if linked.contains(y) && !p.contains(y) {
            let q = p.push(y);
            let j = choose|j: int| 0 <= j < q.len() && q[j] == x;
            if j < p.len() {
                assert(p[j] == x);
                lemma_by_recency_from(recent, linked, n - 1, x);
            }
        } else {
            lemma_by_recency_from(recent, linked, n - 1, x);
        }
    }
}

proof fn lemma_unindexed_from(linked: Seq<Seq<u8>>, recent: Seq<Seq<u8>>, n: int, x: Seq<u8>)
    requires
        0 <= n <= linked.len(),
        unindexed_upto(linked, recent, n).contains(x),
    ensures
        linked.contains(x),
    decreases n,
{
    if n > 0 {
        let p = unindexed_upto(linked, recent, n - 1);
        if recent.contains(linked[n - 1]) {
            lemma_unindexed_from(linked, recent, n - 1, x);
        } else {
            let q = p.push(linked[n - 1]);
            let j = choose|j: int| 0 <= j < q.len() && q[j] == x;
            if j < p.len() {
                assert(p[j] == x);
                lemma_unindexed_from(linked, recent, n - 1, x);
            } else {
                assert(linked[n - 1] == x);
            }
        }
    }
}

/// Ordering by a time index adds nothing to the linked addresses.
pub proof fn lemma_order_within(linked: Seq<Seq<u8>>, recent: Seq<Seq<u8>>, x: Seq<u8>)
    requires
        order_by_recency(linked, recent).contains(x),
    ensures
        linked.contains(x),
{
    let a = by_recency_upto(recent, linked, recent.len() as int);
    let b = unindexed_upto(linked, recent, linked.len() as int);
    let o = a + b;
    let i = choose|i: int| 0 <= i < o.len() && o[i] == x;
    if i < a.len() {
        assert(a[i] == x);
        lemma_by_recency_from(recent, linked, recent.len() as int, x);
    } else {
        assert(b[i - a.len()] == x);
        lemma_unindexed_from(linked, recent, linked.len() as int, x);
    }
}

/// If no edge from `base` under `tag` other than one to `target` reaches a
/// placeholder of `key`, and no edge to `target` is left, reading `base`'s
/// index under `tag` does not list `key`.
proof fn lemma_read_index_lacks(s: StoreView, ty: Seq<u8>, base: Seq<u8>, tag: Seq<u8>, order: Seq<u8>, target: Seq<u8>, key: Seq<u8>)
    requires
        base.len() == ADDRESS_LEN,
        !has_edge(s.edges, identity_address(ty, base), target, tag),
        forall|t: Seq<u8>| #[trigger] has_edge(s.edges, identity_address(ty, base), t, tag) && t != target
            ==> resolve_spec(s, t) != Ok::<Seq<u8>, RecordError>(key),
    ensures
        read_index_spec(s, ty, base, tag, order) matches Ok(ks) ==> !ks.contains(key),
{
    let id = identity_address(ty, base);
    let linked = targets(s.edges, id, tag);
    let recent = crate::store::time_order(s.times, order);
    let t = order_by_recency(linked, recent);
    if read_index_spec(s, ty, base, tag, order) is Ok {
        let ks = read_index_spec(s, ty, base, tag, order)->Ok_0;
        lemma_resolve_all_ok(s, t, t.len() as int, ks);
        if ks.contains(key) {
            let i = choose|i: int| 0 <= i < ks.len() && ks[i] == key;
            assert(t.contains(t[i]));
            lemma_order_within(linked, recent, t[i]);
            lemma_targets(s.edges, id, tag, t[i]);
            assert(resolve_spec(s, t[i]) == Ok::<Seq<u8>, RecordError>(key));
            assert(t[i] != target);
            assert(false);
        }
    }
}

/// After `delete_index(A, tag, B)`, reading A's index under `tag` does not
/// list B, and reading B's index under the reciprocal tag does not list A,
/// unless the other side is still linked to the same key through an identity
/// of another type.
pub proof fn law_unindex_read_both_ways(
    s: StoreView, source_ty: Seq<u8>, source: Seq<u8>, dest_ty: Seq<u8>, dest: Seq<u8>,
    tag: Seq<u8>, reciprocal: Seq<u8>, order: Seq<u8>,
)
    requires
        endpoints_ok(source, dest),
        forall|t: Seq<u8>| #[trigger] has_edge(s.edges, identity_address(source_ty, source), t, tag)
            && t != identity_address(dest_ty, dest) ==> resolve_spec(s, t) != Ok::<Seq<u8>, RecordError>(dest),
        forall|t: Seq<u8>| #[trigger] has_edge(s.edges, identity_address(dest_ty, dest), t, reciprocal)
            && t != identity_address(source_ty, source) ==> resolve_spec(s, t) != Ok::<Seq<u8>, RecordError>(source),
    ensures
        read_index_spec(after_delete_index(s, source_ty, source, dest_ty, dest, tag, reciprocal), source_ty, source, tag, order)
            matches Ok(ks) ==> !ks.contains(dest),
        read_index_spec(after_delete_index(s, source_ty, source, dest_ty, dest, tag, reciprocal), dest_ty, dest, reciprocal, order)
            matches Ok(ks) ==> !ks.contains(source),
{
    let a = identity_address(source_ty, source);
    let b = identity_address(dest_ty, dest);
    let e1 = crate::store::edges_without(s.edges, a, b, tag);
    let s2 = after_delete_index(s, source_ty, source, dest_ty, dest, tag, reciprocal);
    assert forall|x0: Seq<u8>, x1: Seq<u8>, x2: Seq<u8>| #[trigger] has_edge(s2.edges, x0, x1, x2)
        ==> has_edge(s.edges, x0, x1, x2) && !(x0 == a && x1 == b && x2 == tag) && !(x0 == b && x1 == a && x2 == reciprocal) by {
        lemma_without(s.edges, a, b, tag, x0, x1, x2);
        lemma_without(e1, b, a, reciprocal, x0, x1, x2);
    }
    assert forall|t: Seq<u8>| #[trigger] has_edge(s2.edges, a, t, tag) && t != b
        implies resolve_spec(s2, t) != Ok::<Seq<u8>, RecordError>(dest) by {
        assert(has_edge(s.edges, a, t, tag));
    }
    assert forall|t: Seq<u8>| #[trigger] has_edge(s2.edges, b, t, reciprocal) && t != a
        implies resolve_spec(s2, t) != Ok::<Seq<u8>, RecordError>(source) by {
        assert(has_edge(s.edges, b, t, reciprocal));
    }
    lemma_read_index_lacks(s2, source_ty, source, tag, order, b, dest);
    lemma_read_index_lacks(s2, dest_ty, dest, reciprocal, order, a, source);
}

/// Unlinking reports no error exactly where every address can be unlinked.
proof fn lemma_remove_fold_all_ok(s: StoreView, k: SyncLink, ds: Seq<Seq<u8>>, n: int)
    requires
        0 <= n <= ds.len(),
    ensures
        all_ok(remove_fold(s, k, ds, n).1) <==> forall|i: int| 0 <= i < n ==> endpoints_ok(k.source, #[trigger] ds[i]),
    decreases n,
{
    if n > 0 {
        lemma_remove_fold_all_ok(s, k, ds, n - 1);
        let p = remove_fold(s, k, ds, n - 1).1;
        let q = remove_fold(s, k, ds, n).1;
        assert(forall|j: int| 0 <= j < p.len() ==> q[j] == p[j]);
        if all_ok(q) {
            assert(all_ok(p)) by {
                assert forall|j: int| 0 <= j < p.len() implies (#[trigger] p[j]) is Ok by {
                    assert(q[j] is Ok);
                }
            }
            if !endpoints_ok(k.source, ds[n - 1]) {
                assert(q[p.len() as int] is Err);
            }
        }
        if forall|i: int| 0 <= i < n ==> endpoints_ok(k.source, #[trigger] ds[i]) {
            assert(forall|i: int| 0 <= i < n - 1 ==> endpoints_ok(k.source, #[trigger] ds[i]));
            assert(endpoints_ok(k.source, ds[n - 1]));
        }
        if forall|i: int| 0 <= i < n - 1 ==> endpoints_ok(k.source, #[trigger] ds[i]) {
            if !all_ok(q) {
                assert(!endpoints_ok(k.source, ds[n - 1]) || !all_ok(p));
            }
        }
    }
}

/// A sync request whose outcomes were all successes succeeds in every
/// outcome when it is repeated.
pub proof fn law_sync_repeat_all_ok(
    s: StoreView, k: SyncLink, added: Seq<Seq<u8>>, removed: Seq<Seq<u8>>, time_index: Seq<u8>, at1: Option<i64>, at2: Option<i64>,
)
    requires
        all_ok(sync_spec(s, k, added, removed, time_index, at1).1),
        all_ok(sync_spec(s, k, added, removed, time_index, at1).2),
    ensures
        all_ok(sync_spec(sync_spec(s, k, added, removed, time_index, at1).0, k, added, removed, time_index, at2).1),
        all_ok(sync_spec(sync_spec(s, k, added, removed, time_index, at1).0, k, added, removed, time_index, at2).2),
{
    let s1 = sync_spec(s, k, added, removed, time_index, at1).0;
    law_sync_repeat(s, k, added, removed, time_index, at1, at2);
    let f1 = crate::sync::after_stamp(create_fold(sync_start(s, k), k, added, added.len() as int).0, k, time_index, at1);
    let f2 = crate::sync::after_stamp(create_fold(sync_start(s1, k), k, added, added.len() as int).0, k, time_index, at2);
    lemma_remove_fold_all_ok(f1, k, removed, removed.len() as int);
    lemma_remove_fold_all_ok(f2, k, removed, removed.len() as int);
}

} // verus!
