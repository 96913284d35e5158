//! What the edge operations do to the set of edges present.
use vstd::prelude::*;
use crate::store::{edge_matches, edges_without, edges_without_upto, has_edge, new_edge, targets, targets_upto, with_edge, EdgeView};

verus! {

pub proof fn lemma_has_edge_push(p: Seq<EdgeView>, y: EdgeView, x0: Seq<u8>, x1: Seq<u8>, x2: Seq<u8>)
    ensures
        has_edge(p.push(y), x0, x1, x2) <==> has_edge(p, x0, x1, x2) || edge_matches(y, x0, x1, x2),
{
    let q = p.push(y);
    if has_edge(p, x0, x1, x2) {
        let i = choose|i: int| 0 <= i < p.len() && #[trigger] edge_matches(p[i], x0, x1, x2);
        assert(q[i] == p[i]);
        assert(edge_matches(q[i], x0, x1, x2));
    }
    if edge_matches(y, x0, x1, x2) {
        assert(q[p.len() as int] == y);
        assert(edge_matches(q[p.len() as int], x0, x1, x2));
    }
    if has_edge(q, x0, x1, x2) {
        let i = choose|i: int| 0 <= i < q.len() && #[trigger] edge_matches(q[i], x0, x1, x2);
        if i < p.len() {
            assert(q[i] == p[i]);
            assert(edge_matches(p[i], x0, x1, x2));
        }
    }
}

/// After `with_edge`, exactly the old edges and the new one are present.
pub proof fn lemma_with_edge(e: Seq<EdgeView>, s: Seq<u8>, t: Seq<u8>, g: Seq<u8>, x0: Seq<u8>, x1: Seq<u8>, x2: Seq<u8>)
    ensures
        has_edge(with_edge(e, s, t, g), x0, x1, x2) <==> has_edge(e, x0, x1, x2) || (x0 == s && x1 == t && x2 == g),
{
    lemma_has_edge_push(e, new_edge(s, t, g), x0, x1, x2);
    if has_edge(e, s, t, g) && x0 == s && x1 == t && x2 == g {
        assert(has_edge(e, x0, x1, x2));
    }
}

proof fn lemma_without_upto(e: Seq<EdgeView>, s: Seq<u8>, t: Seq<u8>, g: Seq<u8>, n: int, x0: Seq<u8>, x1: Seq<u8>, x2: Seq<u8>)
    requires
        0 <= n <= e.len(),
    ensures
        has_edge(edges_without_upto(e, s, t, g, n), x0, x1, x2) <==> (exists|i: int|
            0 <= i < n && #[trigger] edge_matches(e[i], x0, x1, x2)) && !(x0 == s && x1 == t && x2 == g),
    decreases n,
{
    if n > 0 {
        lemma_without_upto(e, s, t, g, n - 1, x0, x1, x2);
        let p = edges_without_upto(e, s, t, g, n - 1);
        if !edge_matches(e[n - 1], s, t, g) {
            lemma_has_edge_push(p, e[n - 1], x0, x1, x2);
        }
        if exists|i: int| 0 <= i < n && #[trigger] edge_matches(e[i], x0, x1, x2) {
            let i = choose|i: int| 0 <= i < n && #[trigger] edge_matches(e[i], x0, x1, x2);
            if i < n - 1 {
                assert(exists|j: int| 0 <= j < n - 1 && #[trigger] edge_matches(e[j], x0, x1, x2));
            }
        }
    } else {
        assert(edges_without_upto(e, s, t, g, n).len() == 0);
    }
}

/// After `edges_without`, exactly the old edges less the removed one are present.
pub proof fn lemma_without(e: Seq<EdgeView>, s: Seq<u8>, t: Seq<u8>, g: Seq<u8>, x0: Seq<u8>, x1: Seq<u8>, x2: Seq<u8>)
    ensures
        has_edge(edges_without(e, s, t, g), x0, x1, x2) <==> has_edge(e, x0, x1, x2) && !(x0 == s && x1 == t && x2 == g),
{
    lemma_without_upto(e, s, t, g, e.len() as int, x0, x1, x2);
}

proof fn lemma_targets_upto(e: Seq<EdgeView>, s: Seq<u8>, g: Seq<u8>, n: int, t: Seq<u8>)
    requires
        0 <= n <= e.len(),
    ensures
        targets_upto(e, s, g, n).contains(t) <==> exists|i: int| 0 <= i < n && #[trigger] edge_matches(e[i], s, t, g),
    decreases n,
{
    if n > 0 {
        lemma_targets_upto(e, s, g, n - 1, t);
        let p = targets_upto(e, s, g, n - 1);
        if e[n - 1].source == s && e[n - 1].tag == g {
            let q = p.push(e[n - 1].target);
            if q.contains(t) {
                let j = choose|j: int| 0 <= j < q.len() && q[j] == t;
                if j < p.len() {
                    assert(p[j] == t);
                } else {
                    assert(edge_matches(e[n - 1], s, t, g));
                }
            }
            if p.contains(t) {
                let j = choose|j: int| 0 <= j < p.len() && p[j] == t;
                assert(q[j] == t);
            }
            if edge_matches(e[n - 1], s, t, g) {
                assert(q[p.len() as int] == t);
            }
        }
        if exists|i: int| 0 <= i < n && #[trigger] edge_matches(e[i], s, t, g) {
            let i = choose|i: int| 0 <= i < n && #[trigger] edge_matches(e[i], s, t, g);
            if i < n - 1 {
                assert(exists|j: int| 0 <= j < n - 1 && #[trigger] edge_matches(e[j], s, t, g));
            }
        }
    }
}

/// `targets(e, s, g)` holds `t` exactly when the edge s -> t under g is present.
pub proof fn lemma_targets(e: Seq<EdgeView>, s: Seq<u8>, g: Seq<u8>, t: Seq<u8>)
    ensures
        targets(e, s, g).contains(t) <==> has_edge(e, s, t, g),
{
    lemma_targets_upto(e, s, g, e.len() as int, t);
}

} // verus!
