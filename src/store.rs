//! The content-addressed store: immutable entries keyed by their hash, a
//! separate table of mutable identity pointers, tagged edges between
//! addresses, and time-ordered index entries.
use vstd::prelude::*;
use crate::bytemap::ByteMap;
use crate::bytes::{blake2b_256_of, bytes_eq, content_address, copy_bytes, ADDRESS_LEN};
use crate::codec::{edge_key, encode_edge_key};

verus! {

pub struct EdgeView {
    pub source: Seq<u8>,
    pub target: Seq<u8>,
    pub tag: Seq<u8>,
    pub handle: Seq<u8>,
}

pub struct TimeView {
    pub index: Seq<u8>,
    pub address: Seq<u8>,
    pub at: i64,
}

/// What a store holds.
pub struct StoreView {
    /// content address -> content
    pub entries: Map<Seq<u8>, Seq<u8>>,
    /// identity -> content address it currently points at
    pub bases: Map<Seq<u8>, Seq<u8>>,
    pub edges: Seq<EdgeView>,
    /// sorted by timestamp, oldest first
    pub times: Seq<TimeView>,
}

pub struct Edge {
    pub source: Vec<u8>,
    pub target: Vec<u8>,
    pub tag: Vec<u8>,
    pub handle: Vec<u8>,
}

impl View for Edge {
    type V = EdgeView;

    open spec fn view(&self) -> EdgeView {
        EdgeView { source: self.source@, target: self.target@, tag: self.tag@, handle: self.handle@ }
    }
}

pub struct TimeEntry {
    pub index: Vec<u8>,
    pub address: Vec<u8>,
    pub at: i64,
}

impl View for TimeEntry {
    type V = TimeView;

    open spec fn view(&self) -> TimeView {
        TimeView { index: self.index@, address: self.address@, at: self.at }
    }
}

/// Handle of the edge `source -> target` under `tag`: derived from the three,
/// so that creating the same edge twice yields the same edge.
pub open spec fn edge_handle(source: Seq<u8>, target: Seq<u8>, tag: Seq<u8>) -> Seq<u8> {
    blake2b_256_of(edge_key(source, target, tag))
}

pub open spec fn new_edge(source: Seq<u8>, target: Seq<u8>, tag: Seq<u8>) -> EdgeView {
    EdgeView { source, target, tag, handle: edge_handle(source, target, tag) }
}

pub open spec fn edge_matches(e: EdgeView, source: Seq<u8>, target: Seq<u8>, tag: Seq<u8>) -> bool {
    e.source == source && e.target == target && e.tag == tag
}

pub open spec fn has_edge(edges: Seq<EdgeView>, source: Seq<u8>, target: Seq<u8>, tag: Seq<u8>) -> bool {
    exists|i: int| 0 <= i < edges.len() && #[trigger] edge_matches(edges[i], source, target, tag)
}

/// `edges` once the edge `source -> target` under `tag` is present.
pub open spec fn with_edge(edges: Seq<EdgeView>, source: Seq<u8>, target: Seq<u8>, tag: Seq<u8>) -> Seq<EdgeView> {
    if has_edge(edges, source, target, tag) {
        edges
    } else {
        edges.push(new_edge(source, target, tag))
    }
}

/// The first `n` edges, less those `source -> target` under `tag`.
pub open spec fn edges_without_upto(edges: Seq<EdgeView>, source: Seq<u8>, target: Seq<u8>, tag: Seq<u8>, n: int) -> Seq<EdgeView>
    decreases n,
{
    if n <= 0 {
        Seq::empty()
    } else {
        let p = edges_without_upto(edges, source, target, tag, n - 1);
        if edge_matches(edges[n - 1], source, target, tag) {
            p
        } else {
            p.push(edges[n - 1])
        }
    }
}

pub open spec fn edges_without(edges: Seq<EdgeView>, source: Seq<u8>, target: Seq<u8>, tag: Seq<u8>) -> Seq<EdgeView> {
    edges_without_upto(edges, source, target, tag, edges.len() as int)
}

/// Handles of the edges `source -> target` under `tag` among the first `n`.
pub open spec fn matching_handles_upto(edges: Seq<EdgeView>, source: Seq<u8>, target: Seq<u8>, tag: Seq<u8>, n: int) -> Seq<Seq<u8>>
    decreases n,
{
    if n <= 0 {
        Seq::empty()
    } else {
        let p = matching_handles_upto(edges, source, target, tag, n - 1);
        if edge_matches(edges[n - 1], source, target, tag) {
            p.push(edges[n - 1].handle)
        } else {
            p
        }
    }
}

pub open spec fn matching_handles(edges: Seq<EdgeView>, source: Seq<u8>, target: Seq<u8>, tag: Seq<u8>) -> Seq<Seq<u8>> {
    matching_handles_upto(edges, source, target, tag, edges.len() as int)
}

/// Targets of the edges from `source` under `tag` among the first `n`, in edge order.
pub open spec fn targets_upto(edges: Seq<EdgeView>, source: Seq<u8>, tag: Seq<u8>, n: int) -> Seq<Seq<u8>>
    decreases n,
{
    if n <= 0 {
        Seq::empty()
    } else {
        let p = targets_upto(edges, source, tag, n - 1);
        if edges[n - 1].source == source && edges[n - 1].tag == tag {
            p.push(edges[n - 1].target)
        } else {
            p
        }
    }
}

pub open spec fn targets(edges: Seq<EdgeView>, source: Seq<u8>, tag: Seq<u8>) -> Seq<Seq<u8>> {
    targets_upto(edges, source, tag, edges.len() as int)
}

pub open spec fn time_matches(e: TimeView, index: Seq<u8>, address: Seq<u8>, at: i64) -> bool {
    e.index == index && e.address == address && e.at == at
}

pub open spec fn has_time(times: Seq<TimeView>, index: Seq<u8>, address: Seq<u8>, at: i64) -> bool {
    exists|i: int| 0 <= i < times.len() && #[trigger] time_matches(times[i], index, address, at)
}

/// Where an entry stamped `at` goes among the first `i` time entries: after
/// every entry stamped no later than `at`.
pub open spec fn insert_pos_from(times: Seq<TimeView>, at: i64, i: int) -> int
    decreases i,
{
    if i <= 0 {
        0
    } else if times[i - 1].at > at {
        insert_pos_from(times, at, i - 1)
    } else {
        i
    }
}

/// `times` once `(index, address, at)` is recorded.
pub open spec fn with_time(times: Seq<TimeView>, index: Seq<u8>, address: Seq<u8>, at: i64) -> Seq<TimeView> {
    if has_time(times, index, address, at) {
        times
    } else {
        times.insert(
            insert_pos_from(times, at, times.len() as int),
            TimeView { index, address, at },
        )
    }
}

/// Addresses recorded under `index` at positions `i..`, latest position first.
pub open spec fn newest_from(times: Seq<TimeView>, index: Seq<u8>, i: int) -> Seq<Seq<u8>>
    decreases times.len() - i,
{
    if i >= times.len() || i < 0 {
        Seq::empty()
    } else {
        let rest = newest_from(times, index, i + 1);
        if times[i].index == index {
            rest.push(times[i].address)
        } else {
            rest
        }
    }
}

/// Addresses recorded under `index`, newest first.
pub open spec fn time_order(times: Seq<TimeView>, index: Seq<u8>) -> Seq<Seq<u8>> {
    newest_from(times, index, 0)
}

pub open spec fn store_invariant(v: StoreView) -> bool {
    &&& forall|a: Seq<u8>| #[trigger] v.entries.contains_key(a) ==> a == blake2b_256_of(v.entries[a])
    &&& forall|i: int|
        0 <= i < v.edges.len() ==> (#[trigger] v.edges[i]).handle == edge_handle(
            v.edges[i].source,
            v.edges[i].target,
            v.edges[i].tag,
        )
    &&& forall|i: int, j: int| 0 <= i < j < v.times.len() ==> v.times[i].at <= v.times[j].at
    &&& edges_unique(v.edges)
}

/// No two edges share source, target and tag.
pub open spec fn edges_unique(edges: Seq<EdgeView>) -> bool {
    forall|i: int, j: int|
        0 <= i < j < edges.len() ==> !edge_matches(edges[i], edges[j].source, edges[j].target, edges[j].tag)
}

pub struct Store {
    entries: ByteMap,
    bases: ByteMap,
    edges: Vec<Edge>,
    times: Vec<TimeEntry>,
}

impl View for Store {
    type V = StoreView;

    closed spec fn view(&self) -> StoreView {
        StoreView {
            entries: self.entries@,
            bases: self.bases@,
            edges: self.edges@.map_values(|e: Edge| e@),
            times: self.times@.map_values(|t: TimeEntry| t@),
        }
    }
}

impl Store {
    pub closed spec fn wf(&self) -> bool {
        &&& self.entries.wf()
        &&& self.bases.wf()
        &&& store_invariant(self@)
    }

    pub fn new() -> (r: Store)
        ensures
            r.wf(),
            r@.entries == Map::<Seq<u8>, Seq<u8>>::empty(),
            r@.bases == Map::<Seq<u8>, Seq<u8>>::empty(),
            r@.edges == Seq::<EdgeView>::empty(),
            r@.times == Seq::<TimeView>::empty(),
    {
        let r = Store { entries: ByteMap::new(), bases: ByteMap::new(), edges: Vec::new(), times: Vec::new() };
        assert(r@.edges =~= Seq::<EdgeView>::empty());
        assert(r@.times =~= Seq::<TimeView>::empty());
        r
    }

    /// Fetches the content stored at `address`.
    pub fn get(&self, address: &[u8]) -> (r: Option<Vec<u8>>)
        requires
            self.wf(),
        ensures
            r matches Some(c) ==> self@.entries.contains_key(address@) && self@.entries[address@] == c@,
            r is None ==> !self@.entries.contains_key(address@),
    {
        self.entries.get(address)
    }

    /// Stores `content` under its content address and returns that address.
    pub fn commit(&mut self, content: &[u8]) -> (r: Vec<u8>)
        requires
            old(self).wf(),
        ensures
            final(self).wf(),
            r@ == blake2b_256_of(content@),
            final(self)@ == (StoreView { entries: old(self)@.entries.insert(r@, content@), ..old(self)@ }),
    {
        let address = content_address(content);
        self.entries.insert(address.as_slice(), content);
        assert(self@ =~= (StoreView { entries: old(self)@.entries.insert(address@, content@), ..old(self)@ }));
        address
    }

    /// Removes the entry at `address`, if any.
    pub fn remove(&mut self, address: &[u8])
        requires
            old(self).wf(),
        ensures
            final(self).wf(),
            final(self)@ == (StoreView { entries: old(self)@.entries.remove(address@), ..old(self)@ }),
    {
        self.entries.remove(address);
        assert(self@ =~= (StoreView { entries: old(self)@.entries.remove(address@), ..old(self)@ }));
    }

    /// The content address that identity `base` points at.
    pub fn get_base(&self, base: &[u8]) -> (r: Option<Vec<u8>>)
        requires
            self.wf(),
        ensures
            r matches Some(t) ==> self@.bases.contains_key(base@) && self@.bases[base@] == t@,
            r is None ==> !self@.bases.contains_key(base@),
    {
        self.bases.get(base)
    }

    /// Points identity `base` at `target`.
    pub fn set_base(&mut self, base: &[u8], target: &[u8])
        requires
            old(self).wf(),
        ensures
            final(self).wf(),
            final(self)@ == (StoreView { bases: old(self)@.bases.insert(base@, target@), ..old(self)@ }),
    {
        self.bases.insert(base, target);
        assert(self@ =~= (StoreView { bases: old(self)@.bases.insert(base@, target@), ..old(self)@ }));
    }

    /// Removes identity `base`, if present.
    pub fn remove_base(&mut self, base: &[u8])
        requires
            old(self).wf(),
        ensures
            final(self).wf(),
            final(self)@ == (StoreView { bases: old(self)@.bases.remove(base@), ..old(self)@ }),
    {
        self.bases.remove(base);
        assert(self@ =~= (StoreView { bases: old(self)@.bases.remove(base@), ..old(self)@ }));
    }
    /// Creates the edge `source -> target` under `tag` unless it is present;
    /// returns its handle either way.
    pub fn create_edge(&mut self, source: &[u8], target: &[u8], tag: &[u8]) -> (r: Vec<u8>)
        requires
            old(self).wf(),
        ensures
            final(self).wf(),
            r@ == edge_handle(source@, target@, tag@),
            final(self)@ == (StoreView { edges: with_edge(old(self)@.edges, source@, target@, tag@), ..old(self)@ }),
    {
        let ghost ev = self@.edges;
        let key = encode_edge_key(source, target, tag);
        let handle = content_address(key.as_slice());
        assert(handle@ == edge_handle(source@, target@, tag@));
        let mut i: usize = 0;
        while i < self.edges.len()
            invariant
                self.wf(),
                handle@ == edge_handle(source@, target@, tag@),
                self@.edges == ev,
                ev.len() == self.edges@.len(),
                0 <= i <= ev.len(),
                forall|j: int| 0 <= j < i ==> !edge_matches(#[trigger] ev[j], source@, target@, tag@),
            decreases ev.len() - i,
        {
            let e = &self.edges[i];
            assert(ev[i as int] == e@);
            if bytes_eq(e.source.as_slice(), source) && bytes_eq(e.target.as_slice(), target)
                && bytes_eq(e.tag.as_slice(), tag) {
                assert(edge_matches(ev[i as int], source@, target@, tag@));
                assert(self@ =~= (StoreView { edges: with_edge(ev, source@, target@, tag@), ..self@ }));
                return handle;
            }
            i = i + 1;
        }
        assert(!has_edge(ev, source@, target@, tag@));
        let edge = Edge { source: copy_bytes(source), target: copy_bytes(target), tag: copy_bytes(tag), handle: copy_bytes(handle.as_slice()) };
        self.edges.push(edge);
        assert(self@.edges =~= ev.push(new_edge(source@, target@, tag@)));
        assert(self@ =~= (StoreView { edges: with_edge(old(self)@.edges, source@, target@, tag@), ..old(self)@ }));
        handle
    }

    /// Removes every edge `source -> target` under `tag`; returns their handles.
    pub fn delete_edges(&mut self, source: &[u8], target: &[u8], tag: &[u8]) -> (r: Vec<Vec<u8>>)
        requires
            old(self).wf(),
        ensures
            final(self).wf(),
            r@.map_values(|h: Vec<u8>| h@) == matching_handles(old(self)@.edges, source@, target@, tag@),
            final(self)@ == (StoreView { edges: edges_without(old(self)@.edges, source@, target@, tag@), ..old(self)@ }),
    {
        let ghost ev = self@.edges;
        let mut kept: Vec<Edge> = Vec::new();
        let mut removed: Vec<Vec<u8>> = Vec::new();
        let mut old_edges: Vec<Edge> = Vec::new();
        std::mem::swap(&mut old_edges, &mut self.edges);
        assert(old_edges@.map_values(|e: Edge| e@) == ev);
        let mut i: usize = 0;
        while i < old_edges.len()
            invariant
                ev == old_edges@.map_values(|e: Edge| e@),
                0 <= i <= ev.len(),
                kept@.map_values(|e: Edge| e@) == edges_without_upto(ev, source@, target@, tag@, i as int),
                removed@.map_values(|h: Vec<u8>| h@) == matching_handles_upto(ev, source@, target@, tag@, i as int),
                forall|j: int| 0 <= j < kept@.len() ==> #[trigger] kept@[j]@.handle == edge_handle(kept@[j]@.source, kept@[j]@.target, kept@[j]@.tag),
                forall|j: int| 0 <= j < ev.len() ==> (#[trigger] ev[j]).handle == edge_handle(ev[j].source, ev[j].target, ev[j].tag),
                edges_unique(ev),
                edges_unique(kept@.map_values(|e: Edge| e@)),
                forall|m: int| 0 <= m < kept@.len() ==> exists|j: int| 0 <= j < i && #[trigger] kept@[m]@ == ev[j],
            decreases ev.len() - i,
        {
            let e = &old_edges[i];
            assert(ev[i as int] == e@);
            if bytes_eq(e.source.as_slice(), source) && bytes_eq(e.target.as_slice(), target)
                && bytes_eq(e.tag.as_slice(), tag) {
                let ghost before = removed@;
                removed.push(copy_bytes(e.handle.as_slice()));
                assert(removed@.map_values(|h: Vec<u8>| h@) =~= before.map_values(|h: Vec<u8>| h@).push(ev[i as int].handle));
            } else {
                let ghost before = kept@;
                kept.push(Edge { source: copy_bytes(e.source.as_slice()), target: copy_bytes(e.target.as_slice()),
                    tag: copy_bytes(e.tag.as_slice()), handle: copy_bytes(e.handle.as_slice()) });
                assert(kept@.map_values(|e: Edge| e@) =~= before.map_values(|e: Edge| e@).push(ev[i as int]));
                let ghost kv = kept@.map_values(|e: Edge| e@);
                assert forall|a: int, b: int| 0 <= a < b < kv.len() implies !edge_matches(kv[a], kv[b].source, kv[b].target, kv[b].tag) by {
                    if b == kv.len() - 1 {
                        assert(kept@[a] == before[a]);
                        let j = choose|j: int| 0 <= j < i && #[trigger] before[a]@ == ev[j];
                        assert(!edge_matches(ev[j], ev[i as int].source, ev[i as int].target, ev[i as int].tag));
                    } else {
                        assert(kv[a] == before.map_values(|e: Edge| e@)[a]);
                        assert(kv[b] == before.map_values(|e: Edge| e@)[b]);
                    }
                }
                assert forall|m: int| 0 <= m < kept@.len() implies exists|j: int| 0 <= j < i + 1 && #[trigger] kept@[m]@ == ev[j] by {
                    if m < before.len() {
                        assert(kept@[m] == before[m]);
                        let j = choose|j: int| 0 <= j < i && #[trigger] before[m]@ == ev[j];
                        assert(kept@[m]@ == ev[j]);
                    } else {
                        assert(kept@[m]@ == ev[i as int]);
                    }
                }
            }
            i = i + 1;
        }
        self.edges = kept;
        assert(self@ =~= (StoreView { edges: edges_without(ev, source@, target@, tag@), ..old(self)@ }));
        removed
    }

    /// Targets of the edges from `source` under `tag`, in the order the edges were made.
    pub fn linked(&self, source: &[u8], tag: &[u8]) -> (r: Vec<Vec<u8>>)
        requires
            self.wf(),
        ensures
            r@.map_values(|t: Vec<u8>| t@) == targets(self@.edges, source@, tag@),
    {
        let ghost ev = self@.edges;
        let mut out: Vec<Vec<u8>> = Vec::new();
        let mut i: usize = 0;
        while i < self.edges.len()
            invariant
                ev == self@.edges,
                ev.len() == self.edges@.len(),
                0 <= i <= ev.len(),
                out@.map_values(|t: Vec<u8>| t@) == targets_upto(ev, source@, tag@, i as int),
            decreases ev.len() - i,
        {
            let e = &self.edges[i];
            assert(ev[i as int] == e@);
            if bytes_eq(e.source.as_slice(), source) && bytes_eq(e.tag.as_slice(), tag) {
                let ghost before = out@;
                out.push(copy_bytes(e.target.as_slice()));
                assert(out@.map_values(|t: Vec<u8>| t@) =~= before.map_values(|t: Vec<u8>| t@).push(ev[i as int].target));
            }
            i = i + 1;
        }
        out
    }

    /// Records `address` under time index `index` at time `at`, unless that
    /// exact record is present.
    pub fn append_time(&mut self, index: &[u8], address: &[u8], at: i64)
        requires
            old(self).wf(),
        ensures
            final(self).wf(),
            final(self)@ == (StoreView { times: with_time(old(self)@.times, index@, address@, at), ..old(self)@ }),
    {
        let ghost tv = self@.times;
        let mut i: usize = 0;
        while i < self.times.len()
            invariant
                self.wf(),
                self@.times == tv,
                tv.len() == self.times@.len(),
                0 <= i <= tv.len(),
                forall|j: int| 0 <= j < i ==> !time_matches(#[trigger] tv[j], index@, address@, at),
            decreases tv.len() - i,
        {
            let e = &self.times[i];
            assert(tv[i as int] == e@);
            if e.at == at && bytes_eq(e.index.as_slice(), index) && bytes_eq(e.address.as_slice(), address) {
                assert(time_matches(tv[i as int], index@, address@, at));
                assert(self@ =~= (StoreView { times: with_time(tv, index@, address@, at), ..self@ }));
                return;
            }
            i = i + 1;
        }
        assert(!has_time(tv, index@, address@, at));
        let mut pos: usize = self.times.len();
        while pos > 0 && self.times[pos - 1].at > at
            invariant
                self.wf(),
                self@.times == tv,
                tv.len() == self.times@.len(),
                0 <= pos <= tv.len(),
                insert_pos_from(tv, at, pos as int) == insert_pos_from(tv, at, tv.len() as int),
                forall|j: int| pos <= j < tv.len() ==> (#[trigger] tv[j]).at > at,
            decreases pos,
        {
            assert(tv[pos - 1] == self.times@[pos - 1]@);
            pos = pos - 1;
        }
        if pos > 0 {
            assert(tv[pos - 1] == self.times@[pos - 1]@);
        }
        let ghost nt = TimeView { index: index@, address: address@, at };
        assert(forall|j: int| 0 <= j < pos ==> (#[trigger] tv[j]).at <= at) by {
            assert forall|j: int| 0 <= j < pos implies (#[trigger] tv[j]).at <= at by {
                if j < pos - 1 {
                    assert(tv[j].at <= tv[pos - 1].at);
                }
            }
        }
        self.times.insert(pos, TimeEntry { index: copy_bytes(index), address: copy_bytes(address), at });
        assert(self@.times =~= tv.insert(pos as int, nt));
        assert(self@ =~= (StoreView { times: with_time(tv, index@, address@, at), ..old(self)@ }));
    }

    /// Addresses recorded under time index `index`, newest first.
    pub fn time_order(&self, index: &[u8]) -> (r: Vec<Vec<u8>>)
        requires
            self.wf(),
        ensures
            r@.map_values(|a: Vec<u8>| a@) == time_order(self@.times, index@),
    {
        let ghost tv = self@.times;
        let mut out: Vec<Vec<u8>> = Vec::new();
        let mut i: usize = self.times.len();
        while i > 0
            invariant
                tv == self@.times,
                tv.len() == self.times@.len(),
                0 <= i <= tv.len(),
                out@.map_values(|a: Vec<u8>| a@) == newest_from(tv, index@, i as int),
            decreases i,
        {
            let e = &self.times[i - 1];
            assert(tv[i - 1] == e@);
            if bytes_eq(e.index.as_slice(), index) {
                let ghost before = out@;
                out.push(copy_bytes(e.address.as_slice()));
                assert(out@.map_values(|a: Vec<u8>| a@) =~= before.map_values(|a: Vec<u8>| a@).push(tv[i - 1].address));
            }
            i = i - 1;
        }
        out
    }
}

} // verus!
