//! A map from byte strings to byte strings, held as two parallel vectors.
use vstd::prelude::*;
use crate::bytes::{bytes_eq, copy_bytes};

verus! {

pub struct ByteMap {
    keys: Vec<Vec<u8>>,
    vals: Vec<Vec<u8>>,
    model: Ghost<Map<Seq<u8>, Seq<u8>>>,
}

impl View for ByteMap {
    type V = Map<Seq<u8>, Seq<u8>>;

    closed spec fn view(&self) -> Map<Seq<u8>, Seq<u8>> {
        self.model@
    }
}

impl ByteMap {
    pub closed spec fn wf(&self) -> bool {
        &&& self.keys@.len() == self.vals@.len()
        &&& forall|i: int|
            0 <= i < self.keys@.len() ==> #[trigger] self.model@.contains_key(self.keys@[i]@)
                && self.model@[self.keys@[i]@] == self.vals@[i]@
        &&& forall|k: Seq<u8>|
            #[trigger] self.model@.contains_key(k) ==> exists|i: int|
                0 <= i < self.keys@.len() && self.keys@[i]@ == k
        &&& forall|i: int, j: int|
            0 <= i < j < self.keys@.len() ==> self.keys@[i]@ != self.keys@[j]@
    }

    pub fn new() -> (r: ByteMap)
        ensures
            r.wf(),
            r@ == Map::<Seq<u8>, Seq<u8>>::empty(),
    {
        ByteMap { keys: Vec::new(), vals: Vec::new(), model: Ghost(Map::empty()) }
    }

    fn find(&self, k: &[u8]) -> (r: Option<usize>)
        requires
            self.wf(),
        ensures
            r matches Some(i) ==> i < self.keys@.len() && self.keys@[i as int]@ == k@,
            r is None ==> !self@.contains_key(k@),
    {
        let mut i: usize = 0;
        while i < self.keys.len()
            invariant
                self.wf(),
                0 <= i <= self.keys@.len(),
                forall|j: int| 0 <= j < i ==> self.keys@[j]@ != k@,
            decreases self.keys@.len() - i,
        {
            if bytes_eq(self.keys[i].as_slice(), k) {
                return Some(i);
            }
            i = i + 1;
        }
        None
    }

    pub fn get(&self, k: &[u8]) -> (r: Option<Vec<u8>>)
        requires
            self.wf(),
        ensures
            r matches Some(v) ==> self@.contains_key(k@) && self@[k@] == v@,
            r is None ==> !self@.contains_key(k@),
    {
        match self.find(k) {
            Some(i) => {
                assert(self.model@.contains_key(self.keys@[i as int]@));
                Some(copy_bytes(self.vals[i].as_slice()))
            },
            None => None,
        }
    }

    pub fn insert(&mut self, k: &[u8], v: &[u8])
        requires
            old(self).wf(),
        ensures
            final(self).wf(),
            final(self)@ == old(self)@.insert(k@, v@),
    {
        let ghost m = self.model@.insert(k@, v@);
        match self.find(k) {
            Some(i) => {
                self.vals.set(i, copy_bytes(v));
                self.model = Ghost(m);
                assert forall|j: int| 0 <= j < self.keys@.len() implies #[trigger] self.model@.contains_key(self.keys@[j]@)
                    && self.model@[self.keys@[j]@] == self.vals@[j]@ by {
                    if j != i {
                        assert(old(self).model@.contains_key(old(self).keys@[j]@));
                        assert(self.keys@[j]@ != k@);
                    }
                }
                assert forall|kk: Seq<u8>| #[trigger] self.model@.contains_key(kk) implies exists|j: int|
                    0 <= j < self.keys@.len() && self.keys@[j]@ == kk by {
                    if kk != k@ {
                        assert(old(self).model@.contains_key(kk));
                    }
                }
            },
            None => {
                self.keys.push(copy_bytes(k));
                self.vals.push(copy_bytes(v));
                self.model = Ghost(m);
                let ghost n = self.keys@.len() - 1;
                assert forall|kk: Seq<u8>| #[trigger] self.model@.contains_key(kk) implies exists|j: int|
                    0 <= j < self.keys@.len() && self.keys@[j]@ == kk by {
                    if kk != k@ {
                        assert(old(self).model@.contains_key(kk));
                        let j = choose|j: int| 0 <= j < old(self).keys@.len() && old(self).keys@[j]@ == kk;
                        assert(self.keys@[j]@ == kk);
                    } else {
                        assert(self.keys@[n]@ == kk);
                    }
                }
                assert forall|i: int| 0 <= i < self.keys@.len() implies #[trigger] self.model@.contains_key(self.keys@[i]@)
                    && self.model@[self.keys@[i]@] == self.vals@[i]@ by {
                    if i < n {
                        assert(old(self).model@.contains_key(old(self).keys@[i]@));
                    }
                }
            },
        }
    }

    pub fn remove(&mut self, k: &[u8])
        requires
            old(self).wf(),
        ensures
            final(self).wf(),
            final(self)@ == old(self)@.remove(k@),
    {
        match self.find(k) {
            Some(i) => {
                let ghost ok = self.keys@;
                let ghost ov = self.vals@;
                self.keys.remove(i);
                self.vals.remove(i);
                self.model = Ghost(self.model@.remove(k@));
                assert forall|j: int| 0 <= j < self.keys@.len() implies #[trigger] self.model@.contains_key(self.keys@[j]@)
                    && self.model@[self.keys@[j]@] == self.vals@[j]@ by {
                    if j < i {
                        assert(self.keys@[j] == ok[j] && self.vals@[j] == ov[j]);
                        assert(ok[j]@ != ok[i as int]@);
                        assert(old(self).model@.contains_key(ok[j]@));
                    } else {
                        assert(self.keys@[j] == ok[j + 1] && self.vals@[j] == ov[j + 1]);
                        assert(ok[j + 1]@ != ok[i as int]@);
                        assert(old(self).model@.contains_key(ok[j + 1]@));
                    }
                }
                assert forall|kk: Seq<u8>| #[trigger] self.model@.contains_key(kk) implies exists|j: int|
                    0 <= j < self.keys@.len() && self.keys@[j]@ == kk by {
                    assert(old(self).model@.contains_key(kk));
                    let j = choose|j: int| 0 <= j < ok.len() && ok[j]@ == kk;
                    if j < i {
                        assert(self.keys@[j]@ == kk);
                    } else {
                        assert(j != i);
                        assert(self.keys@[j - 1]@ == kk);
                    }
                }
            },
            None => {
                assert(self.model@.remove(k@) =~= self.model@);
            },
        }
    }
}

} // verus!
