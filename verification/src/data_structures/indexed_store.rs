use vstd::prelude::*;

use crate::common::SharedStr;
use crate::data_structures::key_index::KeyIndex;

verus! {

/// A handle on one stored value: its slot and a mutable borrow of it.
pub struct Entry<'a, T> {
    pub index: u32,
    pub data: &'a mut T,
}

/// Values kept densely in slots, found again by key.
///
/// `positions` maps a key to its slot, `keys` gives the key recorded for
/// each slot and `slots` the values. Removal moves the last slot into the
/// freed one, so slots stay dense.
pub struct IndexedStore<V> {
    index: KeyIndex<u32>,
    reverse: Vec<SharedStr>,
    data: Vec<V>,
}

impl<V> IndexedStore<V> {
    /// The key-to-slot map.
    pub closed spec fn positions(&self) -> Map<Seq<char>, u32> {
        self.index@
    }

    /// The key recorded for each slot.
    pub closed spec fn keys(&self) -> Seq<Seq<char>> {
        self.reverse@.map_values(|k: SharedStr| k@)
    }

    /// The stored values, slot by slot.
    pub closed spec fn slots(&self) -> Seq<V> {
        self.data@
    }

    /// The value found for each key.
    pub open spec fn entries(&self) -> Map<Seq<char>, V> {
        Map::new(
            |k: Seq<char>| self.positions().contains_key(k),
            |k: Seq<char>| self.slots()[self.positions()[k] as int],
        )
    }

    /// Every slot is found by exactly the key recorded for it: no key was
    /// inserted twice without a removal in between.
    pub open spec fn tidy(&self) -> bool {
        forall|i: int|
            0 <= i < self.slots().len() ==> #[trigger] self.positions().contains_key(self.keys()[i])
                && self.positions()[self.keys()[i]] == i
    }

    /// The invariant that `new` establishes and every method keeps.
    pub closed spec fn wf(&self) -> bool {
        &&& self.index.wf()
        &&& self.reverse@.len() == self.data@.len()
        &&& self.data@.len() <= u32::MAX
        &&& forall|k: Seq<char>|
            #[trigger] self.index@.contains_key(k) ==> self.index@[k] < self.data@.len()
                && self.reverse@[self.index@[k] as int]@ == k
    }

    /// Each key's position is in range and names it back, so no two keys
    /// share a position.
    pub proof fn lemma_wf(&self)
        requires
            self.wf(),
        ensures
            self.keys().len() == self.slots().len(),
            self.slots().len() <= u32::MAX,
            forall|k: Seq<char>|
                #[trigger] self.positions().contains_key(k) ==> self.positions()[k]
                    < self.slots().len() && self.keys()[self.positions()[k] as int] == k,
            forall|k1: Seq<char>, k2: Seq<char>|
                #![trigger self.positions().contains_key(k1), self.positions().contains_key(k2)]
                self.positions().contains_key(k1) && self.positions().contains_key(k2)
                    && self.positions()[k1] == self.positions()[k2] ==> k1 == k2,
    {
    }

    pub fn new() -> (r: Self)
        ensures
            r.wf(),
            r.tidy(),
            r.positions() == Map::<Seq<char>, u32>::empty(),
            r.keys() == Seq::<Seq<char>>::empty(),
            r.slots() == Seq::<V>::empty(),
    {
        let r = IndexedStore { index: KeyIndex::new(), reverse: Vec::new(), data: Vec::new() };
        assert(r.keys() =~= Seq::<Seq<char>>::empty());
        r
    }

    pub fn with_capacity(capacity: usize) -> (r: Self)
        ensures
            r.wf(),
            r.tidy(),
            r.positions() == Map::<Seq<char>, u32>::empty(),
            r.keys() == Seq::<Seq<char>>::empty(),
            r.slots() == Seq::<V>::empty(),
    {
        let r = IndexedStore {
            index: KeyIndex::new(),
            reverse: Vec::with_capacity(capacity),
            data: Vec::with_capacity(capacity),
        };
        assert(r.keys() =~= Seq::<Seq<char>>::empty());
        r
    }

    pub fn clear(&mut self)
        ensures
            final(self).wf(),
            final(self).tidy(),
            final(self).positions() == Map::<Seq<char>, u32>::empty(),
            final(self).keys() == Seq::<Seq<char>>::empty(),
            final(self).slots() == Seq::<V>::empty(),
    {
        self.index.clear();
        self.reverse.clear();
        self.data.clear();
        assert(self.keys() =~= Seq::<Seq<char>>::empty());
    }

    /// Appends `value` in a new slot and points `key` at it. A slot that
    /// `key` pointed at before stays where it is.
    pub fn insert(&mut self, key: SharedStr, value: V)
        requires
            old(self).wf(),
            old(self).slots().len() < u32::MAX,
        ensures
            final(self).wf(),
            final(self).positions() == old(self).positions().insert(
                key@,
                old(self).slots().len() as u32,
            ),
            final(self).keys() == old(self).keys().push(key@),
            final(self).slots() == old(self).slots().push(value),
            final(self).entries() == old(self).entries().insert(key@, value),
            old(self).tidy() && !old(self).positions().contains_key(key@) ==> final(self).tidy(),
    {
        let ghost old_self = *self;
        let idx = self.data.len() as u32;
        self.index.insert(key.clone(), idx);
        self.reverse.push(key);
        self.data.push(value);
        proof {
            assert(self.keys() =~= old_self.keys().push(key@));
            assert(self.entries() =~= old_self.entries().insert(key@, value));
        }
    }

    /// The slot of `key` and a mutable borrow of its value.
    pub fn get_mut(&mut self, key: &SharedStr) -> (r: Option<Entry<'_, V>>)
        requires
            old(self).wf(),
        ensures
            final(self).wf(),
            final(self).positions() == old(self).positions(),
            final(self).keys() == old(self).keys(),
            match r {
                None => !old(self).positions().contains_key(key@) && final(self).slots()
                    == old(self).slots(),
                Some(e) => {
                    &&& old(self).positions().contains_key(key@)
                    &&& e.index == old(self).positions()[key@]
                    &&& e.index < old(self).slots().len()
                    &&& forall|k: Seq<char>|
                        #[trigger] old(self).positions().contains_key(k) && old(self).positions()[k]
                            == e.index ==> k == key@
                    &&& *e.data == old(self).slots()[e.index as int]
                    &&& final(self).slots() == old(self).slots().update(
                        e.index as int,
                        *final(e.data),
                    )
                },
            },
    {
        proof {
            self.lemma_wf();
        }
        match self.index.get(key) {
            Some(index) => Some(Entry { index, data: &mut self.data[index as usize] }),
            None => None,
        }
    }

    /// Replaces the value in slot `index`.
    pub fn update_data_at(&mut self, index: usize, new: V)
        requires
            old(self).wf(),
            index < old(self).slots().len(),
        ensures
            final(self).wf(),
            final(self).positions() == old(self).positions(),
            final(self).keys() == old(self).keys(),
            final(self).slots() == old(self).slots().update(index as int, new),
    {
        self.data.set(index, new);
    }

    /// Drops `key`: the last slot moves into the slot of `key`, and the key
    /// recorded for the last slot is pointed at its new slot.
    #[verifier::spinoff_prover]
    pub fn remove(&mut self, key: &SharedStr)
        requires
            old(self).wf(),
        ensures
            final(self).wf(),
            !old(self).positions().contains_key(key@) ==> final(self).positions() == old(
                self,
            ).positions() && final(self).keys() == old(self).keys() && final(self).slots()
                == old(self).slots(),
            old(self).positions().contains_key(key@) ==> {
                let r = old(self).positions()[key@] as int;
                let last = old(self).slots().len() - 1;
                &&& final(self).slots() == old(self).slots().update(
                    r,
                    old(self).slots()[last],
                ).drop_last()
                &&& final(self).keys() == old(self).keys().update(
                    r,
                    old(self).keys()[last],
                ).drop_last()
                &&& final(self).positions() == if r == last {
                    old(self).positions().remove(key@)
                } else {
                    old(self).positions().remove(key@).insert(old(self).keys()[last], r as u32)
                }
            },
            old(self).tidy() ==> final(self).tidy(),
            old(self).tidy() ==> final(self).entries() == old(self).entries().remove(key@),
    {
        let ghost old_self = *self;
        if let Some(removed) = self.index.remove(key) {
            let last = self.data.len() - 1;
            let removed = removed as usize;
            self.data.swap_remove(removed);
            self.reverse.swap_remove(removed);
            if removed != last {
                let moved = self.reverse[removed].clone();
                self.index.insert(moved, removed as u32);
            }
            proof {
                assert(self.keys() =~= old_self.keys().update(
                    removed as int,
                    old_self.keys()[last as int],
                ).drop_last());
                if old_self.tidy() {
                    old_self.lemma_wf();
                    self.lemma_wf();
                    let kl = old_self.keys()[last as int];
                    let n1 = self.slots().len();
                    assert(old_self.positions().contains_key(old_self.keys()[last as int]));
                    assert(old_self.positions()[kl] == last);
                    assert(self.tidy()) by {
                        assert forall|i: int| 0 <= i < self.slots().len() implies #[trigger]
                            self.positions().contains_key(self.keys()[i])
                            && self.positions()[self.keys()[i]] == i by {
                            assert(old_self.positions().contains_key(old_self.keys()[i]));
                            assert(old_self.positions()[old_self.keys()[i]] == i);
                        }
                    }
                    assert forall|k2: Seq<char>| #[trigger]
                        self.positions().contains_key(k2) implies self.slots()[
                        self.positions()[k2] as int] == old_self.slots()[old_self.positions()[
                        k2] as int] by {
                        assert(old_self.positions().contains_key(k2));
                        let p2 = old_self.positions()[k2] as int;
                        assert(old_self.keys()[p2] == k2);
                    }
                    assert(self.entries() =~= old_self.entries().remove(key@));
                    assert(self.tidy());
                }
            }
        } else {
            assert(self.positions() =~= old_self.positions());
            assert(self.entries() =~= old_self.entries().remove(key@));
            assert(old_self.tidy() ==> self.tidy());
        }
    }

    pub fn len(&self) -> (r: usize)
        ensures
            r == self.slots().len(),
    {
        self.data.len()
    }

    /// The stored values, slot by slot.
    pub fn iter_data(&self) -> (r: &[V])
        ensures
            r@ == self.slots(),
    {
        self.data.as_slice()
    }
}

} // verus!
