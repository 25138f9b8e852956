use vstd::prelude::*;

use vstd::set_lib::{lemma_int_range, lemma_len_subset, lemma_map_size_bound, set_int_range};

use crate::common::SharedStr;

verus! {

/// An association list from string keys to small integer positions.
///
/// Each key occurs at most once; `view` is the map from the key's characters
/// to the position stored for it. Lookups compare keys with `==` on `String`.
pub struct KeyIndex<I> {
    entries: Vec<(SharedStr, I)>,
    map: Ghost<Map<Seq<char>, I>>,
}

impl<I: Copy> View for KeyIndex<I> {
    type V = Map<Seq<char>, I>;

    closed spec fn view(&self) -> Map<Seq<char>, I> {
        self.map@
    }
}

impl<I: Copy> KeyIndex<I> {
    /// Keys are unique, and the ghost map lists exactly the stored pairs.
    pub closed spec fn wf(&self) -> bool {
        &&& forall|i: int, j: int|
            0 <= i < j < self.entries@.len() ==> #[trigger] self.entries@[i].0@
                != #[trigger] self.entries@[j].0@
        &&& forall|i: int|
            0 <= i < self.entries@.len() ==> #[trigger] self.map@.contains_key(
                self.entries@[i].0@,
            ) && self.map@[self.entries@[i].0@] == self.entries@[i].1
        &&& forall|k: Seq<char>|
            #[trigger] self.map@.contains_key(k) ==> exists|i: int|
                0 <= i < self.entries@.len() && #[trigger] self.entries@[i].0@ == k
    }

    /// An index holds finitely many keys, no more than it has entries.
    pub proof fn lemma_finite(&self)
        requires
            self.wf(),
        ensures
            self@.dom().finite(),
    {
        let n = self.entries@.len() as int;
        let f = |i: int| self.entries@[i].0@;
        lemma_int_range(0, n);
        lemma_map_size_bound(set_int_range(0, n), set_int_range(0, n).map(f), f);
        assert forall|k: Seq<char>| #[trigger] self@.dom().contains(k) implies set_int_range(
            0,
            n,
        ).map(f).contains(k) by {
            let i = choose|i: int| 0 <= i < self.entries@.len() && #[trigger] self.entries@[i].0@ == k;
            assert(set_int_range(0, n).contains(i));
        }
        lemma_len_subset(self@.dom(), set_int_range(0, n).map(f));
    }

    pub fn new() -> (r: Self)
        ensures
            r.wf(),
            r@ == Map::<Seq<char>, I>::empty(),
    {
        KeyIndex { entries: Vec::new(), map: Ghost(Map::empty()) }
    }

    /// Position in `entries` of the pair whose key equals `key`.
    fn position(&self, key: &SharedStr) -> (r: Option<usize>)
        requires
            self.wf(),
        ensures
            match r {
                Some(p) => p < self.entries@.len() && self.entries@[p as int].0@ == key@,
                None => !self@.contains_key(key@),
            },
    {
        let n = self.entries.len();
        let mut p: usize = 0;
        while p < n
            invariant
                self.wf(),
                n == self.entries@.len(),
                p <= n,
                forall|q: int| 0 <= q < p ==> #[trigger] self.entries@[q].0@ != key@,
            decreases n - p,
        {
            if self.entries[p].0 == *key {
                return Some(p);
            }
            p = p + 1;
        }
        proof {
            if self@.contains_key(key@) {
                let q = choose|q: int|
                    0 <= q < self.entries@.len() && #[trigger] self.entries@[q].0@ == key@;
                assert(self.entries@[q].0@ != key@);
            }
        }
        None
    }

    /// The position stored for `key`, if any.
    pub fn get(&self, key: &SharedStr) -> (r: Option<I>)
        requires
            self.wf(),
        ensures
            r == (if self@.contains_key(key@) {
                Some(self@[key@])
            } else {
                None
            }),
    {
        match self.position(key) {
            Some(p) => Some(self.entries[p].1),
            None => None,
        }
    }

    /// Maps `key` to `value`, replacing a previous mapping of the same key.
    pub fn insert(&mut self, key: SharedStr, value: I)
        requires
            old(self).wf(),
        ensures
            final(self).wf(),
            final(self)@ == old(self)@.insert(key@, value),
    {
        let ghost k = key@;
        let ghost old_entries = self.entries@;
        let ghost old_map = self.map@;
        let pos = self.position(&key);
        match pos {
            Some(p) => {
                self.entries.set(p, (key, value));
            },
            None => {
                self.entries.push((key, value));
            },
        }
        self.map = Ghost(self.map@.insert(k, value));
        proof {
            let n = self.entries@.len();
            match pos {
                Some(p) => {
                    assert(forall|i: int|
                        0 <= i < n && i != p ==> #[trigger] self.entries@[i] == old_entries[i]);
                    assert forall|k2: Seq<char>| #[trigger]
                        self.map@.contains_key(k2) implies exists|i: int|
                        0 <= i < n && #[trigger] self.entries@[i].0@ == k2 by {
                        if k2 == k {
                            assert(self.entries@[p as int].0@ == k2);
                        } else {
                            let i = choose|i: int|
                                0 <= i < old_entries.len() && #[trigger] old_entries[i].0@ == k2;
                            assert(self.entries@[i].0@ == k2);
                        }
                    }
                },
                None => {
                    assert(forall|i: int| 0 <= i < old_entries.len() ==> #[trigger]
                        self.entries@[i] == old_entries[i]);
                    assert(forall|i: int| 0 <= i < old_entries.len() ==> #[trigger]
                        old_entries[i].0@ != k) by {
                        assert(forall|i: int|
                            0 <= i < old_entries.len() ==> #[trigger] old_map.contains_key(
                                old_entries[i].0@,
                            ));
                    }
                    assert forall|k2: Seq<char>| #[trigger]
                        self.map@.contains_key(k2) implies exists|i: int|
                        0 <= i < n && #[trigger] self.entries@[i].0@ == k2 by {
                        if k2 == k {
                            assert(self.entries@[n - 1].0@ == k2);
                        } else {
                            let i = choose|i: int|
                                0 <= i < old_entries.len() && #[trigger] old_entries[i].0@ == k2;
                            assert(self.entries@[i].0@ == k2);
                        }
                    }
                },
            }
        }
    }

    /// Drops the mapping of `key`, if there is one.
    #[verifier::spinoff_prover]
    #[verifier::rlimit(40)]
    pub fn remove(&mut self, key: &SharedStr) -> (r: Option<I>)
        requires
            old(self).wf(),
        ensures
            final(self).wf(),
            final(self)@ == old(self)@.remove(key@),
            r == (if old(self)@.contains_key(key@) {
                Some(old(self)@[key@])
            } else {
                None
            }),
            r is None ==> *final(self) == *old(self),
    {
        let ghost old_entries = self.entries@;
        match self.position(key) {
            Some(p) => {
                let (_, v) = self.entries.swap_remove(p);
                self.map = Ghost(self.map@.remove(key@));
                proof {
                    let n = self.entries@.len();
                    let last = old_entries.len() - 1;
                    assert forall|i: int| 0 <= i < n implies #[trigger] self.entries@[i] == (
                    if i == p {
                        old_entries[last]
                    } else {
                        old_entries[i]
                    }) by {}
                    assert forall|i: int| 0 <= i < n implies #[trigger]
                        self.entries@[i].0@ != key@ by {
                        if i == p {
                            assert(old_entries[last].0@ != old_entries[p as int].0@);
                        } else {
                            assert(old_entries[i].0@ != old_entries[p as int].0@);
                        }
                    }
                    assert forall|k2: Seq<char>| #[trigger]
                        self.map@.contains_key(k2) implies exists|i: int|
                        0 <= i < n && #[trigger] self.entries@[i].0@ == k2 by {
                        let i = choose|i: int|
                            0 <= i < old_entries.len() && #[trigger] old_entries[i].0@ == k2;
                        if i == last {
                            assert(self.entries@[p as int].0@ == k2);
                        } else {
                            assert(self.entries@[i].0@ == k2);
                        }
                    }
                    assert forall|i: int, j: int| 0 <= i < j < n implies #[trigger]
                        self.entries@[i].0@ != #[trigger] self.entries@[j].0@ by {
                        let oi = if i == p { last } else { i };
                        let oj = if j == p { last } else { j };
                        assert(self.entries@[i] == old_entries[oi]);
                        assert(self.entries@[j] == old_entries[oj]);
                        if oi < oj {
                            assert(old_entries[oi].0@ != old_entries[oj].0@);
                        } else {
                            assert(old_entries[oj].0@ != old_entries[oi].0@);
                        }
                    }
                    assert forall|i: int| 0 <= i < n implies #[trigger] self.map@.contains_key(
                        self.entries@[i].0@,
                    ) && self.map@[self.entries@[i].0@] == self.entries@[i].1 by {
                        let oi = if i == p {
                            last
                        } else {
                            i
                        };
                        assert(self.entries@[i] == old_entries[oi]);
                        assert(self.entries@[i].0@ != key@);
                        assert(old(self).map@.contains_key(old(self).entries@[oi].0@));
                    }
                    assert(self.wf());
                }
                Some(v)
            },
            None => {
                assert(self.map@.remove(key@) =~= self.map@);
                None
            },
        }
    }

    /// Drops every mapping.
    pub fn clear(&mut self)
        ensures
            final(self).wf(),
            final(self)@ == Map::<Seq<char>, I>::empty(),
    {
        self.entries.clear();
        self.map = Ghost(Map::empty());
    }
}

} // verus!
