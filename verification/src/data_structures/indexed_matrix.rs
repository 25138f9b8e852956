use vstd::prelude::*;

use vstd::set_lib::{lemma_int_range, lemma_len_subset, lemma_map_size_bound, set_int_range};

use crate::common::SharedStr;
use crate::data_structures::key_index::KeyIndex;

verus! {

/// Rows of values, one row per key. Rows freed by `remove` are reused by
/// later keys; a row number is a `u8`, so at most 255 rows are ever made.
pub struct IndexedMatrix<V> {
    index: KeyIndex<u8>,
    matrix: Vec<Vec<V>>,
    row_index: u8,
    free: Vec<u8>,
}

impl<V> IndexedMatrix<V> {
    /// The row held for each key.
    pub closed spec fn rows(&self) -> Map<Seq<char>, Seq<V>> {
        Map::new(
            |k: Seq<char>| self.index@.contains_key(k),
            |k: Seq<char>| self.matrix@[self.index@[k] as int]@,
        )
    }

    /// A new key can be given a row: a freed row waits for reuse, or fewer
    /// than 255 rows were made so far.
    pub closed spec fn has_room(&self) -> bool {
        self.free@.len() > 0 || self.row_index < 255
    }

    /// The row given to `key`.
    pub closed spec fn row_of(&self, key: Seq<char>) -> u8 {
        self.index@[key]
    }

    /// Row `r` waits for reuse or is held by a key.
    spec fn covered(&self, r: int) -> bool {
        ||| exists|i: int| 0 <= i < self.free@.len() && self.free@[i] == r
        ||| exists|k: Seq<char>| self.index@.contains_key(k) && self.index@[k] == r
    }

    /// The invariant that `new` establishes and every method keeps.
    pub closed spec fn wf(&self) -> bool {
        &&& self.index.wf()
        &&& forall|r: int| 0 <= r < self.row_index ==> #[trigger] self.covered(r)
        &&& self.matrix@.len() == self.row_index
        &&& forall|i: int|
            0 <= i < self.free@.len() ==> #[trigger] self.free@[i] < self.row_index
                && self.matrix@[self.free@[i] as int]@.len() == 0
        &&& forall|i: int, j: int|
            0 <= i < j < self.free@.len() ==> #[trigger] self.free@[i] != #[trigger] self.free@[j]
        &&& forall|k: Seq<char>|
            #[trigger] self.index@.contains_key(k) ==> self.index@[k] < self.row_index
        &&& forall|k: Seq<char>, i: int|
            #![trigger self.index@.contains_key(k), self.free@[i]]
            self.index@.contains_key(k) && 0 <= i < self.free@.len() ==> self.free@[i]
                != self.index@[k]
        &&& forall|k1: Seq<char>, k2: Seq<char>|
            #![trigger self.index@.contains_key(k1), self.index@.contains_key(k2)]
            self.index@.contains_key(k1) && self.index@.contains_key(k2) && k1 != k2
                ==> self.index@[k1] != self.index@[k2]
    }

    pub fn new(rows: usize) -> (r: Self)
        ensures
            r.wf(),
            r.has_room(),
            r.rows() == Map::<Seq<char>, Seq<V>>::empty(),
    {
        let r = Self {
            index: KeyIndex::new(),
            matrix: Vec::with_capacity(rows),
            row_index: 0,
            free: Vec::new(),
        };
        assert(r.rows() =~= Map::<Seq<char>, Seq<V>>::empty());
        r
    }

    /// No two keys share a row.
    pub proof fn lemma_rows_distinct(&self, k1: Seq<char>, k2: Seq<char>)
        requires
            self.wf(),
            self.rows().contains_key(k1),
            self.rows().contains_key(k2),
            k1 != k2,
        ensures
            self.row_of(k1) != self.row_of(k2),
    {
    }

    /// Fewer than 255 keys leave room for another.
    pub proof fn lemma_room(&self)
        requires
            self.wf(),
            self.rows().dom().len() < 255,
        ensures
            self.has_room(),
    {
        self.index.lemma_finite();
        assert(self.rows().dom() =~= self.index@.dom());
        if !self.has_room() {
            let f = |k: Seq<char>| self.index@[k] as int;
            let img = self.index@.dom().map(f);
            lemma_map_size_bound(self.index@.dom(), img, f);
            assert forall|r: int| #[trigger] set_int_range(0, 255).contains(r) implies img.contains(r) by {
                assert(self.covered(r));
                let k = choose|k: Seq<char>| self.index@.contains_key(k) && self.index@[k] == r;
                assert(f(k) == r);
            }
            lemma_int_range(0, 255);
            lemma_len_subset(set_int_range(0, 255), img);
        }
    }

    /// Whether a key without a row can still be given one.
    pub fn has_room_for_new_key(&self) -> (r: bool)
        ensures
            r == self.has_room(),
    {
        self.free.len() > 0 || self.row_index < 255
    }

    /// A freed row if one waits, else the next fresh row.
    fn claim_row_index(&mut self) -> (r: u8)
        requires
            old(self).wf(),
            old(self).has_room(),
        ensures
            old(self).free@.len() > 0 ==> r == old(self).free@.last() && final(self).free@
                == old(self).free@.drop_last() && final(self).row_index == old(self).row_index,
            old(self).free@.len() == 0 ==> r == old(self).row_index && final(self).row_index
                == old(self).row_index + 1 && final(self).free@ == old(self).free@,
            final(self).index == old(self).index,
            final(self).matrix == old(self).matrix,
    {
        if let Some(idx) = self.free.pop() {
            idx
        } else {
            let idx = self.row_index;
            self.row_index += 1;
            idx
        }
    }

    fn insert(&mut self, key: SharedStr, value: V) -> (r: u8)
        requires
            old(self).wf(),
            old(self).has_room(),
            !old(self).rows().contains_key(key@),
        ensures
            final(self).wf(),
            final(self).rows() == old(self).rows().insert(key@, seq![value]),
    {
        let ghost old_self = *self;
        let row_index = self.claim_row_index();
        let ghost k = key@;
        self.index.insert(key, row_index);
        if row_index as usize >= self.matrix.len() {
            self.matrix.push(vec![value]);
        } else {
            self.matrix.set(row_index as usize, vec![value]);
        }
        proof {
            assert(self.matrix@[row_index as int]@ == seq![value]);
            assert forall|k2: Seq<char>| #[trigger]
                old_self.index@.contains_key(k2) implies old_self.index@[k2] != row_index by {
                if old_self.free@.len() > 0 {
                    assert(old_self.free@[old_self.free@.len() - 1] == row_index);
                }
            }
            assert forall|i: int| 0 <= i < self.free@.len() implies #[trigger] self.free@[i]
                != row_index by {
                if old_self.free@.len() > 0 {
                    let last = old_self.free@.len() - 1;
                    assert(old_self.free@[i] != old_self.free@[last]);
                }
            }
            assert forall|r: int| 0 <= r < self.row_index implies #[trigger] self.covered(r) by {
                if r == row_index as int {
                    assert(self.index@.contains_key(k) && self.index@[k] == r);
                } else {
                    assert(old_self.covered(r));
                    if exists|i: int| 0 <= i < old_self.free@.len() && old_self.free@[i] == r {
                        let i = choose|i: int| 0 <= i < old_self.free@.len() && old_self.free@[i] == r;
                        if old_self.free@.len() > 0 {
                            assert(i != old_self.free@.len() - 1);
                        }
                        assert(self.free@[i] == r);
                    } else {
                        let k2 = choose|k2: Seq<char>|
                            old_self.index@.contains_key(k2) && old_self.index@[k2] == r;
                        assert(self.index@.contains_key(k2) && self.index@[k2] == r);
                    }
                }
            }
            assert(self.rows() =~= old_self.rows().insert(k, seq![value]));
        }
        row_index
    }

    /// Appends `value` to the row of `key`, giving `key` a row first if it
    /// has none.
    pub fn push(&mut self, key: &SharedStr, value: V)
        requires
            old(self).wf(),
            old(self).rows().contains_key(key@) || old(self).has_room(),
        ensures
            final(self).wf(),
            final(self).rows() == old(self).rows().insert(
                key@,
                if old(self).rows().contains_key(key@) {
                    old(self).rows()[key@].push(value)
                } else {
                    seq![value]
                },
            ),
    {
        let ghost old_self = *self;
        let Some(row_index) = self.index.get(key) else {
            self.insert(key.clone(), value);
            return ;
        };
        self.matrix[row_index as usize].push(value);
        proof {
            assert forall|i: int| 0 <= i < self.free@.len() implies #[trigger] self.free@[i]
                != row_index by {}
            assert(self.free == old_self.free && self.index == old_self.index);
            assert forall|r: int| 0 <= r < self.row_index implies #[trigger] self.covered(r) by {
                assert(old_self.covered(r));
                if exists|i: int| 0 <= i < old_self.free@.len() && old_self.free@[i] == r {
                    let i = choose|i: int| 0 <= i < old_self.free@.len() && old_self.free@[i] == r;
                    assert(self.free@[i] == r);
                } else {
                    let k2 = choose|k2: Seq<char>|
                        old_self.index@.contains_key(k2) && old_self.index@[k2] == r;
                    assert(self.index@.contains_key(k2) && self.index@[k2] == r);
                }
            }
            assert(self.rows() =~= old_self.rows().insert(
                key@,
                old_self.rows()[key@].push(value),
            ));
        }
    }

    /// Drops the row of `key`; the emptied row is kept for reuse.
    pub fn remove(&mut self, key: &SharedStr)
        requires
            old(self).wf(),
        ensures
            final(self).wf(),
            final(self).rows() == old(self).rows().remove(key@),
            old(self).has_room() ==> final(self).has_room(),
            old(self).rows().contains_key(key@) ==> final(self).has_room(),
    {
        let ghost old_self = *self;
        let Some(row_index) = self.index.remove(key) else {
            assert(self.rows() =~= old_self.rows().remove(key@));
            return ;
        };
        self.matrix[row_index as usize].clear();
        self.free.push(row_index);
        proof {
            assert forall|i: int, j: int| 0 <= i < j < self.free@.len() implies #[trigger]
                self.free@[i] != #[trigger] self.free@[j] by {
                if j == self.free@.len() - 1 {
                    assert(old_self.index@.contains_key(key@));
                    assert(old_self.free@[i] != old_self.index@[key@]);
                }
            }
            assert forall|r: int| 0 <= r < self.row_index implies #[trigger] self.covered(r) by {
                assert(old_self.covered(r));
                if exists|i: int| 0 <= i < old_self.free@.len() && old_self.free@[i] == r {
                    let i = choose|i: int| 0 <= i < old_self.free@.len() && old_self.free@[i] == r;
                    assert(self.free@[i] == r);
                } else {
                    let k2 = choose|k2: Seq<char>|
                        old_self.index@.contains_key(k2) && old_self.index@[k2] == r;
                    if k2 == key@ {
                        assert(self.free@[self.free@.len() - 1] == r);
                    } else {
                        assert(self.index@.contains_key(k2) && self.index@[k2] == r);
                    }
                }
            }
            assert(self.rows() =~= old_self.rows().remove(key@));
        }
    }

    /// The row of `key`, if it has one.
    pub fn get(&self, key: &SharedStr) -> (r: Option<&Vec<V>>)
        requires
            self.wf(),
        ensures
            r is Some <==> self.rows().contains_key(key@),
            r is Some ==> r->0@ == self.rows()[key@],
    {
        let row_index = self.index.get(key)?;
        Some(&self.matrix[row_index as usize])
    }
}

/// A call that changes a matrix: `push` of a value onto a key's row, or
/// `remove` of a key.
pub enum MatrixCall<V> {
    Push(Seq<char>, V),
    Remove(Seq<char>),
}

/// The rows after one call, as `push` and `remove` state it.
pub open spec fn rows_after<V>(rows: Map<Seq<char>, Seq<V>>, call: MatrixCall<V>) -> Map<
    Seq<char>,
    Seq<V>,
> {
    match call {
        MatrixCall::Push(k, v) => rows.insert(
            k,
            if rows.contains_key(k) {
                rows[k].push(v)
            } else {
                seq![v]
            },
        ),
        MatrixCall::Remove(k) => rows.remove(k),
    }
}

/// `key` was pushed and not removed since.
pub open spec fn held_after<V>(calls: Seq<MatrixCall<V>>, key: Seq<char>) -> bool
    decreases calls.len(),
{
    if calls.len() == 0 {
        false
    } else {
        match calls.last() {
            MatrixCall::Push(k, _) if k == key => true,
            MatrixCall::Remove(k) if k == key => false,
            _ => held_after(calls.drop_last(), key),
        }
    }
}

/// The values pushed for `key` since it was last removed, in push order.
pub open spec fn pushed_since_removal<V>(calls: Seq<MatrixCall<V>>, key: Seq<char>) -> Seq<V>
    decreases calls.len(),
{
    if calls.len() == 0 {
        seq![]
    } else {
        match calls.last() {
            MatrixCall::Push(k, v) if k == key => pushed_since_removal(calls.drop_last(), key).push(
                v,
            ),
            MatrixCall::Remove(k) if k == key => seq![],
            _ => pushed_since_removal(calls.drop_last(), key),
        }
    }
}

/// What a matrix holds after a run of calls: `ms[0]` is new and empty, and
/// `ms[i + 1]` is `ms[i]` after `calls[i]`. Then a key has a row exactly
/// when it was pushed and not removed since, and the row lists the values
/// pushed for it since its last removal, in push order.
pub proof fn lemma_history<V>(ms: Seq<IndexedMatrix<V>>, calls: Seq<MatrixCall<V>>, key: Seq<char>)
    requires
        ms.len() == calls.len() + 1,
        ms[0].rows() == Map::<Seq<char>, Seq<V>>::empty(),
        forall|i: int|
            0 <= i < calls.len() ==> #[trigger] ms[i + 1].rows() == rows_after(
                ms[i].rows(),
                calls[i],
            ),
    ensures
        ms.last().rows().contains_key(key) <==> held_after(calls, key),
        held_after(calls, key) ==> ms.last().rows()[key] == pushed_since_removal(calls, key),
        !held_after(calls, key) ==> pushed_since_removal(calls, key) == Seq::<V>::empty(),
    decreases calls.len(),
{
    if calls.len() > 0 {
        let n = calls.len() - 1;
        let ms0 = ms.drop_last();
        let c0 = calls.drop_last();
        assert forall|i: int| 0 <= i < c0.len() implies #[trigger] ms0[i + 1].rows() == rows_after(
            ms0[i].rows(),
            c0[i],
        ) by {
            assert(ms[i + 1].rows() == rows_after(ms[i].rows(), calls[i]));
        }
        lemma_history(ms0, c0, key);
        assert(ms[n + 1].rows() == rows_after(ms[n].rows(), calls[n]));
        assert(ms0.last() == ms[n]);
        assert(calls.last() == calls[n]);
        if let MatrixCall::Push(k, v) = calls[n] {
            assert(Seq::<V>::empty().push(v) =~= seq![v]);
        }
    }
}

} // verus!
