use vstd::prelude::*;

use crate::common::{OrderbookSequence, OrderbookSnapshot, OrderbookUpdate, SharedStr};
use crate::data_structures::indexed_store::IndexedStore;
use crate::data_structures::key_index::KeyIndex;
use crate::traits::OrderBook;

verus! {

/// What the book keeper asks its runner to send after an update.
#[derive(Debug)]
pub enum BookAction {
    /// Hand the summary of an updated book to the statistics engine.
    Forward(OrderbookSnapshot),
    /// Ask for the book of this key again.
    Resubscribe(SharedStr),
    /// Tell the statistics engine that this book ended.
    ForwardTerminal(SharedStr),
    /// Nothing to send.
    Nothing,
}

/// Keeps one book per key from snapshots and diffs. A book whose diffs show
/// a gap is marked corrupted, together with its slot, and takes no diffs
/// until a snapshot replaces it.
pub struct BookKeeper<O, S, D> {
    corrupted: KeyIndex<u32>,
    store: IndexedStore<O>,
    _phantom: core::marker::PhantomData<(S, D)>,
}

impl<O, S, D> BookKeeper<O, S, D> {
    /// The mark index and the store are well formed, from `new` on.
    #[verifier::type_invariant]
    closed spec fn wf(&self) -> bool {
        self.corrupted.wf() && self.store.wf()
    }
}

impl<O, S, D> BookKeeper<O, S, D> where O: OrderBook<S, D> {
    /// The books, by key and slot.
    pub closed spec fn store(&self) -> IndexedStore<O> {
        self.store
    }

    /// The keys of corrupted books, each with the slot it had when it was
    /// marked.
    pub closed spec fn corrupted(&self) -> Map<Seq<char>, u32> {
        self.corrupted@
    }


    /// A snapshot for `key` can be taken in: the slot recorded for a
    /// corrupted `key` still exists, and there is room for a new slot.
    pub open spec fn can_take_snapshot(&self, key: Seq<char>) -> bool {
        if self.corrupted().contains_key(key) {
            self.corrupted()[key] < self.store().slots().len()
        } else {
            self.store().slots().len() < u32::MAX
        }
    }

    /// What a snapshot for `key` does: it replaces the corrupted book of
    /// `key` in its recorded slot and clears the mark; otherwise it is
    /// stored as a new book.
    pub open spec fn snapshot_taken(before: Self, after: Self, key: Seq<char>, snapshot: S) -> bool {
        &&& after.corrupted() == before.corrupted().remove(key)
        &&& before.corrupted().contains_key(key) ==> {
            let idx = before.corrupted()[key] as int;
            &&& after.store().positions() == before.store().positions()
            &&& after.store().keys() == before.store().keys()
            &&& after.store().slots().len() == before.store().slots().len()
            &&& after.store().slots()[idx]@ == O::spec_from_snapshot(snapshot)
            &&& forall|j: int|
                0 <= j < before.store().slots().len() && j != idx ==> #[trigger] after.store().slots()[j]
                    == before.store().slots()[j]
        }
        &&& !before.corrupted().contains_key(key) ==> {
            &&& after.store().positions() == before.store().positions().insert(
                key,
                before.store().slots().len() as u32,
            )
            &&& after.store().keys() == before.store().keys().push(key)
            &&& after.store().slots().len() == before.store().slots().len() + 1
            &&& after.store().slots().last()@ == O::spec_from_snapshot(snapshot)
            &&& after.store().slots().drop_last() == before.store().slots()
            &&& before.store().tidy() && !before.store().positions().contains_key(key)
                ==> after.store().tidy()
        }
    }

    /// What a diff for `key` does, and what it asks to send: diffs for a
    /// corrupted book are dropped; a diff for a key without a book asks for
    /// it again; a diff that lines up is applied and the book's snapshot
    /// sent on; a gap marks the book corrupted and asks for it again; a
    /// stale diff is dropped.
    pub open spec fn diff_taken(before: Self, after: Self, key: SharedStr, diff: D, r: BookAction) -> bool {
        &&& after.store().positions() == before.store().positions()
        &&& after.store().keys() == before.store().keys()
        &&& after.store().slots().len() == before.store().slots().len()
        &&& before.corrupted().contains_key(key@) ==> r is Nothing && after.store()
            == before.store() && after.corrupted() == before.corrupted()
        &&& !before.corrupted().contains_key(key@) && !before.store().positions().contains_key(key@)
            ==> (r matches BookAction::Resubscribe(k) && k@ == key@) && after.store().slots()
            == before.store().slots() && after.corrupted() == before.corrupted()
        &&& !before.corrupted().contains_key(key@) && before.store().positions().contains_key(key@)
            ==> {
            let i = before.store().positions()[key@] as int;
            let book = before.store().slots()[i]@;
            match O::spec_sequence(book, diff) {
                OrderbookSequence::Valid => {
                    &&& after.store().slots()[i]@ == O::spec_update(book, diff)
                    &&& forall|j: int|
                        0 <= j < before.store().slots().len() && j != i ==> #[trigger] after.store().slots()[j]
                            == before.store().slots()[j]
                    &&& after.corrupted() == before.corrupted()
                    &&& r == BookAction::Forward(O::spec_snapshot(O::spec_update(book, diff), key))
                },
                OrderbookSequence::Gap => {
                    &&& after.store().slots() == before.store().slots()
                    &&& after.corrupted() == before.corrupted().insert(key@, i as u32)
                    &&& r matches BookAction::Resubscribe(k) && k@ == key@
                },
                OrderbookSequence::Stale => {
                    &&& after.store().slots() == before.store().slots()
                    &&& after.corrupted() == before.corrupted()
                    &&& r is Nothing
                },
            }
        }
    }

    /// What a terminal for `key` does, and what it asks to send: the book
    /// and its mark go, and the end of the book is sent on.
    pub open spec fn terminal_taken(before: Self, after: Self, key: Seq<char>, r: BookAction) -> bool {
        &&& after.corrupted() == before.corrupted().remove(key)
        &&& r matches BookAction::ForwardTerminal(k) && k@ == key
        &&& !before.store().positions().contains_key(key) ==> after.store().positions()
            == before.store().positions() && after.store().slots() == before.store().slots()
        &&& before.store().tidy() ==> after.store().tidy() && after.store().entries()
            == before.store().entries().remove(key)
    }

    /// After a gap the book waits for a snapshot: the gap asks for the book
    /// again, diffs that follow are dropped and change nothing, and the
    /// snapshot takes the book's slot again and clears the mark.
    pub proof fn lemma_gap_waits_for_snapshot(
        b0: Self,
        b1: Self,
        b2: Self,
        b3: Self,
        key: SharedStr,
        gap: D,
        r1: BookAction,
        later: D,
        r2: BookAction,
        snapshot: S,
    )
        requires
            b0.store().positions().contains_key(key@),
            !b0.corrupted().contains_key(key@),
            O::spec_sequence(
                b0.store().slots()[b0.store().positions()[key@] as int]@,
                gap,
            ) == OrderbookSequence::Gap,
            Self::diff_taken(b0, b1, key, gap, r1),
            Self::diff_taken(b1, b2, key, later, r2),
            Self::snapshot_taken(b2, b3, key@, snapshot),
        ensures
            r1 matches BookAction::Resubscribe(k) && k@ == key@,
            r2 is Nothing,
            b2.store() == b1.store(),
            !b3.corrupted().contains_key(key@),
            b3.corrupted() == b0.corrupted(),
            b3.store().positions() == b0.store().positions(),
            b3.store().slots()[b0.store().positions()[key@] as int]@ == O::spec_from_snapshot(
                snapshot,
            ),
    {
        assert(b3.corrupted() =~= b0.corrupted());
    }

    pub fn new() -> (r: Self)
        ensures
            r.store().tidy(),
            r.store().positions() == Map::<Seq<char>, u32>::empty(),
            r.store().slots() == Seq::<O>::empty(),
            r.corrupted() == Map::<Seq<char>, u32>::empty(),
    {
        Self {
            corrupted: KeyIndex::new(),
            store: IndexedStore::new(),
            _phantom: core::marker::PhantomData,
        }
    }

    /// Drops every book and every mark.
    pub fn reset_books(&mut self)
        ensures
            final(self).store().tidy(),
            final(self).store().positions() == Map::<Seq<char>, u32>::empty(),
            final(self).store().slots() == Seq::<O>::empty(),
            final(self).corrupted() == Map::<Seq<char>, u32>::empty(),
    {
        proof {
            use_type_invariant(&*self);
        }
        let mut store = IndexedStore::new();
        std::mem::swap(&mut store, &mut self.store);
        store.clear();
        self.store = store;
        let mut corrupted = KeyIndex::new();
        std::mem::swap(&mut corrupted, &mut self.corrupted);
        corrupted.clear();
        self.corrupted = corrupted;
    }

    /// Whether a snapshot for `key` can be taken in now.
    pub fn snapshot_fits(&self, key: &SharedStr) -> (r: bool)
        ensures
            r == self.can_take_snapshot(key@),
    {
        proof {
            use_type_invariant(self);
        }
        match self.corrupted.get(key) {
            Some(idx) => (idx as usize) < self.store.len(),
            None => self.store.len() < 4294967295,
        }
    }

    /// A snapshot replaces the corrupted book of `key` in its recorded slot
    /// and clears the mark; otherwise it is stored as a new book.
    pub fn handle_snapshot(&mut self, key: SharedStr, snapshot: S)
        requires
            old(self).can_take_snapshot(key@),
        ensures
            Self::snapshot_taken(*old(self), *final(self), key@, snapshot),
    {
        proof {
            use_type_invariant(&*self);
        }
        let mut corrupted = KeyIndex::new();
        std::mem::swap(&mut corrupted, &mut self.corrupted);
        let marked = corrupted.remove(&key);
        self.corrupted = corrupted;
        let mut store = IndexedStore::new();
        std::mem::swap(&mut store, &mut self.store);
        if let Some(idx) = marked {
            store.update_data_at(idx as usize, O::from_snapshot(snapshot));
            self.store = store;
            return ;
        }
        let ghost old_slots = store.slots();
        store.insert(key, O::from_snapshot(snapshot));
        assert(store.slots().drop_last() =~= old_slots);
        self.store = store;
    }

    /// Applies a diff to the book of `key` when it lines up; a gap marks
    /// the book corrupted and asks for it again, as does a diff for a key
    /// without a book. Diffs for corrupted books are dropped.
    pub fn handle_diff(&mut self, key: SharedStr, diff: D) -> (r: BookAction)
        ensures
            Self::diff_taken(*old(self), *final(self), key, diff, r),
    {
        proof {
            use_type_invariant(&*self);
        }
        if self.corrupted.get(&key).is_some() {
            // diffs for a corrupted book wait for a snapshot
            return BookAction::Nothing;
        }
        let mut store = IndexedStore::new();
        std::mem::swap(&mut store, &mut self.store);
        let ghost before = store;
        let action = match store.get_mut(&key) {
            Some(entry) => {
                let book = entry.data;
                match book.sequence(&diff) {
                    OrderbookSequence::Valid => {
                        book.update(diff);
                        let snapshot = book.snapshot(key.clone());
                        BookAction::Forward(snapshot)
                    },
                    OrderbookSequence::Gap => {
                        let mut corrupted = KeyIndex::new();
                        std::mem::swap(&mut corrupted, &mut self.corrupted);
                        corrupted.insert(key.clone(), entry.index);
                        self.corrupted = corrupted;
                        BookAction::Resubscribe(key)
                    },
                    OrderbookSequence::Stale => BookAction::Nothing,
                }
            },
            None => {
                // a diff ahead of its snapshot
                BookAction::Resubscribe(key)
            },
        };
        proof {
            if !(action is Forward) {
                assert(store.slots() =~= before.slots());
            }
        }
        self.store = store;
        action
    }

    /// Drops the book of `key` and its mark, and tells the statistics
    /// engine.
    pub fn handle_terminal(&mut self, key: SharedStr) -> (r: BookAction)
        ensures
            Self::terminal_taken(*old(self), *final(self), key@, r),
    {
        proof {
            use_type_invariant(&*self);
        }
        let mut store = IndexedStore::new();
        std::mem::swap(&mut store, &mut self.store);
        store.remove(&key);
        self.store = store;
        let mut corrupted = KeyIndex::new();
        std::mem::swap(&mut corrupted, &mut self.corrupted);
        corrupted.remove(&key);
        self.corrupted = corrupted;
        BookAction::ForwardTerminal(key)
    }

    /// One step of the book keeper: takes in one update and says what to
    /// send.
    pub fn handle(&mut self, update: OrderbookUpdate<S, D>) -> (r: BookAction)
        requires
            update matches OrderbookUpdate::Snapshot { key, .. } ==> old(self).can_take_snapshot(
                key@,
            ),
        ensures
            update matches OrderbookUpdate::Snapshot { key, data } ==> r is Nothing
                && Self::snapshot_taken(*old(self), *final(self), key@, data),
            update matches OrderbookUpdate::Diff { key, data } ==> Self::diff_taken(
                *old(self),
                *final(self),
                key,
                data,
                r,
            ),
            update matches OrderbookUpdate::Terminal(key) ==> Self::terminal_taken(
                *old(self),
                *final(self),
                key@,
                r,
            ),
    {
        match update {
            OrderbookUpdate::Snapshot { key, data } => {
                self.handle_snapshot(key, data);
                BookAction::Nothing
            },
            OrderbookUpdate::Diff { key, data } => self.handle_diff(key, data),
            OrderbookUpdate::Terminal(key) => self.handle_terminal(key),
        }
    }
}

} // verus!
