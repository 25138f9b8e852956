use std::collections::BTreeMap;

use vstd::prelude::*;

use crate::common::{OrderbookSequence, OrderbookSnapshot, SharedStr};
use crate::gemini::messages::{L2DifferentialDepth, PriceLevel};
use crate::traits::OrderBook;

verus! {

/// A book of one prediction market: quantity by price on each side, and
/// the id of the last update taken in.
#[derive(Debug)]
pub struct GeminiOrderbook {
    pub bids: BTreeMap<u8, i32>,
    pub asks: BTreeMap<u8, i32>,
    pub last_update_id: u64,
}

/// The contents of a book.
pub struct BookModel {
    pub bids: Map<u8, i32>,
    pub asks: Map<u8, i32>,
    pub last_update_id: u64,
}

impl View for GeminiOrderbook {
    type V = BookModel;

    open spec fn view(&self) -> BookModel {
        BookModel { bids: self.bids@, asks: self.asks@, last_update_id: self.last_update_id }
    }
}

/// One level applied to a side: quantity 0 clears the price, any other
/// quantity sets it.
pub open spec fn apply_level(side: Map<u8, i32>, level: PriceLevel) -> Map<u8, i32> {
    if level.qty == 0 {
        side.remove(level.price)
    } else {
        side.insert(level.price, level.qty)
    }
}

/// The levels applied to a side in order.
pub open spec fn apply_levels(side: Map<u8, i32>, levels: Seq<PriceLevel>) -> Map<u8, i32>
    decreases levels.len(),
{
    if levels.len() == 0 {
        side
    } else {
        apply_level(apply_levels(side, levels.drop_last()), levels.last())
    }
}

/// The side that lists `levels`; a price listed twice keeps its last
/// quantity, a quantity of 0 included.
pub open spec fn collect_levels(levels: Seq<PriceLevel>) -> Map<u8, i32>
    decreases levels.len(),
{
    if levels.len() == 0 {
        Map::empty()
    } else {
        collect_levels(levels.drop_last()).insert(levels.last().price, levels.last().qty)
    }
}

/// The highest price on a side.
pub open spec fn highest_price(side: Map<u8, i32>) -> Option<u8> {
    if exists|p: u8| side.contains_key(p) {
        Some(choose|p: u8| side.contains_key(p) && forall|q: u8| side.contains_key(q) ==> q <= p)
    } else {
        None
    }
}

/// The lowest price on a side.
pub open spec fn lowest_price(side: Map<u8, i32>) -> Option<u8> {
    if exists|p: u8| side.contains_key(p) {
        Some(choose|p: u8| side.contains_key(p) && forall|q: u8| side.contains_key(q) ==> p <= q)
    } else {
        None
    }
}

/// The best bid plus the best ask, when both sides hold a price.
pub open spec fn unscaled_mid(book: BookModel) -> Option<u16> {
    match (highest_price(book.bids), lowest_price(book.asks)) {
        (Some(b), Some(a)) => Some((b + a) as u16),
        _ => None,
    }
}

/// How a diff lines up with a book whose last update is `last`: no newer
/// than the book, stale; reaching back to the book's next update, valid;
/// starting later, a gap.
pub open spec fn sequence_of(last: u64, update: L2DifferentialDepth) -> OrderbookSequence {
    if update.last_update_id <= last {
        OrderbookSequence::Stale
    } else if update.first_update_id <= last + 1 {
        OrderbookSequence::Valid
    } else {
        OrderbookSequence::Gap
    }
}

/// The side that lists `levels`.
fn collect_side(levels: &Vec<PriceLevel>) -> (r: BTreeMap<u8, i32>)
    ensures
        r@ == collect_levels(levels@),
{
    let mut side = BTreeMap::new();
    let n = levels.len();
    let mut i: usize = 0;
    while i < n
        invariant
            n == levels@.len(),
            i <= n,
            side@ == collect_levels(levels@.take(i as int)),
        decreases n - i,
    {
        let level = levels[i];
        side.insert(level.price, level.qty);
        assert(levels@.take(i + 1).drop_last() =~= levels@.take(i as int));
        i = i + 1;
    }
    assert(levels@.take(n as int) =~= levels@);
    side
}

/// Applies `levels` to `side` in order.
fn apply_side(side: &mut BTreeMap<u8, i32>, levels: &Vec<PriceLevel>)
    ensures
        final(side)@ == apply_levels(old(side)@, levels@),
{
    let ghost start = side@;
    let n = levels.len();
    let mut i: usize = 0;
    while i < n
        invariant
            n == levels@.len(),
            i <= n,
            side@ == apply_levels(start, levels@.take(i as int)),
        decreases n - i,
    {
        let level = levels[i];
        if level.qty == 0 {
            side.remove(&level.price);
        } else {
            side.insert(level.price, level.qty);
        }
        assert(levels@.take(i + 1).drop_last() =~= levels@.take(i as int));
        i = i + 1;
    }
    assert(levels@.take(n as int) =~= levels@);
}

/// The highest price on `side`.
fn best_bid(side: &BTreeMap<u8, i32>) -> (r: Option<u8>)
    ensures
        r == highest_price(side@),
{
    let mut p: u16 = 256;
    while p > 0
        invariant
            p <= 256,
            forall|q: u8| q >= p ==> !#[trigger] side@.contains_key(q),
        decreases p,
    {
        p = p - 1;
        let price = p as u8;
        if side.contains_key(&price) {
            assert(forall|q: u8| side@.contains_key(q) ==> q <= price);
            return Some(price);
        }
    }
    None
}

/// The lowest price on `side`.
fn best_ask(side: &BTreeMap<u8, i32>) -> (r: Option<u8>)
    ensures
        r == lowest_price(side@),
{
    let mut p: u16 = 0;
    while p < 256
        invariant
            p <= 256,
            forall|q: u8| q < p ==> !#[trigger] side@.contains_key(q),
        decreases 256 - p,
    {
        let price = p as u8;
        if side.contains_key(&price) {
            assert(forall|q: u8| side@.contains_key(q) ==> price <= q);
            return Some(price);
        }
        p = p + 1;
    }
    None
}

impl OrderBook<L2DifferentialDepth, L2DifferentialDepth> for GeminiOrderbook {
    open spec fn spec_from_snapshot(snapshot: L2DifferentialDepth) -> BookModel {
        BookModel {
            bids: collect_levels(snapshot.bids@),
            asks: collect_levels(snapshot.asks@),
            last_update_id: snapshot.last_update_id,
        }
    }

    open spec fn spec_update(book: BookModel, update: L2DifferentialDepth) -> BookModel {
        BookModel {
            bids: apply_levels(book.bids, update.bids@),
            asks: apply_levels(book.asks, update.asks@),
            last_update_id: update.last_update_id,
        }
    }

    open spec fn spec_sequence(book: BookModel, update: L2DifferentialDepth) -> OrderbookSequence {
        sequence_of(book.last_update_id, update)
    }

    open spec fn spec_corrupted(book: BookModel, update: L2DifferentialDepth) -> bool {
        sequence_of(book.last_update_id, update) == OrderbookSequence::Gap
    }

    open spec fn spec_snapshot(book: BookModel, key: SharedStr) -> OrderbookSnapshot {
        OrderbookSnapshot { id: key, mid: unscaled_mid(book), ts: book.last_update_id }
    }

    fn from_snapshot(snapshot: L2DifferentialDepth) -> (r: Self) {
        Self {
            bids: collect_side(&snapshot.bids),
            asks: collect_side(&snapshot.asks),
            last_update_id: snapshot.last_update_id,
        }
    }

    fn sequence(&self, update: &L2DifferentialDepth) -> (r: OrderbookSequence) {
        let last = self.last_update_id;

        // outdated
        if update.last_update_id <= last {
            return OrderbookSequence::Stale;
        }
        // first update after the snapshot: U <= last + 1 <= u
        if update.first_update_id <= last + 1 && last + 1 <= update.last_update_id {
            return OrderbookSequence::Valid;
        }
        // next update in sequence: U == last + 1
        if update.first_update_id == last + 1 {
            return OrderbookSequence::Valid;
        }
        OrderbookSequence::Gap
    }

    fn corrupted(&self, update: L2DifferentialDepth) -> (r: bool) {
        matches!(self.sequence(&update), OrderbookSequence::Gap)
    }

    fn update(&mut self, update: L2DifferentialDepth) {
        self.last_update_id = update.last_update_id;
        apply_side(&mut self.bids, &update.bids);
        apply_side(&mut self.asks, &update.asks);
    }

    fn snapshot(&self, key: SharedStr) -> (r: OrderbookSnapshot) {
        let mid = match (best_bid(&self.bids), best_ask(&self.asks)) {
            (Some(b), Some(a)) => Some(b as u16 + a as u16),
            _ => None,
        };
        OrderbookSnapshot { id: key, mid, ts: self.last_update_id }
    }
}

/// A diff, once applied, is stale: the book has taken in its last update,
/// so the same diff again changes nothing.
pub proof fn lemma_applied_diff_is_stale(book: BookModel, diff: L2DifferentialDepth)
    ensures
        sequence_of(GeminiOrderbook::spec_update(book, diff).last_update_id, diff)
            == OrderbookSequence::Stale,
{
}

/// Diffs that follow each other line up: after a diff is applied, the diff
/// that starts right after it is taken in.
pub proof fn lemma_next_diff_lines_up(
    book: BookModel,
    first: L2DifferentialDepth,
    next: L2DifferentialDepth,
)
    requires
        next.first_update_id == first.last_update_id + 1,
        next.first_update_id <= next.last_update_id,
    ensures
        sequence_of(GeminiOrderbook::spec_update(book, first).last_update_id, next)
            == OrderbookSequence::Valid,
{
}

/// A diff that starts beyond the update after the book's last is a gap,
/// and the book is then corrupted.
pub proof fn lemma_skipped_update_is_gap(book: BookModel, diff: L2DifferentialDepth)
    requires
        diff.first_update_id > book.last_update_id + 1,
        diff.first_update_id <= diff.last_update_id,
    ensures
        GeminiOrderbook::spec_corrupted(book, diff),
{
}

/// The level of `levels` at `i` is the last one listed for its price.
pub open spec fn listed_last(levels: Seq<PriceLevel>, i: int) -> bool {
    &&& 0 <= i < levels.len()
    &&& forall|j: int| i < j < levels.len() ==> #[trigger] levels[j].price != levels[i].price
}

/// `levels` lists no level at price `p`.
pub open spec fn unlisted(levels: Seq<PriceLevel>, p: u8) -> bool {
    forall|j: int| 0 <= j < levels.len() ==> #[trigger] levels[j].price != p
}

/// Levels overwrite a side: a price listed gets the quantity listed last
/// for it, whatever the side held there before, and is cleared when that
/// quantity is 0; a price not listed keeps what it had.
pub proof fn lemma_levels_overwrite(side: Map<u8, i32>, levels: Seq<PriceLevel>)
    ensures
        forall|i: int|
            #[trigger] listed_last(levels, i) && levels[i].qty != 0 ==> apply_levels(
                side,
                levels,
            ).contains_key(levels[i].price) && apply_levels(side, levels)[levels[i].price]
                == levels[i].qty,
        forall|i: int|
            #[trigger] listed_last(levels, i) && levels[i].qty == 0 ==> !apply_levels(
                side,
                levels,
            ).contains_key(levels[i].price),
        forall|p: u8|
            #[trigger] unlisted(levels, p) ==> apply_levels(side, levels).contains_key(p)
                == side.contains_key(p) && (side.contains_key(p) ==> apply_levels(side, levels)[p]
                == side[p]),
    decreases levels.len(),
{
    if levels.len() > 0 {
        let n = levels.len() - 1;
        let init = levels.drop_last();
        lemma_levels_overwrite(side, init);
        assert(forall|j: int| 0 <= j < n ==> init[j] == levels[j]);
        assert(levels.last() == levels[n]);
        assert forall|i: int| #[trigger] listed_last(levels, i) && i < n implies listed_last(
            init,
            i,
        ) by {
            assert forall|j: int| i < j < init.len() implies #[trigger] init[j].price
                != init[i].price by {
                assert(levels[j].price != levels[i].price);
            }
        }
        assert forall|i: int| #[trigger] listed_last(levels, i) && i < n implies levels[n].price
            != levels[i].price by {}
        assert forall|p: u8| #[trigger] unlisted(levels, p) implies unlisted(init, p)
            && levels[n].price != p by {
            assert forall|j: int| 0 <= j < init.len() implies #[trigger] init[j].price != p by {
                assert(levels[j].price != p);
            }
        }
    }
}

/// A diff overwrites the book: on each side, a price the diff lists gets
/// the quantity listed last for it, not added to what the book held, or is
/// cleared when that quantity is 0; other prices keep their quantity; and
/// the book's last update becomes the diff's.
pub proof fn lemma_update_overwrites(book: BookModel, diff: L2DifferentialDepth)
    ensures
        GeminiOrderbook::spec_update(book, diff).last_update_id == diff.last_update_id,
        forall|i: int|
            #[trigger] listed_last(diff.bids@, i) && diff.bids@[i].qty != 0
                ==> GeminiOrderbook::spec_update(book, diff).bids.contains_key(diff.bids@[i].price)
                && GeminiOrderbook::spec_update(book, diff).bids[diff.bids@[i].price]
                == diff.bids@[i].qty,
        forall|i: int|
            #[trigger] listed_last(diff.bids@, i) && diff.bids@[i].qty == 0
                ==> !GeminiOrderbook::spec_update(book, diff).bids.contains_key(
                diff.bids@[i].price,
            ),
        forall|p: u8|
            #[trigger] unlisted(diff.bids@, p) ==> GeminiOrderbook::spec_update(
                book,
                diff,
            ).bids.contains_key(p) == book.bids.contains_key(p) && (book.bids.contains_key(p)
                ==> GeminiOrderbook::spec_update(book, diff).bids[p] == book.bids[p]),
        forall|i: int|
            #[trigger] listed_last(diff.asks@, i) && diff.asks@[i].qty != 0
                ==> GeminiOrderbook::spec_update(book, diff).asks.contains_key(diff.asks@[i].price)
                && GeminiOrderbook::spec_update(book, diff).asks[diff.asks@[i].price]
                == diff.asks@[i].qty,
        forall|i: int|
            #[trigger] listed_last(diff.asks@, i) && diff.asks@[i].qty == 0
                ==> !GeminiOrderbook::spec_update(book, diff).asks.contains_key(
                diff.asks@[i].price,
            ),
        forall|p: u8|
            #[trigger] unlisted(diff.asks@, p) ==> GeminiOrderbook::spec_update(
                book,
                diff,
            ).asks.contains_key(p) == book.asks.contains_key(p) && (book.asks.contains_key(p)
                ==> GeminiOrderbook::spec_update(book, diff).asks[p] == book.asks[p]),
{
    lemma_levels_overwrite(book.bids, diff.bids@);
    lemma_levels_overwrite(book.asks, diff.asks@);
}

/// A side built from `levels` holds exactly the prices listed, each with
/// the quantity listed last for it.
pub proof fn lemma_collect_levels(levels: Seq<PriceLevel>)
    ensures
        forall|i: int|
            #[trigger] listed_last(levels, i) ==> collect_levels(levels).contains_key(
                levels[i].price,
            ) && collect_levels(levels)[levels[i].price] == levels[i].qty,
        forall|p: u8| #[trigger] unlisted(levels, p) ==> !collect_levels(levels).contains_key(p),
        forall|p: u8|
            #[trigger] collect_levels(levels).contains_key(p) ==> exists|i: int|
                listed_last(levels, i) && levels[i].price == p,
    decreases levels.len(),
{
    if levels.len() > 0 {
        let n = levels.len() - 1;
        let init = levels.drop_last();
        lemma_collect_levels(init);
        assert(forall|j: int| 0 <= j < n ==> init[j] == levels[j]);
        assert(levels.last() == levels[n]);
        assert forall|i: int| #[trigger] listed_last(levels, i) && i < n implies listed_last(
            init,
            i,
        ) && levels[n].price != levels[i].price by {
            assert forall|j: int| i < j < init.len() implies #[trigger] init[j].price
                != init[i].price by {
                assert(levels[j].price != levels[i].price);
            }
        }
        assert forall|p: u8| #[trigger] unlisted(levels, p) implies unlisted(init, p) by {
            assert forall|j: int| 0 <= j < init.len() implies #[trigger] init[j].price != p by {
                assert(levels[j].price != p);
            }
        }
        assert forall|p: u8| #[trigger] collect_levels(levels).contains_key(p) implies exists|
            i: int,
        | listed_last(levels, i) && levels[i].price == p by {
            if p == levels[n].price {
                assert(listed_last(levels, n));
            } else {
                assert(collect_levels(init).contains_key(p));
                let i = choose|i: int| listed_last(init, i) && init[i].price == p;
                assert forall|j: int| i < j < levels.len() implies #[trigger] levels[j].price
                    != levels[i].price by {
                    if j < n {
                        assert(init[j].price != init[i].price);
                    }
                }
                assert(listed_last(levels, i));
            }
        }
    }
}

/// A book made from a snapshot holds on each side exactly the prices the
/// snapshot lists, each with the quantity listed last for it, and the
/// snapshot's last update.
pub proof fn lemma_snapshot_lists_levels(snapshot: L2DifferentialDepth)
    ensures
        GeminiOrderbook::spec_from_snapshot(snapshot).last_update_id == snapshot.last_update_id,
        forall|i: int|
            #[trigger] listed_last(snapshot.bids@, i) ==> GeminiOrderbook::spec_from_snapshot(
                snapshot,
            ).bids.contains_key(snapshot.bids@[i].price) && GeminiOrderbook::spec_from_snapshot(
                snapshot,
            ).bids[snapshot.bids@[i].price] == snapshot.bids@[i].qty,
        forall|p: u8|
            #[trigger] unlisted(snapshot.bids@, p) ==> !GeminiOrderbook::spec_from_snapshot(
                snapshot,
            ).bids.contains_key(p),
        forall|i: int|
            #[trigger] listed_last(snapshot.asks@, i) ==> GeminiOrderbook::spec_from_snapshot(
                snapshot,
            ).asks.contains_key(snapshot.asks@[i].price) && GeminiOrderbook::spec_from_snapshot(
                snapshot,
            ).asks[snapshot.asks@[i].price] == snapshot.asks@[i].qty,
        forall|p: u8|
            #[trigger] unlisted(snapshot.asks@, p) ==> !GeminiOrderbook::spec_from_snapshot(
                snapshot,
            ).asks.contains_key(p),
{
    lemma_collect_levels(snapshot.bids@);
    lemma_collect_levels(snapshot.asks@);
}

} // verus!
