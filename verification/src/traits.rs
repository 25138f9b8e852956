use vstd::prelude::*;

use crate::common::{OrderbookSequence, OrderbookSnapshot, SharedStr};
use crate::metadata::{Category, TimeFrame};
use crate::session::Priority;

verus! {

/// Why the bytes of a message did not read.
#[derive(Debug)]
pub struct ParseError {
    pub reason: String,
}

/// Reads the bytes of a message as a value; the websocket reader uses it.
pub trait Parser<T> {
    fn parse(&self, bytes: &[u8]) -> Result<T, ParseError>;
}

/// Things that carry a request priority.
pub trait Prioritize {
    spec fn spec_priority(&self) -> Priority;

    fn priority(&self) -> (r: Priority)
        ensures
            r == self.spec_priority(),
    ;
}

/// A book kept from snapshots `S` and diffs `D`; its contracts speak of
/// its view.
pub trait OrderBook<S, D>: View + Sized {
    spec fn spec_from_snapshot(snapshot: S) -> Self::V;

    spec fn spec_update(book: Self::V, update: D) -> Self::V;

    spec fn spec_sequence(book: Self::V, update: D) -> OrderbookSequence;

    spec fn spec_corrupted(book: Self::V, update: S) -> bool;

    spec fn spec_snapshot(book: Self::V, key: SharedStr) -> OrderbookSnapshot;

    fn from_snapshot(snapshot: S) -> (r: Self)
        ensures
            r@ == Self::spec_from_snapshot(snapshot),
    ;

    fn update(&mut self, update: D)
        ensures
            final(self)@ == Self::spec_update(old(self)@, update),
    ;

    fn sequence(&self, update: &D) -> (r: OrderbookSequence)
        ensures
            r == Self::spec_sequence(self@, *update),
    ;

    fn corrupted(&self, update: S) -> (r: bool)
        ensures
            r == Self::spec_corrupted(self@, update),
    ;

    fn snapshot(&self, key: SharedStr) -> (r: OrderbookSnapshot)
        ensures
            r == Self::spec_snapshot(self@, key),
    ;
}

/// Book data that names the book it belongs to.
pub trait OrderbookData {
    spec fn spec_key(&self) -> Seq<char>;

    spec fn spec_is_snapshot(&self) -> bool;

    fn key(&self) -> (r: &str)
        ensures
            r@ == self.spec_key(),
    ;

    fn take_key(&mut self) -> (r: SharedStr)
        ensures
            r@ == old(self).spec_key(),
    ;

    fn is_snapshot(&self) -> (r: bool)
        ensures
            r == self.spec_is_snapshot(),
    ;
}

/// Descriptive data of a market.
pub trait Metadata {
    spec fn spec_id(&self) -> Seq<char>;

    spec fn spec_category(&self) -> Category;

    spec fn spec_context(&self) -> Option<Seq<char>>;

    spec fn spec_timeframe(&self) -> TimeFrame;

    fn id(&self) -> (r: &str)
        ensures
            r@ == self.spec_id(),
    ;

    fn category(&self) -> (r: Category)
        ensures
            r == self.spec_category(),
    ;

    fn context(&self) -> (r: Option<String>)
        ensures
            r matches Some(s) ==> self.spec_context() == Some(s@),
            r is None ==> self.spec_context() is None,
    ;

    fn timeframe(&self) -> (r: TimeFrame)
        ensures
            r == self.spec_timeframe(),
    ;
}

} // verus!
