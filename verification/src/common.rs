use vstd::prelude::*;

use crate::stats::observation::{Observation, Timescale};
use crate::stats::stratify::Stratified;

verus! {

/// Shared market symbol text.
pub type SharedStr = String;

/// Sum of the best bid and best ask, in price ticks.
pub type UnscaledMidPrice = u16;

/// One event for a book: a full snapshot, a diff, or the end of the book.
#[allow(inconsistent_fields)]
pub enum OrderbookUpdate<S, D> {
    Snapshot { key: SharedStr, data: S },
    Diff { key: SharedStr, data: D },
    Terminal(SharedStr),
}

/// How a diff lines up with the book it is meant for.
#[derive(Clone, Copy, PartialEq, Eq, Structural, Debug)]
pub enum OrderbookSequence {
    Valid,
    Stale,
    Gap,
}

/// A summary of one book at one update.
#[derive(Clone, Debug)]
pub struct OrderbookSnapshot {
    pub id: SharedStr,
    pub mid: Option<u16>,
    pub ts: u64,
}

impl From<OrderbookSnapshot> for Observation<Option<u16>> {
    fn from(value: OrderbookSnapshot) -> (r: Self) {
        Observation {
            id: value.id,
            ts: value.ts,
            timescale: Timescale::Nano,
            value: value.mid,
            stratified: Stratified::Unstratified,
        }
    }
}

impl vstd::std_specs::convert::FromSpecImpl<OrderbookSnapshot> for Observation<Option<u16>> {
    open spec fn obeys_from_spec() -> bool {
        true
    }

    open spec fn from_spec(v: OrderbookSnapshot) -> Self {
        Observation {
            id: v.id,
            ts: v.ts,
            timescale: Timescale::Nano,
            value: v.mid,
            stratified: Stratified::Unstratified,
        }
    }
}

} // verus!
