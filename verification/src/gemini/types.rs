use std::sync::Arc;

use vstd::prelude::*;

use crate::common::{OrderbookUpdate, SharedStr};
use crate::gemini::messages::{ContractStatus, L2DifferentialDepth};
use crate::gemini::responses::{Contract, Event};
use crate::metadata::{Category, TimeFrame};
use crate::traits::Metadata;
use crate::utils::parsing::{join, joined, texts};

verus! {

/// One contract of an event, with the event it belongs to.
pub struct BinaryPredictionMarket {
    pub event: Arc<Event>,
    pub contract: Contract,
}

impl BinaryPredictionMarket {
    pub fn new(event: Arc<Event>, contract: Contract) -> (r: Self)
        ensures
            r.event == event,
            r.contract == contract,
    {
        Self { event, contract }
    }

    /// The contract's instrument symbol.
    pub fn contract_id(&self) -> (r: SharedStr)
        ensures
            r@ == self.contract.instrument_symbol@,
    {
        self.contract.instrument_symbol.clone()
    }
}

/// The markets of an event: one per contract, in the event's order, each
/// sharing the event without its contracts.
pub fn markets_of(event: Event) -> (r: Vec<BinaryPredictionMarket>)
    ensures
        r@.len() == event.contracts@.len(),
        forall|i: int|
            0 <= i < r@.len() ==> (#[trigger] r@[i]).contract == event.contracts@[i]
                && *r@[i].event == (Event { contracts: r@[i].event.contracts, ..event })
                && r@[i].event.contracts@.len() == 0,
{
    let mut event = event;
    let ghost e0 = event;
    let mut contracts = event.take_contracts();
    let shared = Arc::new(event);
    let mut out: Vec<BinaryPredictionMarket> = Vec::new();
    let n = contracts.len();
    let mut i: usize = 0;
    while i < n
        invariant
            n == e0.contracts@.len(),
            contracts@ == e0.contracts@.skip(i as int),
            i <= n,
            out@.len() == i,
            *shared == (Event { contracts: shared.contracts, ..e0 }),
            shared.contracts@.len() == 0,
            forall|a: int|
                0 <= a < i ==> (#[trigger] out@[a]).contract == e0.contracts@[a] && out@[a].event
                    == shared,
        decreases n - i,
    {
        let contract = contracts.remove(0);
        assert(contract == e0.contracts@[i as int]);
        out.push(BinaryPredictionMarket::new(shared.clone(), contract));
        i = i + 1;
        assert(contracts@ =~= e0.contracts@.skip(i as int));
    }
    out
}

impl Metadata for BinaryPredictionMarket {
    open spec fn spec_id(&self) -> Seq<char> {
        self.contract.instrument_symbol@
    }

    open spec fn spec_category(&self) -> Category {
        self.event.category
    }

    open spec fn spec_context(&self) -> Option<Seq<char>> {
        match self.event.tags {
            Some(tags) => Some(joined(texts(tags@), " "@)),
            None => None,
        }
    }

    open spec fn spec_timeframe(&self) -> TimeFrame {
        match self.event.start_time {
            Some(start) => TimeFrame::Discrete { start, end: self.event.expiry_date },
            None => TimeFrame::ExpiresAt { end: self.event.expiry_date },
        }
    }

    fn id(&self) -> (r: &str) {
        self.contract.instrument_symbol.as_str()
    }

    fn category(&self) -> (r: Category) {
        self.event.category.duplicate()
    }

    /// The event's tags joined with spaces.
    fn context(&self) -> (r: Option<String>) {
        match &self.event.tags {
            Some(tags) => Some(join(tags, " ")),
            None => None,
        }
    }

    fn timeframe(&self) -> (r: TimeFrame) {
        let start = self.event.start_time;
        let end = self.event.expiry_date;

        match start {
            Some(start) => TimeFrame::Discrete { start, end },
            None => TimeFrame::ExpiresAt { end },
        }
    }
}

/// The update that a depth message makes: a snapshot when both of its
/// update ids agree, a diff otherwise.
pub open spec fn depth_update(value: L2DifferentialDepth) -> OrderbookUpdate<
    L2DifferentialDepth,
    L2DifferentialDepth,
> {
    if value.first_update_id == value.last_update_id {
        OrderbookUpdate::Snapshot { key: value.symbol, data: value }
    } else {
        OrderbookUpdate::Diff { key: value.symbol, data: value }
    }
}

impl From<L2DifferentialDepth> for OrderbookUpdate<L2DifferentialDepth, L2DifferentialDepth> {
    fn from(value: L2DifferentialDepth) -> (r: Self) {
        if value.first_update_id == value.last_update_id {
            return OrderbookUpdate::Snapshot { key: value.symbol.clone(), data: value };
        }
        OrderbookUpdate::Diff { key: value.symbol.clone(), data: value }
    }
}

impl vstd::std_specs::convert::FromSpecImpl<L2DifferentialDepth> for OrderbookUpdate<L2DifferentialDepth, L2DifferentialDepth> {
    open spec fn obeys_from_spec() -> bool {
        true
    }

    open spec fn from_spec(v: L2DifferentialDepth) -> Self {
        depth_update(v)
    }
}

impl From<ContractStatus> for OrderbookUpdate<L2DifferentialDepth, L2DifferentialDepth> {
    fn from(value: ContractStatus) -> (r: Self) {
        OrderbookUpdate::Terminal(value.symbol.clone())
    }
}

impl vstd::std_specs::convert::FromSpecImpl<ContractStatus> for OrderbookUpdate<L2DifferentialDepth, L2DifferentialDepth> {
    open spec fn obeys_from_spec() -> bool {
        true
    }

    open spec fn from_spec(v: ContractStatus) -> Self {
        OrderbookUpdate::Terminal(v.symbol)
    }
}

} // verus!
