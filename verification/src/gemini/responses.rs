use vstd::prelude::*;
use vstd::string::StringSliceAdditionalSpecFns;

use crate::metadata::Category;
use crate::utils::parsing::{
    first_index, first_index_of, lowercase, lowercase_of, parse_u32, u32_text_value,
};

verus! {

/// One page of the list of prediction-market events.
#[derive(Debug)]
pub struct ListMarketEvents {
    pub data: Vec<Event>,
    pub pagination: Pagination,
}

/// Where a page lies in the whole list.
#[derive(Debug, Clone, Copy, PartialEq, Eq, Structural)]
pub struct Pagination {
    pub limit: usize,
    pub offset: u64,
    pub total: u64,
}

/// A prediction-market event. Instants are milliseconds since the Unix
/// epoch.
#[derive(Debug)]
pub struct Event {
    pub id: u32,
    pub event_type: String,
    pub category: Category,
    pub ticker: String,
    pub status: String,
    pub contracts: Vec<Contract>,
    pub expiry_date: i64,
    pub start_time: Option<i64>,
    pub tags: Option<Vec<String>>,
}

impl Event {
    /// Moves the contracts out, leaving none.
    pub fn take_contracts(&mut self) -> (r: Vec<Contract>)
        ensures
            r@ == old(self).contracts@,
            *final(self) == (Event { contracts: final(self).contracts, ..*old(self) }),
            final(self).contracts@ == Seq::<Contract>::empty(),
    {
        let mut out = Vec::new();
        std::mem::swap(&mut out, &mut self.contracts);
        out
    }
}

/// One contract of an event.
#[derive(Debug)]
pub struct Contract {
    pub id: ContractId,
    pub status: String,
    pub expiry_date: Option<i64>,
    pub resolution_side: Option<String>,
    pub instrument_symbol: String,
    pub market_state: Option<String>,
    pub team_id: Option<String>,
    pub strike: Option<Strike>,
    pub source: Option<String>,
}

/// The two numbers of a contract id `parent-child`.
#[derive(Debug, Clone, Copy, PartialEq, Eq, Structural)]
pub struct ContractId {
    pub parent: u32,
    pub child: u32,
}

/// The text of an optional string.
pub open spec fn opt_text(o: Option<String>) -> Option<Seq<char>> {
    match o {
        Some(s) => Some(s@),
        None => None,
    }
}

/// Whether two optional strings hold the same text.
fn same_text(a: &Option<String>, b: &Option<String>) -> (r: bool)
    ensures
        r == (opt_text(*a) == opt_text(*b)),
{
    match (a, b) {
        (Some(x), Some(y)) => *x == *y,
        (None, None) => true,
        _ => false,
    }
}

impl PartialEq for Contract {
    fn eq(&self, other: &Self) -> (r: bool) {
        self.instrument_symbol == other.instrument_symbol
    }
}

impl vstd::std_specs::cmp::PartialEqSpecImpl for Contract {
    open spec fn obeys_eq_spec() -> bool {
        true
    }

    open spec fn eq_spec(&self, other: &Self) -> bool {
        self.instrument_symbol@ == other.instrument_symbol@
    }
}

impl Contract {
    /// Takes the expiry and market state of `updated` where they differ.
    pub fn update(&mut self, updated: Self)
        ensures
            *final(self) == (Contract {
                expiry_date: updated.expiry_date,
                market_state: if opt_text(old(self).market_state) == opt_text(
                    updated.market_state,
                ) {
                    old(self).market_state
                } else {
                    updated.market_state
                },
                ..*old(self)
            }),
    {
        if self.expiry_date != updated.expiry_date {
            self.expiry_date = updated.expiry_date
        }
        if !same_text(&self.market_state, &updated.market_state) {
            self.market_state = updated.market_state
        }
    }
}

/// The strike a contract settles against.
#[derive(Debug)]
pub struct Strike {
    pub value: Option<String>,
    pub strike_type: String,
    pub available_at: Option<i64>,
}

impl Strike {
    /// Takes the value and availability of `updated` where they differ.
    pub fn update(&mut self, updated: Self)
        ensures
            *final(self) == (Strike {
                value: if opt_text(old(self).value) == opt_text(updated.value) {
                    old(self).value
                } else {
                    updated.value
                },
                available_at: updated.available_at,
                ..*old(self)
            }),
    {
        if !same_text(&self.value, &updated.value) {
            self.value = updated.value
        }
        if self.available_at != updated.available_at {
            self.available_at = updated.available_at
        }
    }
}

/// The text in lowercase, as tickers and symbols are kept.
pub fn lowercase_text(s: &str) -> (r: String)
    ensures
        r@ == lowercase_of(s@),
{
    lowercase(s)
}

/// The number a decimal text spells, read as `u32::from_str` reads it.
pub fn string_to_u32(s: &str) -> (r: Option<u32>)
    ensures
        r == u32_text_value(s.spec_bytes()),
{
    let bytes = s.as_bytes();
    assert(bytes@.subrange(0, bytes@.len() as int) =~= bytes@);
    parse_u32(bytes, 0, bytes.len())
}

/// The contract id spelled by `b`: the number before the first `-`, less
/// its last byte, and the number after it. None where no `-` occurs, where
/// it comes first, or where a number does not read.
pub open spec fn contract_id_of(b: Seq<u8>) -> Option<ContractId> {
    match first_index_of(b, 45) {
        None => None,
        Some(i) => if i == 0 {
            None
        } else {
            match (u32_text_value(b.subrange(0, i - 1)), u32_text_value(b.subrange(i + 1, b.len() as int))) {
                (Some(parent), Some(child)) => Some(ContractId { parent, child }),
                _ => None,
            }
        },
    }
}

/// Reads a contract id such as `12345-6`; see `contract_id_of`.
pub fn gemini_contract_id(s: &str) -> (r: Option<ContractId>)
    ensures
        r == contract_id_of(s.spec_bytes()),
{
    let bytes = s.as_bytes();
    let found = first_index(bytes, 45);
    let split_idx = match found {
        Some(i) => i,
        None => return None,
    };
    let n = bytes.len();
    assert(split_idx < n);
    if split_idx == 0 {
        return None;
    }
    let parent = match parse_u32(bytes, 0, split_idx - 1) {
        Some(p) => p,
        None => return None,
    };
    let child = match parse_u32(bytes, split_idx + 1, n) {
        Some(c) => c,
        None => return None,
    };
    Some(ContractId { parent, child })
}

/// Events asked for per page of the list.
pub const PAGE_LIMIT: usize = 50;

/// The address of the list of prediction-market events.
pub fn events_url() -> (r: String)
    ensures
        r@ == "https://api.gemini.com/v1/prediction-markets/events"@,
{
    String::from_str("https://api.gemini.com/v1/prediction-markets/events")
}

/// The address of the event with this ticker.
pub fn event_url(ticker: &str) -> (r: String)
    ensures
        r@ == "https://api.gemini.com/v1/prediction-markets/events/"@ + ticker@,
{
    let mut url = String::from_str("https://api.gemini.com/v1/prediction-markets/events/");
    url.append(ticker);
    url
}

/// The offset of the next page after the page at `offset`, or None when
/// the pages have covered all `total` events.
pub open spec fn next_offset_of(offset: int, limit: int, total: u64) -> Option<int> {
    if offset + limit >= total as usize {
        None
    } else {
        Some(offset + limit)
    }
}

/// The offset of the page after the page at `offset`, or None when the
/// last page was read.
pub fn next_page_offset(offset: usize, limit: usize, total: u64) -> (r: Option<usize>)
    requires
        offset + limit <= usize::MAX,
    ensures
        match r {
            Some(o) => next_offset_of(offset as int, limit as int, total) == Some(o as int),
            None => next_offset_of(offset as int, limit as int, total) is None,
        },
{
    let offset = offset + limit;
    if offset >= total as usize {
        None
    } else {
        Some(offset)
    }
}

/// The texts that `serde_json::from_str::<Vec<String>>` reads from a text,
/// or None where the text does not read as a JSON list of strings.
pub uninterp spec fn json_texts_of(text: Seq<char>) -> Option<Seq<Seq<char>>>;

/// `serde_json::from_str::<Vec<String>>`: reads the text as a JSON list of
/// strings. The contract names the result, None standing for the error.
#[verifier::external_body]
fn json_texts(text: &str) -> (r: Option<Vec<String>>)
    ensures
        r matches Some(v) ==> json_texts_of(text@) == Some(v@.map_values(|t: String| t@)),
        r is None ==> json_texts_of(text@) is None,
{
    serde_json::from_str::<Vec<String>>(text).ok()
}

/// A list of texts that the other venue sends as the JSON text of the list
/// inside a string, such as its token ids and outcomes.
pub fn parse_stringified_vec(text: &str) -> (r: Option<Vec<String>>)
    ensures
        r matches Some(v) ==> json_texts_of(text@) == Some(v@.map_values(|t: String| t@)),
        r is None ==> json_texts_of(text@) is None,
{
    json_texts(text)
}

/// A market of the other venue, as its listing gives it.
#[derive(Debug)]
pub struct PolyMarketMarket {
    pub token_ids: Vec<String>,
    pub outcomes: Vec<String>,
    pub event_start_time: Option<i64>,
    pub end_date: Option<i64>,
    pub events: Vec<PolyMarketEvent>,
}

/// An event of the other venue.
#[derive(Debug)]
pub struct PolyMarketEvent {
    pub id: String,
    pub ticker: Option<String>,
    pub slug: Option<String>,
    pub start_time: Option<i64>,
    pub end_date: Option<i64>,
}

} // verus!
