use vstd::prelude::*;
use vstd::string::StringSliceAdditionalSpecFns;
use vstd::utf8::is_char_boundary;

use crate::common::SharedStr;
use crate::session::Priority;
use crate::traits::{OrderbookData, Prioritize};

verus! {

/// A stream of the exchange's websocket.
#[derive(Debug)]
pub enum Stream {
    BookTicker(SharedStr),
    PartialDepth(SharedStr),
    DifferentialDepth(SharedStr),
    Trade(SharedStr),
    Order,
    Balance,
    ContractStatus,
    ConnInfo,
}

/// A request to start or stop a stream.
#[derive(Debug)]
pub enum Subscriptions {
    Subscribe(Stream),
    Unsubscribe(Stream),
}

impl Prioritize for Subscriptions {
    open spec fn spec_priority(&self) -> Priority {
        Priority::Low
    }

    fn priority(&self) -> (r: Priority) {
        Priority::Low
    }
}

/// The fields of a subscription request as it goes on the wire.
#[derive(Debug)]
pub struct SubscriptionMessage {
    pub id: String,
    pub method: String,
    pub params: [String; 1],
}

/// The (id, method, parameter) that a stream request is sent with, given
/// the request's method.
pub open spec fn stream_message(stream: Stream, method: Seq<char>) -> (Seq<char>, Seq<char>, Seq<char>) {
    match stream {
        Stream::BookTicker(symbol) => (symbol@, method, symbol@ + "@bookTicker"@),
        Stream::PartialDepth(symbol) => (symbol@, method, symbol@ + "@depth@5@100ms"@),
        Stream::DifferentialDepth(symbol) => (symbol@, method, symbol@ + "@depth@100ms"@),
        Stream::Trade(symbol) => (symbol@, method, "trade"@),
        Stream::Order => ("order"@, method, "orders@account"@),
        Stream::Balance => ("balance"@, method, "balances@account"@),
        Stream::ContractStatus => ("contract-status"@, method, "contractStatus"@),
        Stream::ConnInfo => ("conn-info"@, "conninfo"@, "{}"@),
    }
}

/// The (id, method, parameter) that a subscription request is sent with.
pub open spec fn subscription_message(s: Subscriptions) -> (Seq<char>, Seq<char>, Seq<char>) {
    match s {
        Subscriptions::Subscribe(stream) => stream_message(stream, "subscribe"@),
        Subscriptions::Unsubscribe(stream) => stream_message(stream, "unsubscribe"@),
    }
}

/// Unsubscribing from a stream mirrors subscribing to it: the same id and
/// parameter, with the method `unsubscribe` for `subscribe` (the
/// connection-info stream keeps its own method either way).
pub proof fn lemma_unsubscribe_mirrors_subscribe(stream: Stream)
    ensures
        subscription_message(Subscriptions::Unsubscribe(stream)).0 == subscription_message(
            Subscriptions::Subscribe(stream),
        ).0,
        subscription_message(Subscriptions::Unsubscribe(stream)).2 == subscription_message(
            Subscriptions::Subscribe(stream),
        ).2,
        !(stream is ConnInfo) ==> subscription_message(Subscriptions::Subscribe(stream)).1
            == "subscribe"@ && subscription_message(Subscriptions::Unsubscribe(stream)).1
            == "unsubscribe"@,
        stream is ConnInfo ==> subscription_message(Subscriptions::Subscribe(stream)).1
            == subscription_message(Subscriptions::Unsubscribe(stream)).1,
{
}

/// `symbol` followed by `suffix`.
fn suffixed(symbol: &SharedStr, suffix: &str) -> (r: String)
    ensures
        r@ == symbol@ + suffix@,
{
    let mut out = symbol.clone();
    out.append(suffix);
    out
}

fn build_message(stream: &Stream, method: &str) -> (r: SubscriptionMessage)
    ensures
        (r.id@, r.method@, r.params[0]@) == stream_message(*stream, method@),
{
    match stream {
        Stream::BookTicker(symbol) => SubscriptionMessage {
            id: symbol.clone(),
            method: String::from_str(method),
            params: [suffixed(symbol, "@bookTicker")],
        },
        Stream::PartialDepth(symbol) => SubscriptionMessage {
            id: symbol.clone(),
            method: String::from_str(method),
            params: [suffixed(symbol, "@depth@5@100ms")],
        },
        Stream::DifferentialDepth(symbol) => SubscriptionMessage {
            id: symbol.clone(),
            method: String::from_str(method),
            params: [suffixed(symbol, "@depth@100ms")],
        },
        Stream::Trade(symbol) => SubscriptionMessage {
            id: symbol.clone(),
            method: String::from_str(method),
            params: [String::from_str("trade")],
        },
        Stream::Order => SubscriptionMessage {
            id: String::from_str("order"),
            method: String::from_str(method),
            params: [String::from_str("orders@account")],
        },
        Stream::Balance => SubscriptionMessage {
            id: String::from_str("balance"),
            method: String::from_str(method),
            params: [String::from_str("balances@account")],
        },
        Stream::ContractStatus => SubscriptionMessage {
            id: String::from_str("contract-status"),
            method: String::from_str(method),
            params: [String::from_str("contractStatus")],
        },
        Stream::ConnInfo => SubscriptionMessage {
            id: String::from_str("conn-info"),
            method: String::from_str("conninfo"),
            params: [String::from_str("{}")],
        },
    }
}

impl Subscriptions {
    /// The fields this request is sent with.
    pub fn message(&self) -> (r: SubscriptionMessage)
        ensures
            (r.id@, r.method@, r.params[0]@) == subscription_message(*self),
    {
        match self {
            Self::Subscribe(stream) => build_message(stream, "subscribe"),
            Self::Unsubscribe(stream) => build_message(stream, "unsubscribe"),
        }
    }
}

#[derive(Debug, Clone, Copy, PartialEq, Eq, Structural)]
pub enum OrderSide {
    Buy,
    Sell,
}

#[derive(Debug, Clone, Copy, PartialEq, Eq, Structural)]
pub enum OrderType {
    Limit,
    Market,
}

#[derive(Debug, Clone, Copy, PartialEq, Eq, Structural)]
pub enum TimeInForce {
    Gtc,
    Ioc,
    Fok,
    Moc,
}

#[derive(Debug, Clone, Copy, PartialEq, Eq, Structural)]
pub enum PredictionMarketOutcome {
    Yes,
    No,
}

/// A new order for a prediction market.
#[derive(Debug)]
pub struct PlaceOrder {
    pub client_order_id: String,
    pub symbol: String,
    pub side: OrderSide,
    pub kind: OrderType,
    pub time_in_force: TimeInForce,
    pub price: String,
    pub quantity: String,
    pub event_outcome: PredictionMarketOutcome,
}

/// A request to cancel an order.
#[derive(Debug)]
pub struct CancelOrder {
    pub order_id: String,
}

/// An order request.
#[derive(Debug)]
pub enum Order {
    Place(PlaceOrder),
    Cancel(CancelOrder),
}

impl Order {
    /// The id and method this order request is sent with; the order itself
    /// goes as the parameters.
    pub fn envelope(&self) -> (r: (String, &'static str))
        ensures
            match self {
                Order::Place(o) => r.0@ == o.client_order_id@ && r.1@ == "order.place"@,
                Order::Cancel(c) => r.0@ == c.order_id@ && r.1@ == "order.cancel"@,
            },
    {
        match self {
            Order::Place(order) => (order.client_order_id.clone(), "order.place"),
            Order::Cancel(cancel) => (cancel.order_id.clone(), "order.cancel"),
        }
    }
}

/// A message received from the exchange.
#[derive(Debug)]
pub enum Message {
    ContractStatus(ContractStatus),
    L2DifferentialDepth(L2DifferentialDepth),
    SubscriptionError(SubscriptionError),
    BalanceUpdate(BalanceUpdate),
    Unknown,
}

#[derive(Debug)]
pub struct SubscriptionError {
    pub id: String,
    pub status: i16,
    pub error: SubscriptionErrorMsg,
}

#[derive(Debug)]
pub struct SubscriptionErrorMsg {
    pub code: i16,
    pub msg: String,
}

/// A change to one book, or a whole book when both update ids agree.
#[derive(Debug)]
pub struct L2DifferentialDepth {
    pub symbol: SharedStr,
    pub first_update_id: u64,
    pub last_update_id: u64,
    pub bids: Vec<PriceLevel>,
    pub asks: Vec<PriceLevel>,
}

impl OrderbookData for L2DifferentialDepth {
    open spec fn spec_key(&self) -> Seq<char> {
        self.symbol@
    }

    open spec fn spec_is_snapshot(&self) -> bool {
        self.first_update_id == self.last_update_id
    }

    fn key(&self) -> (r: &str) {
        self.symbol.as_str()
    }

    fn take_key(&mut self) -> (r: SharedStr) {
        self.symbol.clone()
    }

    fn is_snapshot(&self) -> (r: bool) {
        self.first_update_id == self.last_update_id
    }
}

/// Quantity at one price; a quantity of 0 clears the price.
#[derive(Debug, Clone, Copy, PartialEq, Eq, Structural)]
pub struct PriceLevel {
    pub price: u8,
    pub qty: i32,
}

/// The `i32` that a JSON text with these bytes reads as with
/// `sonic_rs::from_str`, if it reads as one.
pub uninterp spec fn json_i32_of(bytes: Seq<u8>) -> Option<i32>;

/// `sonic_rs::from_str::<i32>`: reads the text as a JSON number of type
/// `i32`. The contract names the result, None standing for the error.
#[verifier::external_body]
fn sonic_from_str_i32(s: &str) -> (r: Option<i32>)
    ensures
        r == json_i32_of(s.spec_bytes()),
{
    sonic_rs::from_str::<i32>(s).ok()
}

/// Why a quantity text did not read.
#[derive(Debug, Clone, Copy, PartialEq, Eq, Structural)]
pub enum QtyError {
    /// Shorter than its three-byte fraction, or cut inside a character.
    Truncated,
    /// What is left is not a JSON `i32`.
    NotANumber,
}

/// The quantity a text such as `"150.00"` stands for: the text less its
/// last three bytes, read as a JSON `i32`.
pub open spec fn qty_of(b: Seq<u8>) -> Result<i32, QtyError> {
    if b.len() < 3 || !is_char_boundary(b, b.len() - 3) {
        Err(QtyError::Truncated)
    } else {
        match json_i32_of(b.subrange(0, b.len() - 3)) {
            Some(v) => Ok(v),
            None => Err(QtyError::NotANumber),
        }
    }
}

/// Reads a prediction-market quantity; see `qty_of`.
pub fn gemini_prediction_market_qty(s: &str) -> (r: Result<i32, QtyError>)
    ensures
        r == qty_of(s.spec_bytes()),
{
    let len = s.as_bytes().len();
    if len < 3 {
        return Err(QtyError::Truncated);
    }
    if !s.is_char_boundary(len - 3) {
        return Err(QtyError::Truncated);
    }
    let (head, _) = s.split_at(len - 3);
    match sonic_from_str_i32(head) {
        Some(v) => Ok(v),
        None => Err(QtyError::NotANumber),
    }
}

/// The price a text such as `"0.41"` stands for: its third and fourth
/// bytes read as two decimal digits, in `u8` arithmetic. None where the
/// text is shorter, a byte lies below `'0'`, or the sum exceeds `u8`.
pub open spec fn price_of(b: Seq<u8>) -> Option<u8> {
    if b.len() < 4 || b[2] < 48 || b[3] < 48 {
        None
    } else {
        let tens = (b[2] - 48) * 10;
        let ones = b[3] - 48;
        if tens > 255 || tens + ones > 255 {
            None
        } else {
            Some((tens + ones) as u8)
        }
    }
}

/// Reads a prediction-market price; see `price_of`.
pub fn gemini_prediction_market_price(s: &str) -> (r: Option<u8>)
    ensures
        r == price_of(s.spec_bytes()),
{
    let b = s.as_bytes();
    if b.len() < 4 {
        return None;
    }
    let d0 = b[2];
    let d1 = b[3];
    if d0 < 48 || d1 < 48 {
        return None;
    }
    let d0 = d0 - 48;
    let d1 = d1 - 48;
    if d0 > 25 {
        return None;
    }
    let tens = d0 * 10;
    if tens > 255 - d1 {
        return None;
    }
    Some(tens + d1)
}

#[derive(Debug)]
pub struct BalanceUpdate {
    pub update_ts: u64,
    pub balance_update: Vec<AssetBalance>,
}

#[derive(Debug)]
pub struct AssetBalance {
    pub asset: String,
    pub balance: String,
}

/// A change of a contract's status.
#[derive(Debug)]
pub struct ContractStatus {
    pub event_ticker: String,
    pub symbol: SharedStr,
    pub strike: Option<String>,
    pub previous_status: String,
    pub new_status: String,
}

impl ContractStatus {
    /// Whether the status stayed as it was, so only the strike changed.
    pub fn is_strike_update(&self) -> (r: bool)
        ensures
            r == (self.previous_status@ == self.new_status@),
    {
        self.previous_status == self.new_status
    }
}

#[derive(Debug)]
pub struct PositionUpdate {
    pub event_type: String,
    pub event_ts: u64,
    pub account_update_ts: u64,
    pub account_id: u64,
    pub positions: Vec<Position>,
}

#[derive(Debug)]
pub struct Position {
    pub product_type: String,
    pub instrument_symbol: String,
    pub amount: Vec<Amount>,
}

#[derive(Debug)]
pub struct Amount {
    pub label: String,
    pub size: String,
    pub asset_code: Option<String>,
}

} // verus!
