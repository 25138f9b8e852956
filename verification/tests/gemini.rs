use std::sync::Arc;

use coinflip::common::{OrderbookSequence, OrderbookUpdate};
use coinflip::gemini::messages::{
    gemini_prediction_market_price, gemini_prediction_market_qty, AssetBalance, BalanceUpdate,
    CancelOrder, ContractStatus, L2DifferentialDepth, Message, Order, OrderSide, OrderType,
    PlaceOrder, PredictionMarketOutcome, PriceLevel, QtyError, Stream, SubscriptionError,
    SubscriptionErrorMsg, Subscriptions, TimeInForce,
};
use coinflip::gemini::orderbook::GeminiOrderbook;
use coinflip::gemini::parser::{GeminiParser, MessageKind};
use coinflip::gemini::poll::{
    resubscribe_payload, static_streams_payload, subscribe_payload, unsubscribe_payload,
    ManagerAction, ManagerEvent, MetaDataRepo, MetadataAction, SubscriptionAction,
    SubscriptionManager,
};
use coinflip::gemini::responses::{
    event_url, events_url, gemini_contract_id, next_page_offset, parse_stringified_vec,
    string_to_u32, Contract, ContractId, Event, Strike, PAGE_LIMIT,
};
use coinflip::gemini::router::{route_message, settled, Routed};
use coinflip::gemini::types::{markets_of, BinaryPredictionMarket};
use coinflip::metadata::{Category, TimeFrame};
use coinflip::session::Payload;
use coinflip::traits::{Metadata, OrderBook, OrderbookData};

fn level(price: u8, qty: i32) -> PriceLevel {
    PriceLevel { price, qty }
}

fn depth(symbol: &str, first: u64, last: u64, bids: Vec<PriceLevel>, asks: Vec<PriceLevel>) -> L2DifferentialDepth {
    L2DifferentialDepth {
        symbol: symbol.to_string(),
        first_update_id: first,
        last_update_id: last,
        bids,
        asks,
    }
}

fn status(symbol: &str, event: &str, previous: &str, new: &str) -> ContractStatus {
    ContractStatus {
        event_ticker: event.to_string(),
        symbol: symbol.to_string(),
        strike: None,
        previous_status: previous.to_string(),
        new_status: new.to_string(),
    }
}

fn contract(symbol: &str) -> Contract {
    Contract {
        id: ContractId { parent: 1, child: 2 },
        status: "active".to_string(),
        expiry_date: Some(100),
        resolution_side: None,
        instrument_symbol: symbol.to_string(),
        market_state: Some("open".to_string()),
        team_id: None,
        strike: None,
        source: None,
    }
}

fn event(category: Category, tags: Option<Vec<String>>, contracts: Vec<Contract>) -> Event {
    Event {
        id: 9,
        event_type: "binary".to_string(),
        category,
        ticker: "EVT".to_string(),
        status: "active".to_string(),
        contracts,
        expiry_date: 5_000,
        start_time: Some(1_000),
        tags,
    }
}

// ── messages ────────────────────────────────────────────────────────────────

#[test]
fn subscribe_to_differential_depth() {
    let m = Subscriptions::Subscribe(Stream::DifferentialDepth("btcusd".to_string())).message();
    assert_eq!(m.id, "btcusd");
    assert_eq!(m.method, "subscribe");
    assert_eq!(m.params[0], "btcusd@depth@100ms");
}

#[test]
fn unsubscribe_mirrors_subscribe() {
    let m = Subscriptions::Unsubscribe(Stream::DifferentialDepth("btcusd".to_string())).message();
    assert_eq!(m.id, "btcusd");
    assert_eq!(m.method, "unsubscribe");
    assert_eq!(m.params[0], "btcusd@depth@100ms");
}

#[test]
fn stream_parameters() {
    let book = Subscriptions::Subscribe(Stream::BookTicker("ethusd".to_string())).message();
    assert_eq!(book.params[0], "ethusd@bookTicker");
    let partial = Subscriptions::Subscribe(Stream::PartialDepth("ethusd".to_string())).message();
    assert_eq!(partial.params[0], "ethusd@depth@5@100ms");
    let trade = Subscriptions::Subscribe(Stream::Trade("ethusd".to_string())).message();
    assert_eq!((trade.id.as_str(), trade.params[0].as_str()), ("ethusd", "trade"));
    let order = Subscriptions::Subscribe(Stream::Order).message();
    assert_eq!((order.id.as_str(), order.params[0].as_str()), ("order", "orders@account"));
    let balance = Subscriptions::Subscribe(Stream::Balance).message();
    assert_eq!((balance.id.as_str(), balance.params[0].as_str()), ("balance", "balances@account"));
    let status = Subscriptions::Subscribe(Stream::ContractStatus).message();
    assert_eq!(
        (status.id.as_str(), status.params[0].as_str()),
        ("contract-status", "contractStatus")
    );
}

#[test]
fn conn_info_keeps_its_method() {
    let m = Subscriptions::Unsubscribe(Stream::ConnInfo).message();
    assert_eq!(m.id, "conn-info");
    assert_eq!(m.method, "conninfo");
    assert_eq!(m.params[0], "{}");
}

#[test]
fn order_envelopes() {
    let place = Order::Place(PlaceOrder {
        client_order_id: "c-1".to_string(),
        symbol: "GEMI-X".to_string(),
        side: OrderSide::Buy,
        kind: OrderType::Limit,
        time_in_force: TimeInForce::Gtc,
        price: "0.41".to_string(),
        quantity: "10".to_string(),
        event_outcome: PredictionMarketOutcome::Yes,
    });
    assert_eq!(place.envelope(), ("c-1".to_string(), "order.place"));
    let cancel = Order::Cancel(CancelOrder { order_id: "o-9".to_string() });
    assert_eq!(cancel.envelope(), ("o-9".to_string(), "order.cancel"));
}

#[test]
fn quantity_drops_its_fraction() {
    assert_eq!(gemini_prediction_market_qty("150.00"), Ok(150));
    assert_eq!(gemini_prediction_market_qty("0.00"), Ok(0));
    assert_eq!(gemini_prediction_market_qty("-5.00"), Ok(-5));
}

#[test]
fn quantity_errors() {
    assert_eq!(gemini_prediction_market_qty("12"), Err(QtyError::Truncated));
    assert_eq!(gemini_prediction_market_qty(""), Err(QtyError::Truncated));
    assert_eq!(gemini_prediction_market_qty("ab.00"), Err(QtyError::NotANumber));
    assert_eq!(gemini_prediction_market_qty(".00"), Err(QtyError::NotANumber));
}

#[test]
fn price_reads_two_digits() {
    assert_eq!(gemini_prediction_market_price("0.41"), Some(41));
    assert_eq!(gemini_prediction_market_price("0.05"), Some(5));
    assert_eq!(gemini_prediction_market_price("0.99"), Some(99));
    assert_eq!(gemini_prediction_market_price("0.4"), None);
    assert_eq!(gemini_prediction_market_price("0. 1"), None);
}

#[test]
fn strike_update_is_an_unchanged_status() {
    assert!(status("X", "E", "Open", "Open").is_strike_update());
    assert!(!status("X", "E", "Open", "Settled").is_strike_update());
}

#[test]
fn depth_key_and_snapshot_flag() {
    let mut d = depth("BTC", 4, 4, vec![], vec![]);
    assert!(d.is_snapshot());
    assert_eq!(d.key(), "BTC");
    assert_eq!(d.take_key(), "BTC");
    assert!(!depth("BTC", 4, 5, vec![], vec![]).is_snapshot());
}

// ── orderbook ───────────────────────────────────────────────────────────────

#[test]
fn orderbook_from_snapshot_and_mid() {
    let book = GeminiOrderbook::from_snapshot(depth(
        "M",
        10,
        10,
        vec![level(40, 5), level(38, 2)],
        vec![level(45, 1), level(50, 3)],
    ));
    assert_eq!(book.last_update_id, 10);
    let snap = book.snapshot("M".to_string());
    assert_eq!(snap.id, "M");
    assert_eq!(snap.mid, Some(85));
    assert_eq!(snap.ts, 10);
}

#[test]
fn orderbook_sequence_classifies_diffs() {
    let book = GeminiOrderbook::from_snapshot(depth("M", 10, 10, vec![], vec![]));
    assert_eq!(book.sequence(&depth("M", 5, 10, vec![], vec![])), OrderbookSequence::Stale);
    assert_eq!(book.sequence(&depth("M", 11, 12, vec![], vec![])), OrderbookSequence::Valid);
    assert_eq!(book.sequence(&depth("M", 8, 12, vec![], vec![])), OrderbookSequence::Valid);
    assert_eq!(book.sequence(&depth("M", 13, 14, vec![], vec![])), OrderbookSequence::Gap);
    assert!(book.corrupted(depth("M", 13, 14, vec![], vec![])));
    assert!(!book.corrupted(depth("M", 11, 14, vec![], vec![])));
}

#[test]
fn orderbook_update_applies_levels_and_zero_clears() {
    let mut book = GeminiOrderbook::from_snapshot(depth(
        "M",
        10,
        10,
        vec![level(40, 5)],
        vec![level(45, 1)],
    ));
    book.update(depth("M", 11, 12, vec![level(40, 0), level(41, 7)], vec![level(44, 2)]));
    assert_eq!(book.last_update_id, 12);
    assert_eq!(book.bids.get(&40), None);
    assert_eq!(book.bids.get(&41), Some(&7));
    assert_eq!(book.asks.get(&44), Some(&2));
    assert_eq!(book.snapshot("M".to_string()).mid, Some(85));
    // the same diff again is stale
    assert_eq!(
        book.sequence(&depth("M", 11, 12, vec![], vec![])),
        OrderbookSequence::Stale
    );
}

#[test]
fn orderbook_mid_needs_both_sides() {
    let book = GeminiOrderbook::from_snapshot(depth("M", 1, 1, vec![level(40, 5)], vec![]));
    assert_eq!(book.snapshot("M".to_string()).mid, None);
}

#[test]
fn orderbook_snapshot_keeps_last_listing_of_a_price() {
    let book = GeminiOrderbook::from_snapshot(depth(
        "M",
        1,
        1,
        vec![level(40, 5), level(40, 9)],
        vec![],
    ));
    assert_eq!(book.bids.get(&40), Some(&9));
}

// ── parser and router ───────────────────────────────────────────────────────

#[test]
fn parser_tells_messages_apart() {
    let parser = GeminiParser::new();
    assert_eq!(
        parser.classify(br#"{"e":"depthUpdate","s":"X"}"#),
        MessageKind::L2DifferentialDepth
    );
    assert_eq!(
        parser.classify(br#"{"e":"contractStatus","s":"X"}"#),
        MessageKind::ContractStatus
    );
    assert_eq!(
        parser.classify(br#"{"e":"balanceUpdate"}"#),
        MessageKind::BalanceUpdate
    );
    assert_eq!(
        parser.classify(br#"{"id":"1","status":400,"error":{"code":2,"msg":"bad"}}"#),
        MessageKind::SubscriptionError
    );
    assert_eq!(parser.classify(br#"{"error":"no code"}"#), MessageKind::Unknown);
    assert_eq!(parser.classify(br#"{"result":null}"#), MessageKind::Unknown);
}

#[test]
fn parser_prefers_depth_over_other_keys() {
    let parser = GeminiParser::new();
    assert_eq!(
        parser.classify(br#"{"e":"depthUpdate","x":"balanceUpdate"}"#),
        MessageKind::L2DifferentialDepth
    );
}

#[test]
fn settled_status_text() {
    assert!(settled(&"Settled".to_string()));
    assert!(!settled(&"settled".to_string()));
    assert!(!settled(&"Open".to_string()));
}

#[test]
fn router_sends_depth_to_the_books() {
    match route_message(Message::L2DifferentialDepth(depth("M", 3, 3, vec![], vec![]))) {
        Routed::Orderbook(OrderbookUpdate::Snapshot { key, data }) => {
            assert_eq!(key, "M");
            assert_eq!(data.last_update_id, 3);
        }
        _ => panic!("expected a snapshot"),
    }
    match route_message(Message::L2DifferentialDepth(depth("M", 3, 4, vec![], vec![]))) {
        Routed::Orderbook(OrderbookUpdate::Diff { key, .. }) => assert_eq!(key, "M"),
        _ => panic!("expected a diff"),
    }
}

#[test]
fn router_ends_the_book_of_a_settled_contract() {
    match route_message(Message::ContractStatus(status("M", "E", "Open", "Settled"))) {
        Routed::ContractStatus { terminal: Some(OrderbookUpdate::Terminal(key)), status } => {
            assert_eq!(key, "M");
            assert_eq!(status.symbol, "M");
        }
        _ => panic!("expected a terminal"),
    }
    match route_message(Message::ContractStatus(status("M", "E", "Open", "Closed"))) {
        Routed::ContractStatus { terminal: None, .. } => {}
        _ => panic!("expected no terminal"),
    }
}

#[test]
fn router_other_messages() {
    let balance = BalanceUpdate {
        update_ts: 1,
        balance_update: vec![AssetBalance { asset: "USD".to_string(), balance: "1".to_string() }],
    };
    assert!(matches!(route_message(Message::BalanceUpdate(balance)), Routed::Balance(_)));
    let error = SubscriptionError {
        id: "1".to_string(),
        status: 400,
        error: SubscriptionErrorMsg { code: 3, msg: "no".to_string() },
    };
    assert!(matches!(route_message(Message::SubscriptionError(error)), Routed::SubscriptionError(_)));
    assert!(matches!(route_message(Message::Unknown), Routed::Dropped));
}

// ── responses ───────────────────────────────────────────────────────────────

#[test]
fn contract_ids() {
    assert_eq!(gemini_contract_id("12345-6"), Some(ContractId { parent: 1234, child: 6 }));
    assert_eq!(gemini_contract_id("10-20"), Some(ContractId { parent: 1, child: 20 }));
    assert_eq!(gemini_contract_id("123"), None);
    assert_eq!(gemini_contract_id("-5"), None);
    assert_eq!(gemini_contract_id("1-x"), None);
    assert_eq!(gemini_contract_id("1-2"), None);
}

#[test]
fn decimal_text_to_u32() {
    assert_eq!(string_to_u32("0"), Some(0));
    assert_eq!(string_to_u32("4294967295"), Some(u32::MAX));
    assert_eq!(string_to_u32("4294967296"), None);
    assert_eq!(string_to_u32("+12"), Some(12));
    assert_eq!(string_to_u32(""), None);
    assert_eq!(string_to_u32("+"), None);
    assert_eq!(string_to_u32("-1"), None);
    assert_eq!(string_to_u32("1a"), None);
}

#[test]
fn pagination_steps_by_the_limit_until_the_total() {
    assert_eq!(PAGE_LIMIT, 50);
    assert_eq!(next_page_offset(0, 50, 120), Some(50));
    assert_eq!(next_page_offset(50, 50, 120), Some(100));
    assert_eq!(next_page_offset(100, 50, 120), None);
    assert_eq!(next_page_offset(0, 50, 50), None);
    assert_eq!(next_page_offset(0, 50, 0), None);
}

#[test]
fn stringified_lists() {
    assert_eq!(
        parse_stringified_vec(r#"["123","456"]"#),
        Some(vec!["123".to_string(), "456".to_string()])
    );
    assert_eq!(parse_stringified_vec("[]"), Some(vec![]));
    assert_eq!(parse_stringified_vec("Yes"), None);
    assert_eq!(parse_stringified_vec("[1,2]"), None);
}

#[test]
fn urls() {
    assert_eq!(events_url(), "https://api.gemini.com/v1/prediction-markets/events");
    assert_eq!(
        event_url("ELECTION"),
        "https://api.gemini.com/v1/prediction-markets/events/ELECTION"
    );
}

#[test]
fn contract_update_takes_expiry_and_state() {
    let mut c = contract("A");
    let mut newer = contract("A");
    newer.expiry_date = Some(200);
    newer.market_state = Some("closed".to_string());
    newer.status = "other".to_string();
    c.update(newer);
    assert_eq!(c.expiry_date, Some(200));
    assert_eq!(c.market_state.as_deref(), Some("closed"));
    assert_eq!(c.status, "active");
}

#[test]
fn strike_update_takes_value_and_availability() {
    let mut s = Strike { value: Some("1".to_string()), strike_type: "above".to_string(), available_at: None };
    s.update(Strike { value: Some("2".to_string()), strike_type: "below".to_string(), available_at: Some(5) });
    assert_eq!(s.value.as_deref(), Some("2"));
    assert_eq!(s.available_at, Some(5));
    assert_eq!(s.strike_type, "above");
}

#[test]
fn contracts_are_equal_by_symbol() {
    let mut other = contract("A");
    other.status = "x".to_string();
    assert!(contract("A") == other);
    assert!(contract("A") != contract("B"));
}

#[test]
fn take_contracts_leaves_none() {
    let mut e = event(Category::Crypto, None, vec![contract("A"), contract("B")]);
    let cs = e.take_contracts();
    assert_eq!(cs.len(), 2);
    assert!(e.contracts.is_empty());
}

// ── markets ─────────────────────────────────────────────────────────────────

#[test]
fn markets_of_an_event() {
    let e = event(
        Category::Sports,
        Some(vec!["nba".to_string(), "finals".to_string()]),
        vec![contract("A"), contract("B")],
    );
    let markets = markets_of(e);
    assert_eq!(markets.len(), 2);
    assert_eq!(markets[0].contract_id(), "A");
    assert_eq!(markets[1].id(), "B");
    assert!(markets[0].event.contracts.is_empty());
    assert!(Arc::ptr_eq(&markets[0].event, &markets[1].event));
    assert_eq!(markets[0].category().as_ref(), "sports");
    assert_eq!(markets[0].context(), Some("nba finals".to_string()));
    assert_eq!(markets[0].timeframe(), TimeFrame::Discrete { start: 1_000, end: 5_000 });
}

#[test]
fn market_without_tags_or_start() {
    let mut e = event(Category::Other("politics".to_string()), None, vec![]);
    e.start_time = None;
    let m = BinaryPredictionMarket::new(Arc::new(e), contract("Z"));
    assert_eq!(m.context(), None);
    assert_eq!(m.timeframe(), TimeFrame::ExpiresAt { end: 5_000 });
    assert_eq!(m.category().as_ref(), "politics");
}

// ── metadata store and subscriptions ────────────────────────────────────────

#[test]
fn metadata_repo_fetches_once_and_forgets_settled() {
    let mut repo = MetaDataRepo::new();
    match repo.on_status(&status("A", "EVT", "Open", "Open")) {
        MetadataAction::Fetch { event_ticker } => assert_eq!(event_ticker, "EVT"),
        _ => panic!("expected a fetch"),
    }
    repo.record("A".to_string());
    assert!(repo.contains(&"A".to_string()));
    assert!(matches!(repo.on_status(&status("A", "EVT", "Open", "Open")), MetadataAction::Nothing));
    match repo.on_status(&status("A", "EVT", "Open", "Settled")) {
        MetadataAction::Remove(s) => assert_eq!(s, "A"),
        _ => panic!("expected a removal"),
    }
    assert!(!repo.contains(&"A".to_string()));
}

#[test]
fn subscription_manager_subscribes_once() {
    let mut mgr = SubscriptionManager::new();
    match mgr.handle_status_msg(&status("A", "E", "Open", "Open")) {
        SubscriptionAction::Subscribe(s) => assert_eq!(s, "A"),
        _ => panic!("expected a subscription"),
    }
    mgr.confirm_subscribed("A".to_string());
    assert!(matches!(
        mgr.handle_status_msg(&status("A", "E", "Open", "Open")),
        SubscriptionAction::Nothing
    ));
    match mgr.handle_status_msg(&status("A", "E", "Open", "Settled")) {
        SubscriptionAction::Unsubscribe(s) => assert_eq!(s, "A"),
        _ => panic!("expected an unsubscription"),
    }
    // a settled book is forgotten: it would be subscribed again
    assert!(matches!(
        mgr.handle_status_msg(&status("A", "E", "Open", "Open")),
        SubscriptionAction::Subscribe(_)
    ));
}

#[test]
fn subscription_manager_steps() {
    let mut mgr = SubscriptionManager::new();
    match mgr.step(ManagerEvent::Resubscribe(Some("A".to_string()))) {
        ManagerAction::Send(Payload::Batch(items)) => {
            assert_eq!(items.len(), 2);
            assert!(matches!(&items[0], Subscriptions::Unsubscribe(Stream::DifferentialDepth(s)) if s == "A"));
            assert!(matches!(&items[1], Subscriptions::Subscribe(Stream::DifferentialDepth(s)) if s == "A"));
        }
        _ => panic!("expected a batch"),
    }
    let error = SubscriptionError {
        id: "9".to_string(),
        status: 400,
        error: SubscriptionErrorMsg { code: 1, msg: "bad".to_string() },
    };
    match mgr.step(ManagerEvent::SubscriptionError(Some(error))) {
        ManagerAction::Report(e) => assert_eq!(e.id, "9"),
        _ => panic!("expected a report"),
    }
    assert!(matches!(
        mgr.step(ManagerEvent::ContractStatus(Some(status("B", "E", "Open", "Open")))),
        ManagerAction::Status(SubscriptionAction::Subscribe(_))
    ));
    assert!(matches!(mgr.step(ManagerEvent::Cancelled), ManagerAction::Stop));
    assert!(matches!(mgr.step(ManagerEvent::Resubscribe(None)), ManagerAction::Stop));
    assert!(matches!(mgr.step(ManagerEvent::SubscriptionError(None)), ManagerAction::Stop));
    assert!(matches!(mgr.step(ManagerEvent::ContractStatus(None)), ManagerAction::Stop));
}

#[test]
fn subscription_payloads() {
    assert!(matches!(
        subscribe_payload("A".to_string()),
        Payload::Single(Subscriptions::Subscribe(Stream::DifferentialDepth(s))) if s == "A"
    ));
    assert!(matches!(
        unsubscribe_payload("A".to_string()),
        Payload::Single(Subscriptions::Unsubscribe(Stream::DifferentialDepth(s))) if s == "A"
    ));
    assert!(matches!(resubscribe_payload("A".to_string()), Payload::Batch(v) if v.len() == 2));
    assert!(matches!(
        static_streams_payload(),
        Payload::Single(Subscriptions::Subscribe(Stream::ContractStatus))
    ));
}
