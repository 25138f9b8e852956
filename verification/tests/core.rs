use std::sync::Arc;

use coinflip::bookkeeper::{BookAction, BookKeeper};
use coinflip::common::{OrderbookSnapshot, OrderbookUpdate};
use coinflip::gemini::messages::{L2DifferentialDepth, PriceLevel, Stream, Subscriptions};
use coinflip::gemini::orderbook::GeminiOrderbook;
use coinflip::gemini::responses::{Contract, ContractId, Event};
use coinflip::gemini::ticker::{TickerParser, TickerParts};
use coinflip::gemini::types::{markets_of, BinaryPredictionMarket};
use coinflip::utils::patterns::Pattern;
use coinflip::metadata::Category;
use coinflip::session::{
    after_session, Payload, Priority, PriorityQueue, Reconnect, Request, Session, SessionAction,
    SessionEvent, RETRY_INTERVAL_SECS,
};
use coinflip::stats::engine::StatsEngine;
use coinflip::stats::matcher::{MetadataTransportMsg, StructuralCorrelation, StructuralCorrelationGraph};
use coinflip::stats::observation::{Observation, Timescale};
use coinflip::stats::stratify::{Stratified, Stratifier};
use coinflip::stats::TransportMsg;
use coinflip::traits::Prioritize;
use coinflip::utils::normalization::Normalizer;
use coinflip::utils::parsing::{first_index, join, lowercase, parse_u32};
use coinflip::ws::{nesting_fits, reader_step, split_json_array, ReaderAction, ReaderEvent, ReaderStop};

// ── session ─────────────────────────────────────────────────────────────────

struct Job(Priority);

impl Prioritize for Job {
    fn spec_priority(&self) -> Priority {
        self.0
    }

    fn priority(&self) -> Priority {
        self.0
    }
}

fn request(p: Priority) -> Request<Job> {
    Request { priority: p, payload: Payload::Single(Job(p)) }
}

#[test]
fn priority_ranks() {
    assert_eq!(Priority::Low.rank(), 0);
    assert_eq!(Priority::Normal.rank(), 1);
    assert_eq!(Priority::High.rank(), 2);
    assert_eq!(Priority::Critial.rank(), 3);
}

#[test]
fn request_from_single_payload_takes_its_priority() {
    let r = Request::from(Payload::Single(Job(Priority::High)));
    assert_eq!(r.priority, Priority::High);
}

#[test]
fn request_from_batch_takes_the_highest_priority() {
    let r = Request::from(Payload::Batch(vec![
        Job(Priority::Normal),
        Job(Priority::Critial),
        Job(Priority::Low),
    ]));
    assert_eq!(r.priority, Priority::Critial);
    let empty: Request<Job> = Request::from(Payload::Batch(vec![]));
    assert_eq!(empty.priority, Priority::Low);
}

#[test]
fn subscriptions_are_low_priority() {
    let r = Request::from(Payload::Single(Subscriptions::Subscribe(Stream::Balance)));
    assert_eq!(r.priority, Priority::Low);
}

#[test]
fn requests_are_equal_by_priority() {
    assert!(request(Priority::High) == request(Priority::High));
    assert!(request(Priority::High) != request(Priority::Low));
}

#[test]
fn requests_are_ordered_by_priority() {
    assert!(request(Priority::High) > request(Priority::Low));
    assert!(request(Priority::Normal) < request(Priority::Critial));
    assert_eq!(request(Priority::Low).partial_cmp(&request(Priority::Low)), Some(std::cmp::Ordering::Equal));
}

#[test]
fn priority_queue_pops_most_urgent_first_then_earliest() {
    let mut q: PriorityQueue<Job> = PriorityQueue::with_capacity(4);
    assert!(q.pop().is_none());
    q.push(request(Priority::Normal));
    q.push(Request { priority: Priority::High, payload: Payload::Batch(vec![]) });
    q.push(request(Priority::Low));
    q.push(request(Priority::High));
    assert_eq!(q.len(), 4);
    let first = q.pop().unwrap();
    assert_eq!(first.priority, Priority::High);
    assert!(matches!(first.payload, Payload::Batch(_)));
    assert_eq!(q.pop().unwrap().priority, Priority::High);
    assert_eq!(q.pop().unwrap().priority, Priority::Normal);
    assert_eq!(q.pop().unwrap().priority, Priority::Low);
    assert!(q.pop().is_none());
}

#[test]
fn session_sends_each_payload_as_it_comes() {
    let mut s: Session<Job> = Session::new();
    match s.step(SessionEvent::Request(Some(Payload::Single(Job(Priority::Normal))))) {
        SessionAction::Send(r) => assert_eq!(r.priority, Priority::Normal),
        _ => panic!("expected a send"),
    }
    assert!(s.forward_from_queue().is_none());
}

#[test]
fn session_exits_on_every_other_event() {
    let mut s: Session<Job> = Session::new();
    assert!(matches!(s.step(SessionEvent::Cancelled), SessionAction::Exit));
    assert!(matches!(s.step(SessionEvent::WriterEnded), SessionAction::Exit));
    assert!(matches!(s.step(SessionEvent::ReaderEnded), SessionAction::Exit));
    assert!(matches!(s.step(SessionEvent::SendFailed), SessionAction::Exit));
    assert!(matches!(s.step(SessionEvent::Request(None)), SessionAction::Exit));
}

#[test]
fn manager_reconnects_unless_cancelled() {
    assert_eq!(after_session(true), Reconnect::Stop);
    assert_eq!(after_session(false), Reconnect::After { secs: 1 });
    assert_eq!(RETRY_INTERVAL_SECS, 1);
}

// ── stratifier and statistics ───────────────────────────────────────────────

fn obs(id: &str, ts: u64) -> Observation<u32> {
    Observation { id: id.to_string(), ts, timescale: Timescale::Millis, value: 0, stratified: Stratified::Unstratified }
}

#[test]
fn stratify_counts_buckets_from_the_earliest_timestamp() {
    let mut s = Stratifier::new();
    let mut a = obs("a", 1_000);
    s.stratify(&mut a, 100);
    assert_eq!(a.stratified, Stratified::Time { bucket: 0 });
    let mut b = obs("b", 1_250);
    s.stratify(&mut b, 100);
    assert_eq!(b.stratified, Stratified::Time { bucket: 2 });
    // an earlier timestamp becomes the origin
    let mut c = obs("c", 900);
    s.stratify(&mut c, 100);
    assert_eq!(c.stratified, Stratified::Time { bucket: 0 });
    let mut d = obs("d", 1_250);
    s.stratify(&mut d, 100);
    assert_eq!(d.stratified, Stratified::Time { bucket: 3 });
}

#[test]
fn stratify_many_uses_the_batch_minimum() {
    let mut s = Stratifier::new();
    let mut matrix = vec![vec![obs("a", 500), obs("a", 700)], vec![], vec![obs("b", 300)]];
    s.stratify_many(&mut matrix, 100);
    assert_eq!(matrix[0][0].stratified, Stratified::Time { bucket: 2 });
    assert_eq!(matrix[0][1].stratified, Stratified::Time { bucket: 4 });
    assert_eq!(matrix[2][0].stratified, Stratified::Time { bucket: 0 });
    assert_eq!(matrix[1].len(), 0);
}

#[test]
fn stats_engine_keeps_rows_by_book() {
    let mut engine = StatsEngine::new();
    assert!(engine.can_take(&"m".to_string()));
    engine.handle(TransportMsg::HandleData(OrderbookSnapshot { id: "m".to_string(), mid: Some(85), ts: 5_000_000_000 }));
    engine.handle(TransportMsg::HandleData(OrderbookSnapshot { id: "m".to_string(), mid: None, ts: 205_000_000_000 }));
    engine.handle(TransportMsg::RemoveData("m".to_string()));
    assert!(engine.can_take(&"m".to_string()));
}

// ── matcher ─────────────────────────────────────────────────────────────────

fn contract(symbol: &str) -> Contract {
    Contract {
        id: ContractId { parent: 1, child: 1 },
        status: "active".to_string(),
        expiry_date: None,
        resolution_side: None,
        instrument_symbol: symbol.to_string(),
        market_state: None,
        team_id: None,
        strike: None,
        source: None,
    }
}

fn market(symbol: &str, category: Category, tags: Option<Vec<&str>>) -> BinaryPredictionMarket {
    let event = Event {
        id: 1,
        event_type: "binary".to_string(),
        category,
        ticker: "E".to_string(),
        status: "active".to_string(),
        contracts: vec![],
        expiry_date: 10,
        start_time: None,
        tags: tags.map(|t| t.into_iter().map(|s| s.to_string()).collect()),
    };
    BinaryPredictionMarket::new(Arc::new(event), contract(symbol))
}

fn correlation_with(g: &StructuralCorrelationGraph<BinaryPredictionMarket>, a: &str, b: &str) -> Option<StructuralCorrelation> {
    g.similarities(a)?.into_iter().find(|(id, _)| *id == b).map(|(_, c)| *c)
}

#[test]
fn correlation_of_two_markets() {
    let x = market("x", Category::Crypto, Some(vec!["btc"]));
    let y = market("y", Category::Crypto, Some(vec!["eth"]));
    let z = market("z", Category::Sports, None);
    let xy = StructuralCorrelation::compute(&x, &y);
    assert_eq!(xy.categorical_similarity, Some(1));
    assert_eq!(xy.semantic_similarity, Some(0));
    assert_eq!(xy.agg_similarity_halves, 1);
    let xz = StructuralCorrelation::compute(&x, &z);
    assert_eq!(xz.categorical_similarity, Some(0));
    assert_eq!(xz.semantic_similarity, None);
    assert_eq!(xz.agg_similarity_halves, 0);
    let xx = StructuralCorrelation::compute(&x, &x);
    assert_eq!(xx.agg_similarity_halves, 2);
    assert_eq!(StructuralCorrelation::compute(&y, &x), xy);
}

#[test]
fn graph_links_every_market_to_every_other() {
    let mut g = StructuralCorrelationGraph::new();
    g.insert(market("a", Category::Crypto, Some(vec!["btc"])));
    g.insert(market("b", Category::Crypto, Some(vec!["btc"])));
    g.insert(market("c", Category::Weather, None));
    let sa = g.similarities("a").unwrap();
    assert_eq!(sa.len(), 2);
    let ab = correlation_with(&g, "a", "b").unwrap();
    assert_eq!(ab.agg_similarity_halves, 2);
    assert_eq!(correlation_with(&g, "b", "a").unwrap(), ab);
    assert_eq!(correlation_with(&g, "c", "a").unwrap().agg_similarity_halves, 0);
    assert!(g.similarities("zz").is_none());
}

#[test]
fn graph_insert_keeps_the_first_market_of_an_id() {
    let mut g = StructuralCorrelationGraph::new();
    g.insert(market("a", Category::Crypto, None));
    g.insert(market("b", Category::Crypto, None));
    g.insert(market("a", Category::Sports, None));
    assert_eq!(g.similarities("b").unwrap().len(), 1);
    assert_eq!(correlation_with(&g, "a", "b").unwrap().categorical_similarity, Some(1));
}

#[test]
fn graph_remove_drops_every_link() {
    let mut g = StructuralCorrelationGraph::new();
    g.insert(market("a", Category::Crypto, None));
    g.insert(market("b", Category::Crypto, None));
    g.insert(market("c", Category::Crypto, None));
    g.remove("b");
    assert!(g.similarities("b").is_none());
    let sa = g.similarities("a").unwrap();
    assert_eq!(sa.len(), 1);
    assert_eq!(sa[0].0, "c");
    // a freed slot is used again
    g.insert(market("d", Category::Sports, None));
    assert_eq!(g.similarities("d").unwrap().len(), 2);
    assert_eq!(g.similarities("a").unwrap().len(), 2);
    g.remove("missing");
    assert_eq!(g.similarities("a").unwrap().len(), 2);
}

#[test]
fn graph_remove_undoes_insert() {
    let mut g = StructuralCorrelationGraph::new();
    g.insert(market("a", Category::Crypto, Some(vec!["x"])));
    g.insert(market("b", Category::Sports, None));
    let before = g.similarities("a").unwrap().into_iter().map(|(id, c)| (id.to_string(), *c)).collect::<Vec<_>>();
    g.insert(market("c", Category::Crypto, None));
    g.remove("c");
    let after = g.similarities("a").unwrap().into_iter().map(|(id, c)| (id.to_string(), *c)).collect::<Vec<_>>();
    assert_eq!(before, after);
    assert!(g.similarities("c").is_none());
}

#[test]
fn graph_handles_messages() {
    let mut g = StructuralCorrelationGraph::new();
    g.handle(MetadataTransportMsg::from(market("a", Category::Crypto, None)));
    g.handle(MetadataTransportMsg::Insert(market("b", Category::Crypto, None)));
    g.handle(MetadataTransportMsg::Update(market("a", Category::Sports, None)));
    assert_eq!(correlation_with(&g, "b", "a").unwrap().categorical_similarity, Some(0));
    g.handle(MetadataTransportMsg::Remove("a".to_string()));
    assert_eq!(g.similarities("b").unwrap().len(), 0);
}

#[test]
fn graph_from_markets_of_an_event() {
    let event = Event {
        id: 1,
        event_type: "binary".to_string(),
        category: Category::Crypto,
        ticker: "E".to_string(),
        status: "active".to_string(),
        contracts: vec![contract("p"), contract("q")],
        expiry_date: 10,
        start_time: None,
        tags: Some(vec!["x".to_string()]),
    };
    let mut g = StructuralCorrelationGraph::new();
    for m in markets_of(event) {
        g.insert(m);
    }
    assert_eq!(correlation_with(&g, "p", "q").unwrap().agg_similarity_halves, 2);
}

// ── book keeper ─────────────────────────────────────────────────────────────

type Keeper = BookKeeper<GeminiOrderbook, L2DifferentialDepth, L2DifferentialDepth>;

fn depth(symbol: &str, first: u64, last: u64, bids: Vec<PriceLevel>) -> L2DifferentialDepth {
    L2DifferentialDepth { symbol: symbol.to_string(), first_update_id: first, last_update_id: last, bids, asks: vec![PriceLevel { price: 60, qty: 1 }] }
}

#[test]
fn book_keeper_forwards_valid_diffs() {
    let mut k = Keeper::new();
    let key = "m".to_string();
    assert!(k.snapshot_fits(&key));
    assert!(matches!(
        k.handle(OrderbookUpdate::Snapshot { key: key.clone(), data: depth("m", 10, 10, vec![PriceLevel { price: 40, qty: 1 }]) }),
        BookAction::Nothing
    ));
    match k.handle(OrderbookUpdate::Diff { key: key.clone(), data: depth("m", 11, 11, vec![PriceLevel { price: 42, qty: 3 }]) }) {
        BookAction::Forward(s) => {
            assert_eq!(s.id, "m");
            assert_eq!(s.mid, Some(102));
            assert_eq!(s.ts, 11);
        }
        _ => panic!("expected a forward"),
    }
    assert!(matches!(
        k.handle(OrderbookUpdate::Diff { key: key.clone(), data: depth("m", 11, 11, vec![]) }),
        BookAction::Nothing
    ));
}

#[test]
fn book_keeper_asks_again_after_a_gap_and_waits_for_a_snapshot() {
    let mut k = Keeper::new();
    let key = "m".to_string();
    k.handle_snapshot(key.clone(), depth("m", 10, 10, vec![]));
    match k.handle_diff(key.clone(), depth("m", 20, 21, vec![])) {
        BookAction::Resubscribe(s) => assert_eq!(s, "m"),
        _ => panic!("expected a resubscription"),
    }
    assert!(matches!(k.handle_diff(key.clone(), depth("m", 11, 11, vec![])), BookAction::Nothing));
    assert!(k.snapshot_fits(&key));
    k.handle_snapshot(key.clone(), depth("m", 30, 30, vec![PriceLevel { price: 50, qty: 2 }]));
    match k.handle_diff(key.clone(), depth("m", 31, 31, vec![])) {
        BookAction::Forward(s) => assert_eq!(s.mid, Some(110)),
        _ => panic!("expected a forward"),
    }
}

#[test]
fn book_keeper_asks_for_an_unknown_book() {
    let mut k = Keeper::new();
    match k.handle_diff("x".to_string(), depth("x", 1, 1, vec![])) {
        BookAction::Resubscribe(s) => assert_eq!(s, "x"),
        _ => panic!("expected a resubscription"),
    }
}

#[test]
fn book_keeper_terminal_drops_the_book() {
    let mut k = Keeper::new();
    k.handle_snapshot("m".to_string(), depth("m", 1, 1, vec![]));
    match k.handle(OrderbookUpdate::Terminal("m".to_string())) {
        BookAction::ForwardTerminal(s) => assert_eq!(s, "m"),
        _ => panic!("expected a terminal"),
    }
    assert!(matches!(k.handle_diff("m".to_string(), depth("m", 2, 2, vec![])), BookAction::Resubscribe(_)));
    k.reset_books();
    assert!(k.snapshot_fits(&"m".to_string()));
}

// ── text ────────────────────────────────────────────────────────────────────

#[test]
fn split_json_array_returns_each_object() {
    let raw = r#"[{"a":1},{"b":{"c":"}"}},{"d":"\"{"}]"#;
    let parts = split_json_array(raw);
    assert_eq!(parts, vec![r#"{"a":1}"#, r#"{"b":{"c":"}"}}"#, r#"{"d":"\"{"}"#]);
}

#[test]
fn split_json_array_gives_back_joined_objects() {
    let objs = vec![r#"{}"#, r#"{"x":[1,{"y":"\\"}]}"#, r#"{"z":"{\"}"}"#];
    let raw = format!("[{}]", objs.join(","));
    assert_eq!(split_json_array(&raw), objs);
}

#[test]
fn reader_decides_per_event() {
    assert!(matches!(reader_step(ReaderEvent::TextFrame), ReaderAction::Parse));
    assert!(matches!(reader_step(ReaderEvent::BinaryFrame), ReaderAction::Parse));
    assert!(matches!(
        reader_step(ReaderEvent::CloseFrame),
        ReaderAction::Stop(ReaderStop::ClosedByServer)
    ));
    assert!(matches!(reader_step(ReaderEvent::ReadFailed), ReaderAction::Stop(ReaderStop::ReadError)));
    assert!(matches!(reader_step(ReaderEvent::RouteFailed), ReaderAction::Stop(ReaderStop::RouteError)));
    assert!(matches!(reader_step(ReaderEvent::ParseFailed), ReaderAction::LogParseError));
    assert!(matches!(reader_step(ReaderEvent::OtherFrame), ReaderAction::Next));
    assert!(matches!(reader_step(ReaderEvent::Routed), ReaderAction::Next));
}

#[test]
fn nesting_of_ordinary_texts_fits() {
    assert!(nesting_fits(r#"[{"a":{"b":[{}]}},{"c":"{{{"}]"#));
    assert!(nesting_fits("}}}{{"));
    assert!(nesting_fits(""));
}

#[test]
fn split_json_array_of_no_objects() {
    assert!(split_json_array("[]").is_empty());
    assert!(split_json_array("").is_empty());
    assert!(split_json_array("[1,2]").is_empty());
}

#[test]
fn categories_by_name() {
    assert_eq!(Category::Sports.as_ref(), "sports");
    assert_eq!(Category::Commodities.as_ref(), "commodity");
    assert!(matches!(Category::from_raw("Sport"), Category::Sports));
    assert!(matches!(Category::from_raw("CRYPTO"), Category::Crypto));
    assert!(matches!(Category::from_raw("commodities"), Category::Commodities));
    assert!(matches!(Category::from_raw("Weather"), Category::Weather));
    match Category::from_raw("Politics") {
        Category::Other(s) => assert_eq!(s, "politics"),
        _ => panic!("expected other"),
    }
    for c in [Category::Sports, Category::Crypto, Category::Commodities, Category::Weather] {
        assert!(Category::from_raw(c.as_ref()).same(&c));
    }
    assert!(Category::Other("x".to_string()).same(&Category::Other("x".to_string())));
    assert!(!Category::Other("x".to_string()).same(&Category::Other("y".to_string())));
    assert!(Category::Weather.duplicate().same(&Category::Weather));
}

#[test]
fn join_and_lowercase() {
    assert_eq!(join(&vec!["a".to_string(), "b".to_string(), "c".to_string()], " "), "a b c");
    assert_eq!(join(&vec![], ", "), "");
    assert_eq!(join(&vec!["one".to_string()], ", "), "one");
    assert_eq!(lowercase("MiXeD"), "mixed");
}

#[test]
fn parse_u32_of_a_range() {
    let b = b"ab123cd";
    assert_eq!(parse_u32(b, 2, 5), Some(123));
    assert_eq!(parse_u32(b, 2, 2), None);
    assert_eq!(parse_u32(b, 0, 3), None);
    assert_eq!(first_index(b, b'c'), Some(5));
    assert_eq!(first_index(b, b'z'), None);
}

#[test]
fn normalizer_spaces_words() {
    let n = Normalizer::new().unwrap();
    assert_eq!(n.normalize("Will BTC hit $100k?!"), "Will BTC hit 100k ");
    assert_eq!(n.normalize("a--b"), "a b");
}

#[test]
fn patterns_compile_capture_and_replace() {
    assert!(Pattern::new("(").is_none());
    let p = Pattern::new("a(b)?(c)").unwrap();
    assert_eq!(p.captures("xacx"), Some(vec![Some("ac".to_string()), None, Some("c".to_string())]));
    assert_eq!(p.captures("xyz"), None);
    assert_eq!(p.replace_all("abc-ac", "_"), "_-_");
}

#[test]
fn crypto_tickers() {
    let t = TickerParser::new().unwrap();
    let c = t.parse_crypto_ticker("gemi-btc15m2601011200-hi95000d5").unwrap();
    assert_eq!(c.symbol.as_deref(), Some("btc"));
    assert_eq!(c.interval.as_deref(), Some("15m"));
    assert_eq!(c.id.as_deref(), Some("2601011200"));
    assert_eq!(c.mode.as_deref(), Some("hi95000d5"));
    assert_eq!(c.hi_detail.as_deref(), Some("95000d5"));
    let up = t.parse_crypto_ticker("gemi-eth2601011200-up").unwrap();
    assert_eq!(up.interval, None);
    assert_eq!(up.mode.as_deref(), Some("up"));
    assert_eq!(up.hi_detail, None);
    assert!(t.parse_crypto_ticker("gemi-btc-up").is_none());
}

#[test]
fn sports_tickers() {
    let t = TickerParser::new().unwrap();
    let (team, individual) = t.parse_sports_ticker("gemi-nba-2601011200-lal-bos-winner-lal");
    assert_eq!(team.map(|g| g.len()), Some(1));
    assert_eq!(individual, None);
    let (team, individual) = t.parse_sports_ticker("gemi-tennis-atp-final-20260101-sinner");
    assert_eq!(team, None);
    assert_eq!(individual, Some(vec![Some("gemi-tennis-atp-final-20260101-sinner".to_string())]));
}

#[test]
fn tickers_by_category() {
    let t = TickerParser::new().unwrap();
    assert!(matches!(
        t.parse(&market("gemi-eth2601011200-up", Category::Crypto, None)),
        TickerParts::Crypto(Some(_))
    ));
    assert!(matches!(
        t.parse(&market("gemi-nba-2601011200-lal-bos-winner-lal", Category::Sports, None)),
        TickerParts::Sports { team: Some(_), individual: None }
    ));
    assert!(matches!(t.parse(&market("x", Category::Weather, None)), TickerParts::Other));
}

fn listed(g: &StructuralCorrelationGraph<BinaryPredictionMarket>, id: &str) -> Vec<(String, u8)> {
    g.similarities(id).unwrap().into_iter().map(|(x, c)| (x.to_string(), c.agg_similarity_halves)).collect()
}

#[test]
fn graph_insert_appends_one_link_to_each_list() {
    let mut g = StructuralCorrelationGraph::new();
    g.insert(market("a", Category::Crypto, None));
    g.insert(market("b", Category::Sports, None));
    g.insert(market("c", Category::Crypto, None));
    assert_eq!(listed(&g, "a"), vec![("b".to_string(), 0), ("c".to_string(), 1)]);
    assert_eq!(listed(&g, "b"), vec![("a".to_string(), 0), ("c".to_string(), 0)]);
    // a second market with a known id changes nothing
    g.insert(market("c", Category::Sports, None));
    assert_eq!(listed(&g, "a"), vec![("b".to_string(), 0), ("c".to_string(), 1)]);
}

#[test]
fn graph_remove_keeps_the_order_of_the_rest() {
    let mut g = StructuralCorrelationGraph::new();
    for id in ["a", "b", "c", "d"] {
        g.insert(market(id, Category::Crypto, None));
    }
    g.remove("b");
    assert_eq!(listed(&g, "a"), vec![("c".to_string(), 1), ("d".to_string(), 1)]);
    assert_eq!(listed(&g, "d"), vec![("a".to_string(), 1), ("c".to_string(), 1)]);
}
