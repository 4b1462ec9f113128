use orderbook_feed::decimal::Decimal;
use orderbook_feed::error::FeedError;
use orderbook_feed::exchanges::binance::{Binance, DepthEvent};
use orderbook_feed::exchanges::coinbase::{Coinbase, Incoming};
use orderbook_feed::exchanges::kraken::{BookData, Frame, KLevel, Kraken, PairInfo};
use orderbook_feed::feed::{
    apply_event, can_apply_event, report, wall_clock_ms, Exchange, Outcome, ParsedEvent,
};
use orderbook_feed::metrics::{Metrics, PRINT_EVERY_NANOS};
use orderbook_feed::orderbook::{BookEvent, Level, OrderBook, SequenceGap};
use orderbook_feed::session::{
    buffer_arrival, on_arrival, replay, seed_symbol, Arrival, Step,
};
use orderbook_feed::symbols::SymbolTable;

fn lvl(p: &str, q: &str) -> Level {
    Level {
        price: Decimal::from_str(p).unwrap(),
        qty: Decimal::from_str(q).unwrap(),
    }
}

fn snapshot(symbol: &str, bids: Vec<Level>, sequence: u64) -> ParsedEvent {
    ParsedEvent {
        symbol: symbol.to_string(),
        event: BookEvent::Snapshot {
            bids,
            asks: vec![],
            sequence,
        },
    }
}

fn delta(bids: Vec<Level>, first: u64, last: u64) -> BookEvent {
    BookEvent::Delta {
        bids,
        asks: vec![],
        first,
        last,
        event_time_ms: None,
        checksum: None,
    }
}

fn tagged(symbol: &str, event: BookEvent) -> ParsedEvent {
    ParsedEvent {
        symbol: symbol.to_string(),
        event,
    }
}

fn depth_event(first: u64, last: u64) -> DepthEvent {
    DepthEvent {
        event_time_ms: Some(1_000),
        first_update_id: first,
        final_update_id: last,
        bids: vec![["5".to_string(), last.to_string()]],
        asks: vec![],
    }
}

#[test]
fn events_go_to_the_book_of_their_symbol() {
    let exchange = Coinbase::new(&["A", "B"]);
    let mut books = SymbolTable::new();
    let mut metrics = SymbolTable::new();
    for symbol in ["A", "B"] {
        let r = apply_event(
            &exchange,
            snapshot(symbol, vec![lvl("1", "1")], 0),
            &mut books,
            &mut metrics,
            0,
        );
        assert_eq!(r.unwrap(), Outcome::Seeded);
    }
    assert!(metrics.get("A").is_none());
    let r = apply_event(
        &exchange,
        tagged("A", delta(vec![lvl("2", "2")], 1, 1)),
        &mut books,
        &mut metrics,
        0,
    );
    assert_eq!(r.unwrap(), Outcome::Applied);
    assert_eq!(books.get("A").unwrap().depth(), (2, 0));
    assert_eq!(books.get("B").unwrap().depth(), (1, 0));
    assert_eq!(metrics.get("A").unwrap().window_updates(), 1);
    assert!(metrics.get("B").is_none());
}

#[test]
fn delta_without_a_book_is_ignored() {
    let exchange = Coinbase::new(&["A"]);
    let mut books = SymbolTable::new();
    let mut metrics = SymbolTable::new();
    let r = apply_event(
        &exchange,
        tagged("A", delta(vec![], 1, 1)),
        &mut books,
        &mut metrics,
        0,
    );
    assert_eq!(r.unwrap(), Outcome::Ignored);
    assert!(books.get("A").is_none());
    assert!(metrics.get("A").is_none());
}

#[test]
fn stale_delta_is_not_counted_and_a_gap_is_an_error() {
    let exchange = Binance::new(&["A"]);
    let mut books = SymbolTable::new();
    let mut metrics = SymbolTable::new();
    let _ = apply_event(
        &exchange,
        snapshot("A", vec![lvl("1", "1")], 100),
        &mut books,
        &mut metrics,
        0,
    );
    let stale = tagged("A", delta(vec![lvl("1", "9")], 90, 100));
    assert_eq!(
        apply_event(&exchange, stale, &mut books, &mut metrics, 0).unwrap(),
        Outcome::Stale
    );
    assert!(metrics.get("A").is_none());
    let gap = tagged("A", delta(vec![lvl("1", "9")], 102, 103));
    let e = apply_event(&exchange, gap, &mut books, &mut metrics, 0).unwrap_err();
    assert_eq!(
        e.to_text(),
        "A: sequence gap: expected 101, got 102"
    );
    assert!(matches!(
        e,
        FeedError::Gap {
            gap: SequenceGap {
                expected: 101,
                got: 102
            },
            ..
        }
    ));
    assert_eq!(books.get("A").unwrap().last_update_id(), 100);
}

#[test]
fn latency_is_measured_and_never_negative() {
    let exchange = Binance::new(&["A"]);
    let mut books = SymbolTable::new();
    let mut metrics = SymbolTable::new();
    let _ = apply_event(
        &exchange,
        snapshot("A", vec![], 0),
        &mut books,
        &mut metrics,
        0,
    );
    for (n, recv) in [(1, 1_040), (2, 900)] {
        let event = BookEvent::Delta {
            bids: vec![],
            asks: vec![],
            first: n,
            last: n,
            event_time_ms: Some(1_000),
            checksum: None,
        };
        let _ = apply_event(
            &exchange,
            tagged("A", event),
            &mut books,
            &mut metrics,
            recv,
        );
    }
    let m = metrics.get("A").unwrap();
    assert_eq!(m.window_latency.summary(), Some((20, 40)));
}

fn kraken_frame(kind: &str, asks: &[(&str, &str)], checksum: u32) -> Frame {
    Frame {
        channel: Some("book".to_string()),
        kind: Some(kind.to_string()),
        pairs: None,
        books: Ok(vec![BookData {
            symbol: "BTC/USD".to_string(),
            bids: vec![],
            asks: asks
                .iter()
                .map(|(p, q)| KLevel {
                    price: p.to_string(),
                    qty: q.to_string(),
                })
                .collect(),
            checksum,
            timestamp: None,
        }]),
    }
}

fn instrument(price_precision: u32) -> Frame {
    Frame {
        channel: Some("instrument".to_string()),
        kind: Some("snapshot".to_string()),
        pairs: Some(vec![PairInfo {
            symbol: "BTC/USD".to_string(),
            price_precision,
            qty_precision: 1,
        }]),
        books: Err("no book".to_string()),
    }
}

fn feed_kraken(
    kraken: &mut Kraken,
    books: &mut SymbolTable<OrderBook>,
    frame: Frame,
) -> Result<Step, FeedError> {
    let mut metrics = SymbolTable::new();
    on_arrival(kraken, books, &mut metrics, Arrival::Text(Some(frame)), 0)
}

#[test]
fn limited_feed_keeps_its_depth() {
    let mut kraken = Kraken::new(&["BTC/USD"]);
    let mut books = SymbolTable::new();
    let names: Vec<String> = (1..=12).map(|n| n.to_string()).collect();
    let twelve: Vec<(&str, &str)> = names.iter().map(|n| (n.as_str(), "1")).collect();
    let r = feed_kraken(&mut kraken, &mut books, kraken_frame("snapshot", &twelve, 0));
    assert!(matches!(
        r,
        Ok(Step::Event {
            outcome: Outcome::Seeded,
            ..
        })
    ));
    assert_eq!(books.get("BTC/USD").unwrap().depth(), (0, 10));
    let r = feed_kraken(
        &mut kraken,
        &mut books,
        kraken_frame("update", &[("0.5", "1")], 0),
    );
    assert!(matches!(
        r,
        Ok(Step::Event {
            outcome: Outcome::Applied,
            ..
        })
    ));
    let book = books.get("BTC/USD").unwrap();
    assert_eq!(book.depth(), (0, 10));
    assert_eq!(book.best_ask().unwrap().0.to_text(), "0.5");
    assert_eq!(book.top_asks(10)[9].0.to_text(), "9");
}

#[test]
fn checksum_decides_on_an_update() {
    // The text of one ask 1.5 x 2.5 is "1525".
    let sum = orderbook_feed::checksum::crc32(b"1525");
    let mut kraken = Kraken::new(&["BTC/USD"]);
    let mut books = SymbolTable::new();
    let _ = feed_kraken(&mut kraken, &mut books, instrument(1));
    let _ = feed_kraken(&mut kraken, &mut books, kraken_frame("snapshot", &[], 0));
    let update = kraken_frame("update", &[("1.5", "2.5")], sum);
    let r = feed_kraken(&mut kraken, &mut books, update);
    match r {
        Ok(Step::Event { symbol, outcome }) => {
            assert_eq!(symbol, "BTC/USD");
            assert_eq!(outcome, Outcome::Applied);
        }
        _ => panic!("expected an event"),
    }
    let e = feed_kraken(&mut kraken, &mut books, kraken_frame("update", &[], 7))
        .err()
        .unwrap();
    assert!(matches!(e, FeedError::ChecksumMismatch { computed, expected: 7 } if computed == sum));
    // The precision leaves no room for the price.
    let _ = feed_kraken(&mut kraken, &mut books, instrument(70_000));
    let r = feed_kraken(&mut kraken, &mut books, kraken_frame("update", &[], sum));
    assert!(matches!(
        r,
        Ok(Step::Event {
            outcome: Outcome::Unverifiable,
            ..
        })
    ));
}

#[test]
fn arrivals_are_dealt_with() {
    let mut exchange = Coinbase::new(&["A"]);
    let mut books = SymbolTable::new();
    let mut metrics = SymbolTable::new();
    let mut step = |arrival: Arrival<Incoming>| {
        on_arrival(&mut exchange, &mut books, &mut metrics, arrival, 0)
    };
    assert!(matches!(step(Arrival::Text(None)), Ok(Step::Continue)));
    assert!(matches!(
        step(Arrival::Text(Some(Incoming::Other))),
        Ok(Step::Continue)
    ));
    assert!(matches!(step(Arrival::Ping(vec![1, 2])), Ok(Step::Pong(p)) if p == vec![1, 2]));
    assert!(matches!(step(Arrival::Close), Ok(Step::Stop)));
    assert!(matches!(step(Arrival::Ended), Ok(Step::Stop)));
    assert!(matches!(step(Arrival::Other), Ok(Step::Continue)));
    assert!(matches!(
        step(Arrival::Failed("reset".to_string())),
        Err(FeedError::Transport { reason }) if reason == "reset"
    ));
    let bad = Incoming::L2Update {
        product_id: "A".to_string(),
        time: None,
        changes: vec![["hold".to_string(), "1".to_string(), "1".to_string()]],
    };
    assert!(matches!(
        step(Arrival::Text(Some(bad))),
        Err(FeedError::UnknownSide { .. })
    ));
}

#[test]
fn arrivals_are_buffered_until_the_snapshot() {
    let mut exchange = Binance::new(&["A"]);
    let mut buffered = Vec::new();
    let mut step =
        |arrival: Arrival<DepthEvent>| buffer_arrival(&mut exchange, &mut buffered, arrival);
    assert!(matches!(
        step(Arrival::Text(Some(depth_event(1, 2)))),
        Ok(Step::Continue)
    ));
    assert!(matches!(step(Arrival::Text(None)), Ok(Step::Continue)));
    assert!(matches!(step(Arrival::Ping(vec![7])), Ok(Step::Pong(p)) if p == vec![7]));
    assert!(matches!(step(Arrival::Close), Ok(Step::Continue)));
    assert!(matches!(step(Arrival::Other), Ok(Step::Continue)));
    assert!(matches!(
        step(Arrival::Text(Some(depth_event(3, 4)))),
        Ok(Step::Continue)
    ));
    assert!(matches!(
        step(Arrival::Failed("reset".to_string())),
        Err(FeedError::Transport { .. })
    ));
    let e = step(Arrival::Ended).err().unwrap();
    assert_eq!(e.to_text(), "socket closed before snapshot");
    assert_eq!(buffered.len(), 2);
}

fn base(sequence: u64) -> BookEvent {
    BookEvent::Snapshot {
        bids: vec![lvl("5", "1")],
        asks: vec![],
        sequence,
    }
}

#[test]
fn replay_drops_the_old_and_applies_the_rest() {
    let buffered = vec![
        delta(vec![lvl("5", "90")], 80, 90),
        delta(vec![lvl("5", "100")], 91, 100),
        delta(vec![lvl("5", "105")], 99, 105),
        base(1),
        delta(vec![lvl("6", "1")], 106, 107),
    ];
    let book = replay(base(100), buffered).ok().unwrap();
    assert_eq!(book.last_update_id(), 107);
    assert_eq!(book.depth(), (2, 0));
    assert_eq!(book.top_bids(2)[1].1.to_text(), "105");
    let untouched = replay(base(100), vec![delta(vec![lvl("5", "9")], 1, 100)])
        .ok()
        .unwrap();
    assert_eq!(untouched.last_update_id(), 100);
    assert_eq!(untouched.best_bid().unwrap().1.to_text(), "1");
}

#[test]
fn replay_reports_a_hole() {
    let buffered = vec![
        delta(vec![], 101, 101),
        delta(vec![], 103, 103),
        delta(vec![], 200, 200),
    ];
    let e = replay(base(100), buffered).err().unwrap();
    assert_eq!(
        e.to_text(),
        "gap while replaying snapshot buffer: sequence gap: expected 102, got 103"
    );
}

#[test]
fn replay_needs_a_snapshot() {
    let e = replay(delta(vec![], 1, 1), vec![]).err().unwrap();
    assert!(matches!(e, FeedError::ExpectedSnapshot));
    assert_eq!(e.to_text(), "expected snapshot, got delta");
}

#[test]
fn first_symbol_is_seeded() {
    assert_eq!(
        seed_symbol(&Coinbase::new(&["a", "b"])).ok().unwrap(),
        "A"
    );
    assert!(matches!(
        seed_symbol(&Coinbase::new(&[])),
        Err(FeedError::NoSymbol)
    ));
}

#[test]
fn room_is_checked_before_an_event() {
    let exchange = Binance::new(&["A"]);
    let mut books = SymbolTable::new();
    let mut metrics: SymbolTable<Metrics> = SymbolTable::new();
    let mut book = OrderBook::new();
    book.apply_snapshot(&[], &[], 0);
    books.insert("A".to_string(), book);
    let mut full = Metrics::new("binance", "A");
    full.record_update(0, Some(u64::MAX));
    metrics.insert("A".to_string(), full);
    let event = |first: u64, event_time_ms: Option<u64>| {
        tagged(
            "A",
            BookEvent::Delta {
                bids: vec![],
                asks: vec![],
                first,
                last: first,
                event_time_ms,
                checksum: None,
            },
        )
    };
    assert!(can_apply_event(&exchange, &event(1, None), &books, &metrics, 50));
    assert!(can_apply_event(&exchange, &event(1, Some(50)), &books, &metrics, 50));
    assert!(!can_apply_event(&exchange, &event(1, Some(49)), &books, &metrics, 50));
    // A gap changes nothing, so there is room for it.
    assert!(can_apply_event(&exchange, &event(2, Some(49)), &books, &metrics, 50));
    let mut exchange = exchange;
    let full_arrival = Arrival::Text(Some(depth_event(1, 1)));
    assert!(matches!(
        on_arrival(&mut exchange, &mut books, &mut metrics, full_arrival, 2_000),
        Ok(Step::OutOfRange)
    ));
    assert_eq!(books.get("A").unwrap().last_update_id(), 0);
}

#[test]
fn report_needs_a_book_and_an_accounting() {
    let mut books = SymbolTable::new();
    let mut metrics = SymbolTable::new();
    assert!(report(&books, &mut metrics, "A", PRINT_EVERY_NANOS, 1, "0").is_none());
    books.insert("A".to_string(), OrderBook::new());
    assert!(report(&books, &mut metrics, "A", PRINT_EVERY_NANOS, 1, "0").is_none());
    metrics.insert("A".to_string(), Metrics::new("binance", "A"));
    assert!(report(&books, &mut metrics, "A", 0, 1, "0").is_none());
    let shown = report(&books, &mut metrics, "A", PRINT_EVERY_NANOS, 1, "3").unwrap();
    assert!(shown.headline().contains("| 3 upd/s |"));
    assert!(metrics.get("A").is_some());
}

#[test]
fn wall_clock_is_cut_to_its_range() {
    assert_eq!(wall_clock_ms(None), 0);
    assert_eq!(wall_clock_ms(Some(1_565_815_347_265)), 1_565_815_347_265);
    assert_eq!(wall_clock_ms(Some(u64::MAX as u128 + 5)), 4);
}

#[test]
fn symbol_tables_hold_one_value_per_symbol() {
    let mut table: SymbolTable<u32> = SymbolTable::new();
    table.insert("A".to_string(), 1);
    table.insert("B".to_string(), 2);
    table.insert("A".to_string(), 3);
    assert_eq!(table.get("A"), Some(&3));
    assert_eq!(table.remove("A"), Some(3));
    assert_eq!(table.get("A"), None);
    assert_eq!(table.get("B"), Some(&2));
    assert_eq!(table.remove("A"), None);
}

#[test]
fn whole_binance_session() {
    let mut exchange = Binance::new(&["btcusdt"]);
    let mut buffered = Vec::new();
    for (first, last) in [(90, 99), (100, 102)] {
        let arrival = Arrival::Text(Some(depth_event(first, last)));
        assert!(buffer_arrival(&mut exchange, &mut buffered, arrival).is_ok());
    }
    let book = replay(base(100), buffered).ok().unwrap();
    let mut books = SymbolTable::new();
    books.insert(seed_symbol(&exchange).ok().unwrap(), book);
    let mut metrics = SymbolTable::new();
    let arrival = Arrival::Text(Some(depth_event(103, 110)));
    match on_arrival(&mut exchange, &mut books, &mut metrics, arrival, 1_250) {
        Ok(Step::Event { symbol, outcome }) => {
            assert_eq!(symbol, "BTCUSDT");
            assert_eq!(outcome, Outcome::Applied);
        }
        _ => panic!("expected an event"),
    }
    let m = metrics.get("BTCUSDT").unwrap();
    assert_eq!(m.window_latency.summary(), Some((250, 250)));
    let lost = Arrival::Text(Some(depth_event(120, 121)));
    assert!(matches!(
        on_arrival(&mut exchange, &mut books, &mut metrics, lost, 0),
        Err(FeedError::Gap { .. })
    ));
    assert_eq!(exchange.name(), "binance");
}

#[test]
fn printed_total_counts_over_reconnects() {
    let exchange = Coinbase::new(&["A", "B"]);
    let mut metrics = SymbolTable::new();
    let mut total = String::new();
    // Two sessions: the books start anew, the accounting goes on.
    for deltas in [3, 2] {
        let mut books = SymbolTable::new();
        for symbol in ["A", "B"] {
            let seed = snapshot(symbol, vec![lvl("1", "1")], 0);
            let _ = apply_event(&exchange, seed, &mut books, &mut metrics, 0);
        }
        let early = tagged("C", delta(vec![], 1, 1));
        let _ = apply_event(&exchange, early, &mut books, &mut metrics, 0);
        for n in 1..=deltas {
            for symbol in ["A", "A", "B"] {
                // The second one of A is stale.
                let update = tagged(symbol, delta(vec![], n, n));
                let _ = apply_event(&exchange, update, &mut books, &mut metrics, 0);
            }
        }
        let shown = report(&books, &mut metrics, "A", PRINT_EVERY_NANOS, 1, "0").unwrap();
        total = shown.headline().to_string();
    }
    assert!(total.ends_with(" | 5 total"));
}
