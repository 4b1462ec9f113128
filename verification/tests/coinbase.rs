use orderbook_feed::error::{FeedError, Field};
use orderbook_feed::exchanges::coinbase::{Coinbase, Incoming};
use orderbook_feed::feed::{Exchange, ParsedEvent};
use orderbook_feed::orderbook::{BookEvent, OrderBook};
use serde_json::Value;

fn text(v: &Value) -> String {
    v.as_str().unwrap().to_string()
}

fn pairs(v: &Value) -> Vec<[String; 2]> {
    v.as_array()
        .unwrap()
        .iter()
        .map(|p| [text(&p[0]), text(&p[1])])
        .collect()
}

/// The message that a raw frame holds.
fn message(raw: &str) -> Option<Incoming> {
    let v: Value = serde_json::from_str(raw).ok()?;
    match v["type"].as_str()? {
        "snapshot" => Some(Incoming::Snapshot {
            product_id: text(&v["product_id"]),
            bids: pairs(&v["bids"]),
            asks: pairs(&v["asks"]),
        }),
        "l2update" => Some(Incoming::L2Update {
            product_id: text(&v["product_id"]),
            time: v["time"].as_str().map(|t| t.to_string()),
            changes: v["changes"]
                .as_array()
                .unwrap()
                .iter()
                .map(|c| [text(&c[0]), text(&c[1]), text(&c[2])])
                .collect(),
        }),
        "error" => Some(Incoming::Error {
            message: text(&v["message"]),
        }),
        _ => Some(Incoming::Other),
    }
}

fn parse(c: &mut Coinbase, raw: &str) -> Result<Option<ParsedEvent>, FeedError> {
    c.parse_message(message(raw))
}

#[test]
fn l2update_carries_event_time_and_symbol() {
    let mut c = Coinbase::new(&["BTC-USD"]);
    let raw = r#"{"type":"l2update","product_id":"BTC-USD","time":"2019-08-14T20:42:27.265Z","changes":[["buy","61000.00","0.5"]]}"#;
    let parsed = parse(&mut c, raw)
        .unwrap()
        .expect("should parse an l2update");
    assert_eq!(parsed.symbol, "BTC-USD");
    match parsed.event {
        BookEvent::Delta {
            event_time_ms,
            bids,
            ..
        } => {
            assert_eq!(event_time_ms, Some(1565815347265));
            assert_eq!(bids.len(), 1);
        }
        _ => panic!("expected a delta"),
    }
}

#[test]
fn l2update_without_time_has_no_event_time() {
    let mut c = Coinbase::new(&["BTC-USD"]);
    let raw =
        r#"{"type":"l2update","product_id":"BTC-USD","changes":[["sell","61001.00","1.0"]]}"#;
    let parsed = parse(&mut c, raw).unwrap().expect("should parse");
    match parsed.event {
        BookEvent::Delta { event_time_ms, .. } => assert_eq!(event_time_ms, None),
        _ => panic!("expected a delta"),
    }
}

#[test]
fn per_symbol_sequences_are_independent() {
    let mut c = Coinbase::new(&["BTC-USD", "ETH-USD"]);
    let snap =
        |p: &str| format!(r#"{{"type":"snapshot","product_id":"{p}","bids":[],"asks":[]}}"#);
    let upd = |p: &str| {
        format!(r#"{{"type":"l2update","product_id":"{p}","changes":[["buy","1","1"]]}}"#)
    };
    // Seed both, then interleave updates: each symbol counts from 1.
    parse(&mut c, &snap("BTC-USD")).unwrap();
    parse(&mut c, &snap("ETH-USD")).unwrap();
    let mut first = |raw: &str| match parse(&mut c, raw).unwrap().unwrap().event {
        BookEvent::Delta { first, .. } => first,
        _ => panic!("delta"),
    };
    assert_eq!(first(&upd("BTC-USD")), 1);
    assert_eq!(first(&upd("ETH-USD")), 1); // independent, not 2
    assert_eq!(first(&upd("BTC-USD")), 2);
}

#[test]
fn session_stays_contiguous() {
    let mut c = Coinbase::new(&["BTC-USD"]);
    let mut book = OrderBook::new();
    let frames = [
        r#"{"type":"subscriptions","channels":[]}"#,
        r#"{"type":"snapshot","product_id":"BTC-USD","bids":[["100.0","1"],["99.5","2"]],"asks":[["101.0","3"]]}"#,
        r#"{"type":"l2update","product_id":"BTC-USD","changes":[["buy","100.5","4"],["sell","101.0","0"],["sell","101.5","1"]]}"#,
        r#"{"type":"l2update","product_id":"BTC-USD","changes":[["buy","99.5","0"]]}"#,
        r#"not json"#,
        r#"{"type":"l2update","product_id":"BTC-USD","changes":[["sell","101.25","7"]]}"#,
    ];
    let mut applied = 0;
    for raw in frames {
        let Some(parsed) = parse(&mut c, raw).unwrap() else {
            continue;
        };
        match parsed.event {
            BookEvent::Snapshot {
                bids,
                asks,
                sequence,
            } => book.apply_snapshot(&bids, &asks, sequence),
            BookEvent::Delta {
                bids,
                asks,
                first,
                last,
                ..
            } => {
                assert_eq!(book.apply_delta(&bids, &asks, first, last), Ok(true));
                applied += 1;
            }
        }
    }
    assert_eq!(applied, 3);
    assert_eq!(book.last_update_id(), 3);
    assert_eq!(book.depth(), (2, 2));
    let (bid, _) = book.best_bid().unwrap();
    let (ask, _) = book.best_ask().unwrap();
    assert_eq!(bid.to_text(), "100.5");
    assert_eq!(ask.to_text(), "101.25");
    assert!(bid < ask);
}

#[test]
fn snapshot_restarts_the_sequence() {
    let mut c = Coinbase::new(&["BTC-USD"]);
    let snap = r#"{"type":"snapshot","product_id":"BTC-USD","bids":[],"asks":[]}"#;
    let upd = r#"{"type":"l2update","product_id":"BTC-USD","changes":[]}"#;
    let mut numbers = Vec::new();
    for raw in [upd, snap, upd, upd, snap, upd] {
        match parse(&mut c, raw).unwrap().unwrap().event {
            BookEvent::Snapshot { sequence, .. } => numbers.push(sequence),
            BookEvent::Delta { first, last, .. } => {
                assert_eq!(first, last);
                numbers.push(first)
            }
        }
    }
    assert_eq!(numbers, vec![1, 0, 1, 2, 0, 1]);
}

#[test]
fn changes_are_sorted_by_side() {
    let mut c = Coinbase::new(&["BTC-USD"]);
    let raw = r#"{"type":"l2update","product_id":"BTC-USD","changes":[["buy","1","10"],["sell","3","30"],["buy","2","20"]]}"#;
    match parse(&mut c, raw).unwrap().unwrap().event {
        BookEvent::Delta {
            bids,
            asks,
            checksum,
            ..
        } => {
            let prices: Vec<String> = bids.iter().map(|l| l.price.to_text()).collect();
            assert_eq!(prices, vec!["1", "2"]);
            assert_eq!(asks.len(), 1);
            assert_eq!(asks[0].qty.to_text(), "30");
            assert_eq!(checksum, None);
        }
        _ => panic!("expected a delta"),
    }
}

#[test]
fn unknown_side_is_an_error_and_takes_no_number() {
    let mut c = Coinbase::new(&["BTC-USD"]);
    let bad =
        r#"{"type":"l2update","product_id":"BTC-USD","changes":[["hold","1","1"]]}"#;
    let e = parse(&mut c, bad).unwrap_err();
    assert!(matches!(&e, FeedError::UnknownSide { side } if side == "hold"));
    assert_eq!(e.to_text(), "unknown side \"hold\"");
    let good = r#"{"type":"l2update","product_id":"BTC-USD","changes":[]}"#;
    match parse(&mut c, good).unwrap().unwrap().event {
        BookEvent::Delta { first, .. } => assert_eq!(first, 1),
        _ => panic!("expected a delta"),
    }
}

#[test]
fn bad_numbers_are_errors() {
    let mut c = Coinbase::new(&["BTC-USD"]);
    let bad_price =
        r#"{"type":"l2update","product_id":"BTC-USD","changes":[["hold","x","y"]]}"#;
    let e = parse(&mut c, bad_price).unwrap_err();
    assert!(matches!(
        e,
        FeedError::BadNumber {
            field: Field::Price,
            quoted: true,
            ..
        }
    ));
    assert!(e.to_text().starts_with("bad price \"x\": "));
    let bad_size =
        r#"{"type":"l2update","product_id":"BTC-USD","changes":[["buy","1","y\"z"]]}"#;
    let e = parse(&mut c, bad_size).unwrap_err();
    assert!(e.to_text().starts_with("bad size \"y\\\"z\": "));
    let bad_qty =
        r#"{"type":"snapshot","product_id":"BTC-USD","bids":[["1","1"],["2","q"]],"asks":[["r","1"]]}"#;
    let e = parse(&mut c, bad_qty).unwrap_err();
    assert!(e.to_text().starts_with("bad qty \"q\": "));
}

#[test]
fn unreadable_snapshot_still_restarts_the_sequence() {
    let mut c = Coinbase::new(&["BTC-USD"]);
    let upd = r#"{"type":"l2update","product_id":"BTC-USD","changes":[]}"#;
    parse(&mut c, upd).unwrap();
    parse(&mut c, upd).unwrap();
    let bad = r#"{"type":"snapshot","product_id":"BTC-USD","bids":[["x","1"]],"asks":[]}"#;
    assert!(parse(&mut c, bad).is_err());
    match parse(&mut c, upd).unwrap().unwrap().event {
        BookEvent::Delta { first, .. } => assert_eq!(first, 1),
        _ => panic!("expected a delta"),
    }
}

#[test]
fn control_messages_are_ignored() {
    let mut c = Coinbase::new(&["BTC-USD"]);
    for raw in [
        r#"{"type":"error","message":"Failed to subscribe"}"#,
        r#"{"type":"heartbeat"}"#,
        "garbage",
    ] {
        let m = message(raw);
        assert!(c.can_read(&m));
        assert!(c.parse_message(m).unwrap().is_none());
    }
}

#[test]
fn coinbase_connection_details() {
    let c = Coinbase::new(&["btc-usd", "ETH-usd"]);
    assert_eq!(c.name(), "coinbase");
    assert_eq!(c.symbols(), &vec!["BTC-USD", "ETH-USD"]);
    assert_eq!(c.ws_url(), "wss://ws-feed.exchange.coinbase.com");
    assert_eq!(
        c.subscribe_messages(),
        vec![
            r#"{"type":"subscribe","product_ids":["BTC-USD","ETH-USD"],"channels":["level2_batch"]}"#
        ]
    );
    assert!(!c.needs_rest_snapshot());
    assert_eq!(
        c.snapshot_url().unwrap_err().to_text(),
        "coinbase snapshot comes over the websocket"
    );
    assert_eq!(c.book_depth_limit(), None);
    let book = OrderBook::new();
    assert!(c.can_verify("BTC-USD", &book));
    assert!(c.verify_checksum("BTC-USD", &book, 1).is_ok());
}

#[test]
fn symbols_are_escaped_in_the_subscription() {
    let c = Coinbase::new(&["a\"b\\c\n\u{1}\u{1f}\u{8}\u{c}\r\té/"]);
    let frame = &c.subscribe_messages()[0];
    assert_eq!(
        frame,
        "{\"type\":\"subscribe\",\"product_ids\":[\"A\\\"B\\\\C\\n\\u0001\\u001f\\b\\f\\r\\tÉ/\"],\"channels\":[\"level2_batch\"]}"
    );
    let v: Value = serde_json::from_str(frame).unwrap();
    assert_eq!(v["product_ids"][0].as_str().unwrap(), c.symbols()[0]);
}

#[test]
fn subscription_without_symbols_is_empty() {
    let c = Coinbase::new(&[]);
    assert_eq!(
        c.subscribe_messages(),
        vec![r#"{"type":"subscribe","product_ids":[],"channels":["level2_batch"]}"#]
    );
}
