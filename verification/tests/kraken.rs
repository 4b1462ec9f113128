use orderbook_feed::decimal::Decimal;
use orderbook_feed::error::FeedError;
use orderbook_feed::exchanges::kraken::{
    kraken_token, to_levels, BookData, Frame, KLevel, Kraken, PairInfo,
};
use orderbook_feed::feed::{Exchange, ParsedEvent};
use orderbook_feed::orderbook::{BookEvent, OrderBook};
use serde_json::Value;

fn dec(s: &str) -> Decimal {
    Decimal::from_str(s).unwrap()
}

fn text(v: &Value) -> Option<String> {
    v.as_str().map(|s| s.to_string())
}

fn klevels(v: &Value) -> Option<Vec<KLevel>> {
    match v {
        Value::Null => Some(Vec::new()),
        _ => v
            .as_array()?
            .iter()
            .map(|l| match (&l["price"], &l["qty"]) {
                (Value::Number(price), Value::Number(qty)) => Some(KLevel {
                    price: price.to_string(),
                    qty: qty.to_string(),
                }),
                _ => None,
            })
            .collect(),
    }
}

fn book_data(v: &Value) -> Option<BookData> {
    Some(BookData {
        symbol: text(&v["symbol"])?,
        bids: klevels(&v["bids"])?,
        asks: klevels(&v["asks"])?,
        checksum: v["checksum"].as_u64()? as u32,
        timestamp: text(&v["timestamp"]),
    })
}

fn pair(v: &Value) -> Option<PairInfo> {
    Some(PairInfo {
        symbol: text(&v["symbol"])?,
        price_precision: v["price_precision"].as_u64()? as u32,
        qty_precision: v["qty_precision"].as_u64()? as u32,
    })
}

/// The frame that a raw text holds.
fn frame(raw: &str) -> Option<Frame> {
    let v: Value = serde_json::from_str(raw).ok()?;
    let books: Option<Vec<BookData>> = v["data"]
        .as_array()
        .and_then(|list| list.iter().map(book_data).collect());
    Some(Frame {
        channel: text(&v["channel"]),
        kind: text(&v["type"]),
        pairs: v["data"]["pairs"]
            .as_array()
            .and_then(|list| list.iter().map(pair).collect()),
        books: books.ok_or("no book".to_string()),
    })
}

fn parse(k: &mut Kraken, raw: &str) -> Result<Option<ParsedEvent>, FeedError> {
    let f = frame(raw);
    assert!(k.can_read(&f));
    k.parse_message(f)
}

#[test]
fn update_extracts_event_time_and_symbol() {
    let mut kraken = Kraken::new(&["BTC/USD"]);
    let raw = r#"{"channel":"book","type":"update","data":[{"symbol":"BTC/USD","bids":[],"asks":[{"price":62623.4,"qty":0.07892262}],"checksum":643939250,"timestamp":"2019-08-14T20:42:27.265Z"}]}"#;
    let parsed = parse(&mut kraken, raw).unwrap().expect("update parses");
    assert_eq!(parsed.symbol, "BTC/USD");
    match parsed.event {
        BookEvent::Delta {
            event_time_ms,
            checksum,
            ..
        } => {
            assert_eq!(event_time_ms, Some(1565815347265));
            assert_eq!(checksum, Some(643939250));
        }
        _ => panic!("expected a delta"),
    }
}

#[test]
fn token_strips_decimal_and_leading_zeros() {
    // Kraken's documented example, plus values from a real session.
    assert_eq!(kraken_token(dec("45285.2"), 1), "452852");
    assert_eq!(kraken_token(dec("0.00100000"), 8), "100000");
    assert_eq!(kraken_token(dec("62622.9"), 1), "626229");
    assert_eq!(kraken_token(dec("0.03654491"), 8), "3654491");
}

#[test]
fn token_is_the_number_in_steps_of_the_precision() {
    assert_eq!(kraken_token(dec("0"), 8), "0");
    assert_eq!(kraken_token(dec("0.000000001"), 8), "0");
    assert_eq!(kraken_token(dec("1.23456"), 3), "1234");
    assert_eq!(kraken_token(dec("7"), 0), "7");
    assert_eq!(kraken_token(dec("7"), 4), "70000");
    assert_eq!(kraken_token(dec("100"), 1), "1000");
}

const ASKS: [(&str, &str); 10] = [
    ("45285.2", "0.00100000"),
    ("45286.4", "1.54571953"),
    ("45286.6", "1.54571109"),
    ("45289.6", "1.54560911"),
    ("45290.2", "0.15890660"),
    ("45291.8", "1.54553491"),
    ("45294.7", "0.04454749"),
    ("45296.1", "0.35380000"),
    ("45297.5", "0.09945542"),
    ("45299.5", "0.18772827"),
];

const BIDS: [(&str, &str); 10] = [
    ("45283.5", "0.10000000"),
    ("45283.4", "1.54582015"),
    ("45282.1", "0.10000000"),
    ("45281.0", "0.10000000"),
    ("45280.3", "1.54592586"),
    ("45279.0", "0.07990000"),
    ("45277.6", "0.03310103"),
    ("45277.5", "0.30000000"),
    ("45277.3", "1.54602737"),
    ("45276.6", "0.15445238"),
];

const INSTRUMENT: &str = r#"{"channel":"instrument","type":"snapshot","data":{"pairs":[{"symbol":"ETH/USD","price_precision":2,"qty_precision":8},{"symbol":"BTC/USD","price_precision":1,"qty_precision":8}]}}"#;

fn json_levels(levels: &[(&str, &str)]) -> String {
    let items: Vec<String> = levels
        .iter()
        .map(|(p, q)| format!(r#"{{"price":{p},"qty":{q}}}"#))
        .collect();
    items.join(",")
}

fn snapshot() -> String {
    format!(
        r#"{{"channel":"book","type":"snapshot","data":[{{"symbol":"BTC/USD","bids":[{}],"asks":[{}],"checksum":3310070434}}]}}"#,
        json_levels(&BIDS),
        json_levels(&ASKS)
    )
}

fn seed(kraken: &mut Kraken) -> OrderBook {
    // Precision first, then the snapshot.
    assert!(parse(kraken, INSTRUMENT).unwrap().is_none());
    let mut book = OrderBook::new();
    match parse(kraken, &snapshot()).unwrap().unwrap().event {
        BookEvent::Snapshot {
            bids,
            asks,
            sequence,
        } => book.apply_snapshot(&bids, &asks, sequence),
        _ => panic!("first message should be a snapshot"),
    }
    book.retain_top(10);
    book
}

#[test]
fn documented_book_has_the_documented_checksum() {
    let mut kraken = Kraken::new(&["BTC/USD"]);
    let book = seed(&mut kraken);
    assert!(kraken.can_verify("BTC/USD", &book));
    assert!(kraken.verify_checksum("BTC/USD", &book, 3310070434).is_ok());
    let e = kraken.verify_checksum("BTC/USD", &book, 12345).unwrap_err();
    assert!(matches!(
        e,
        FeedError::ChecksumMismatch {
            computed: 3310070434,
            expected: 12345
        }
    ));
    assert_eq!(
        e.to_text(),
        "book checksum mismatch: computed 3310070434, expected 12345"
    );
}

#[test]
fn checksum_covers_the_ten_best_levels_only() {
    let mut kraken = Kraken::new(&["BTC/USD"]);
    let mut book = seed(&mut kraken);
    let upd = r#"{"channel":"book","type":"update","data":[{"symbol":"BTC/USD","bids":[{"price":40000.1,"qty":1.5}],"asks":[{"price":50000.5,"qty":2.25}],"checksum":3310070434}]}"#;
    match parse(&mut kraken, upd).unwrap().unwrap().event {
        BookEvent::Delta {
            bids,
            asks,
            first,
            last,
            ..
        } => assert_eq!(book.apply_delta(&bids, &asks, first, last), Ok(true)),
        _ => panic!("expected a delta"),
    }
    assert_eq!(book.depth(), (11, 11));
    assert!(kraken.verify_checksum("BTC/USD", &book, 3310070434).is_ok());
    book.retain_top(10);
    assert!(kraken.verify_checksum("BTC/USD", &book, 3310070434).is_ok());
}

#[test]
fn diverged_book_is_rejected() {
    let mut kraken = Kraken::new(&["BTC/USD"]);
    let mut book = seed(&mut kraken);
    let upd = r#"{"channel":"book","type":"update","data":[{"symbol":"BTC/USD","asks":[{"price":45285.2,"qty":0.002}],"checksum":1}]}"#;
    match parse(&mut kraken, upd).unwrap().unwrap().event {
        BookEvent::Delta {
            bids,
            asks,
            first,
            last,
            ..
        } => assert_eq!(book.apply_delta(&bids, &asks, first, last), Ok(true)),
        _ => panic!("expected a delta"),
    }
    assert!(kraken
        .verify_checksum("BTC/USD", &book, 3310070434)
        .is_err());
}

#[test]
fn unknown_precision_passes() {
    let mut kraken = Kraken::new(&["BTC/USD"]);
    let book = seed(&mut kraken);
    // ETH/USD is not tracked, so its precision was not learned.
    assert!(kraken.verify_checksum("ETH/USD", &book, 1).is_ok());
    let fresh = Kraken::new(&["BTC/USD"]);
    assert!(fresh.can_verify("BTC/USD", &book));
    assert!(fresh.verify_checksum("BTC/USD", &book, 1).is_ok());
}

#[test]
fn absurd_precision_cannot_be_verified() {
    let mut kraken = Kraken::new(&["BTC/USD"]);
    let book = seed(&mut kraken);
    let raw = r#"{"channel":"instrument","type":"update","data":{"pairs":[{"symbol":"BTC/USD","price_precision":28,"qty_precision":8}]}}"#;
    parse(&mut kraken, raw).unwrap();
    assert!(!kraken.can_verify("BTC/USD", &book));
}

#[test]
fn kraken_sequence_restarts_at_each_snapshot() {
    let mut kraken = Kraken::new(&["BTC/USD", "ETH/USD"]);
    let upd = |s: &str| {
        format!(
            r#"{{"channel":"book","type":"update","data":[{{"symbol":"{s}","bids":[],"asks":[],"checksum":0}}]}}"#
        )
    };
    let mut numbers = Vec::new();
    for raw in [
        snapshot(),
        upd("BTC/USD"),
        upd("ETH/USD"),
        upd("BTC/USD"),
        snapshot(),
        upd("BTC/USD"),
    ] {
        match parse(&mut kraken, &raw).unwrap().unwrap().event {
            BookEvent::Snapshot { sequence, .. } => numbers.push(sequence),
            BookEvent::Delta { first, last, .. } => {
                assert_eq!(first, last);
                numbers.push(first);
            }
        }
    }
    assert_eq!(numbers, vec![0, 1, 1, 2, 0, 1]);
}

#[test]
fn other_frames_are_ignored() {
    let mut kraken = Kraken::new(&["BTC/USD"]);
    for raw in [
        r#"{"channel":"heartbeat"}"#,
        r#"{"method":"subscribe","success":true}"#,
        r#"{"channel":"book","type":"update","data":[]}"#,
        r#"{"channel":"book","type":"other","data":[{"symbol":"BTC/USD","checksum":1}]}"#,
        r#"{"channel":"book","data":[{"symbol":"BTC/USD","checksum":1}]}"#,
        r#"{"channel":"instrument","data":{"pairs":3}}"#,
        "garbage",
    ] {
        assert!(parse(&mut kraken, raw).unwrap().is_none());
    }
}

#[test]
fn malformed_book_is_an_error() {
    let mut kraken = Kraken::new(&["BTC/USD"]);
    let e = parse(&mut kraken, r#"{"channel":"book","type":"update"}"#).unwrap_err();
    assert!(matches!(&e, FeedError::Malformed { reason } if reason == "no book"));
    assert_eq!(e.to_text(), "no book");
}

#[test]
fn number_out_of_range_is_an_error_and_takes_no_number() {
    let mut kraken = Kraken::new(&["BTC/USD"]);
    let bad = r#"{"channel":"book","type":"update","data":[{"symbol":"BTC/USD","asks":[{"price":1,"qty":1e40}],"checksum":1}]}"#;
    let e = parse(&mut kraken, bad).unwrap_err();
    assert!(e.to_text().starts_with("bad qty 1e+40: "));
    let good = r#"{"channel":"book","type":"update","data":[{"symbol":"BTC/USD","checksum":1}]}"#;
    match parse(&mut kraken, good).unwrap().unwrap().event {
        BookEvent::Delta { first, .. } => assert_eq!(first, 1),
        _ => panic!("expected a delta"),
    }
}

#[test]
fn only_the_first_book_counts() {
    let mut kraken = Kraken::new(&["BTC/USD"]);
    let raw = r#"{"channel":"book","type":"update","data":[{"symbol":"A/B","checksum":1},{"symbol":"C/D","checksum":2}]}"#;
    let parsed = parse(&mut kraken, raw).unwrap().unwrap();
    assert_eq!(parsed.symbol, "A/B");
}

#[test]
fn kraken_connection_details() {
    let kraken = Kraken::new(&["btc/usd", "ETH/USD"]);
    assert_eq!(kraken.name(), "kraken");
    assert_eq!(kraken.symbols(), &vec!["BTC/USD", "ETH/USD"]);
    assert_eq!(kraken.ws_url(), "wss://ws.kraken.com/v2");
    assert_eq!(
        kraken.subscribe_messages(),
        vec![
            r#"{"method":"subscribe","params":{"channel":"instrument"}}"#,
            r#"{"method":"subscribe","params":{"channel":"book","depth":10,"symbol":["BTC/USD","ETH/USD"]}}"#
        ]
    );
    assert!(!kraken.needs_rest_snapshot());
    assert_eq!(
        kraken.snapshot_url().unwrap_err().to_text(),
        "kraken snapshot arrives over the websocket"
    );
    assert_eq!(kraken.book_depth_limit(), Some(10));
}

#[test]
fn small_quantities_in_exponent_form_are_exact() {
    let mut kraken = Kraken::new(&["BTC/USD"]);
    for (qty, exact) in [
        ("1e-8", "0.00000001"),
        ("1.234e-5", "0.00001234"),
        ("0.00000001", "0.00000001"),
        ("0.00001234", "0.00001234"),
        ("0.07892262", "0.07892262"),
    ] {
        let raw = format!(
            r#"{{"channel":"book","type":"update","data":[{{"symbol":"BTC/USD","asks":[{{"price":62623.4,"qty":{qty}}}],"checksum":1}}]}}"#
        );
        match parse(&mut kraken, &raw).unwrap().unwrap().event {
            BookEvent::Delta { asks, .. } => {
                assert_eq!(asks[0].price.to_text(), "62623.4");
                assert_eq!(asks[0].qty.to_text(), exact);
            }
            _ => panic!("expected a delta"),
        }
    }
}

#[test]
fn level_texts_are_read_one_by_one() {
    let raw = vec![
        KLevel {
            price: "1.5".to_string(),
            qty: "2e-3".to_string(),
        },
        KLevel {
            price: "7".to_string(),
            qty: "0".to_string(),
        },
    ];
    let levels = to_levels(&raw).unwrap();
    assert_eq!(levels.len(), 2);
    assert_eq!(levels[0].price, dec("1.5"));
    assert_eq!(levels[0].qty.to_text(), "0.002");
    assert!(levels[1].qty.is_zero());
    let bad = vec![KLevel {
        price: "x".to_string(),
        qty: "1".to_string(),
    }];
    assert!(to_levels(&bad).unwrap_err().to_text().starts_with("bad price x: "));
}
