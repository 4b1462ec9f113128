use orderbook_feed::error::FeedError;
use orderbook_feed::exchanges::binance::{Binance, DepthEvent, RestSnapshot};
use orderbook_feed::exchanges::{parse_levels, ExchangeArg};
use orderbook_feed::feed::Exchange;
use orderbook_feed::orderbook::{BookEvent, OrderBook};

fn pairs(list: &[(&str, &str)]) -> Vec<[String; 2]> {
    list.iter()
        .map(|(p, q)| [p.to_string(), q.to_string()])
        .collect()
}

fn depth(first: u64, last: u64, bids: &[(&str, &str)]) -> DepthEvent {
    DepthEvent {
        event_time_ms: None,
        first_update_id: first,
        final_update_id: last,
        bids: pairs(bids),
        asks: pairs(&[]),
    }
}

fn seeded() -> OrderBook {
    let mut book = OrderBook::new();
    let snapshot = RestSnapshot {
        last_update_id: 160,
        bids: pairs(&[("0.0024", "10")]),
        asks: pairs(&[("0.0026", "100")]),
    };
    match Binance::parse_snapshot(snapshot).unwrap() {
        BookEvent::Snapshot {
            bids,
            asks,
            sequence,
        } => book.apply_snapshot(&bids, &asks, sequence),
        _ => panic!("expected a snapshot"),
    }
    book
}

#[test]
fn snapshot_is_parsed() {
    let book = seeded();
    assert_eq!(book.last_update_id(), 160);
    assert_eq!(book.best_bid().unwrap().0.to_text(), "0.0024");
    assert_eq!(book.best_ask().unwrap().1.to_text(), "100");
    assert_eq!(book.spread().unwrap().to_text(), "0.0002");
}

#[test]
fn snapshot_with_a_bad_number_is_refused() {
    let e = Binance::parse_snapshot(RestSnapshot {
        last_update_id: 1,
        bids: pairs(&[("1", "2")]),
        asks: pairs(&[("3", "4"), ("oops", "x")]),
    })
    .unwrap_err();
    assert!(e.to_text().starts_with("bad price \"oops\": "));
}

#[test]
fn depth_update_is_parsed() {
    let mut binance = Binance::new(&["btcusdt"]);
    let update = DepthEvent {
        event_time_ms: Some(123456789),
        first_update_id: 157,
        final_update_id: 160,
        bids: pairs(&[("0.0024", "10")]),
        asks: pairs(&[("0.0026", "0")]),
    };
    let parsed = binance.parse_message(Some(update)).unwrap().unwrap();
    assert_eq!(parsed.symbol, "BTCUSDT");
    match parsed.event {
        BookEvent::Delta {
            bids,
            asks,
            first,
            last,
            event_time_ms,
            checksum,
        } => {
            assert_eq!((bids.len(), asks.len()), (1, 1));
            assert_eq!((first, last), (157, 160));
            assert_eq!(event_time_ms, Some(123456789));
            assert_eq!(checksum, None);
        }
        _ => panic!("expected a delta"),
    }
    assert!(binance.parse_message(None).unwrap().is_none());
}

#[test]
fn session_stays_contiguous_and_a_lost_frame_is_a_gap() {
    let mut binance = Binance::new(&["BTCUSDT"]);
    let frames = [(150, 158), (159, 163), (164, 164), (165, 170), (171, 175)];
    for lost in [None, Some(3)] {
        let mut book = seeded();
        let mut outcomes = Vec::new();
        for (i, (first, last)) in frames.iter().enumerate() {
            if lost == Some(i) {
                continue;
            }
            let parsed = binance
                .parse_message(Some(depth(*first, *last, &[("0.0023", "5")])))
                .unwrap()
                .unwrap();
            match parsed.event {
                BookEvent::Delta {
                    bids,
                    asks,
                    first,
                    last,
                    ..
                } => outcomes.push(book.apply_delta(&bids, &asks, first, last)),
                _ => panic!("expected a delta"),
            }
        }
        match lost {
            None => {
                assert_eq!(
                    outcomes,
                    vec![Ok(false), Ok(true), Ok(true), Ok(true), Ok(true)]
                );
                assert_eq!(book.last_update_id(), 175);
            }
            Some(_) => {
                let gap = outcomes.pop().unwrap().unwrap_err();
                assert_eq!((gap.expected, gap.got), (165, 171));
                assert_eq!(book.last_update_id(), 164);
            }
        }
    }
}

#[test]
fn binance_connection_details() {
    let binance = Binance::new(&["EthUsdt", "ignored"]);
    assert_eq!(binance.name(), "binance");
    assert_eq!(binance.symbols(), &vec!["ETHUSDT"]);
    assert_eq!(
        binance.ws_url(),
        "wss://stream.binance.com:9443/ws/ethusdt@depth@100ms"
    );
    assert!(binance.subscribe_messages().is_empty());
    assert!(binance.needs_rest_snapshot());
    assert_eq!(
        binance.snapshot_url().unwrap(),
        "https://api.binance.com/api/v3/depth?symbol=ETHUSDT&limit=1000"
    );
    assert_eq!(binance.book_depth_limit(), None);
    assert!(binance
        .verify_checksum("ETHUSDT", &OrderBook::new(), 1)
        .is_ok());
}

#[test]
fn feed_without_a_symbol_reports_it() {
    let mut binance = Binance::new(&[]);
    assert!(binance.symbols().is_empty());
    assert!(matches!(binance.snapshot_url(), Err(FeedError::NoSymbol)));
    let e = binance.parse_message(Some(depth(1, 1, &[]))).unwrap_err();
    assert_eq!(e.to_text(), "no symbol configured");
}

#[test]
fn http_status_decides_on_the_snapshot() {
    for status in [200, 204, 299] {
        assert!(Binance::check_status(status).is_ok());
    }
    for status in [199, 300, 400, 500] {
        assert!(Binance::check_status(status).is_err());
    }
    assert_eq!(
        Binance::check_status(429).unwrap_err().to_text(),
        "snapshot HTTP 429"
    );
}

#[test]
fn levels_keep_their_order_and_the_first_bad_one_is_reported() {
    let levels = parse_levels(&pairs(&[("3", "1"), ("1", "2"), ("2", "0")])).unwrap();
    let prices: Vec<String> = levels.iter().map(|l| l.price.to_text()).collect();
    assert_eq!(prices, vec!["3", "1", "2"]);
    assert!(parse_levels(&[]).unwrap().is_empty());
    let e = parse_levels(&pairs(&[("1", "1"), ("2", "b"), ("c", "d")])).unwrap_err();
    assert!(e.to_text().starts_with("bad qty \"b\": "));
}

#[test]
fn default_symbols() {
    assert_eq!(ExchangeArg::Binance.default_symbol(), "BTCUSDT");
    assert_eq!(ExchangeArg::Coinbase.default_symbol(), "BTC-USD");
    assert_eq!(ExchangeArg::Kraken.default_symbol(), "BTC/USD");
}
