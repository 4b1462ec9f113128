use orderbook_feed::decimal::Decimal;
use orderbook_feed::metrics::{Latency, Metrics, PRINT_EVERY_NANOS};
use orderbook_feed::orderbook::{Level, OrderBook};

fn lvl(p: &str, q: &str) -> Level {
    Level {
        price: Decimal::from_str(p).unwrap(),
        qty: Decimal::from_str(q).unwrap(),
    }
}

#[test]
fn latency_empty_is_none() {
    let l = Latency::default();
    assert_eq!(l.summary(), None);
}

#[test]
fn latency_reports_avg_and_max() {
    let mut l = Latency::default();
    l.record(4);
    l.record(6);
    l.record(38);
    // avg = (4 + 6 + 38) / 3 = 16, max = 38
    assert_eq!(l.summary(), Some((16, 38)));
}

#[test]
fn latency_reset_clears_window() {
    let mut l = Latency::default();
    l.record(10);
    l.reset();
    assert_eq!(l.summary(), None);
}

#[test]
fn record_update_feeds_latency_window() {
    let mut m = Metrics::new("binance", "BTCUSDT");
    m.record_update(2, Some(10));
    m.record_update(2, Some(20));
    assert_eq!(m.window_latency.summary(), Some((15, 20)));
}

#[test]
fn record_update_without_timestamp_has_no_latency() {
    let mut m = Metrics::new("binance", "BTCUSDT");
    m.record_update(2, None);
    assert_eq!(m.window_latency.summary(), None);
}

#[test]
fn latency_average_is_cut_off() {
    let mut l = Latency::default();
    l.record(1);
    l.record(2);
    assert_eq!(l.summary(), Some((1, 2)));
    let mut zero = Latency::default();
    zero.record(0);
    assert_eq!(zero.summary(), Some((0, 0)));
}

#[test]
fn latency_has_a_limit() {
    let mut l = Latency::default();
    assert!(l.can_record(u64::MAX));
    l.record(u64::MAX);
    assert_eq!(l.summary(), Some((u64::MAX, u64::MAX)));
    assert!(l.can_record(0));
    assert!(!l.can_record(1));
}

#[test]
fn counters_have_a_limit() {
    let mut m = Metrics::new("kraken", "BTC/USD");
    assert!(m.can_record(usize::MAX, Some(u64::MAX)));
    m.record_update(usize::MAX, Some(u64::MAX));
    assert!(m.can_record(0, None));
    assert!(!m.can_record(1, None));
    assert!(!m.can_record(0, Some(1)));
}

#[test]
fn nothing_is_printed_within_a_second() {
    let mut m = Metrics::new("binance", "BTCUSDT");
    m.record_update(3, Some(7));
    let book = OrderBook::new();
    assert!(m
        .maybe_print(PRINT_EVERY_NANOS - 1, &book, 5, "1")
        .is_none());
    assert_eq!(m.window_updates(), 1);
    assert_eq!(m.window_latency.summary(), Some((7, 7)));
    // Just made, so its clocks have barely moved.
    assert!(m.since_print() < 3_600 * PRINT_EVERY_NANOS);
    assert!(m.window_elapsed().as_secs() < 3_600);
}

#[test]
fn report_shows_the_top_of_the_book() {
    let mut m = Metrics::new("binance", "BTCUSDT");
    m.record_update(2, Some(113));
    m.record_update(2, Some(146));
    let mut book = OrderBook::new();
    book.apply_snapshot(
        &[lvl("61966.14", "0.49"), lvl("61966.13", "0.00107000")],
        &[lvl("61966.15", "2.40")],
        1,
    );
    let report = m.maybe_print(PRINT_EVERY_NANOS, &book, 1, "10").unwrap();
    assert_eq!(
        report.headline(),
        "[binance:BTCUSDT] bid 61966.14 x 0.49 | ask 61966.15 x 2.40 | spread 0.01 | book 2/1 | 10 upd/s | lat 129/146 ms (avg/max) | 2 total"
    );
    assert_eq!(report.ladder_len(), 0);
    // The window starts anew; the total goes on.
    assert_eq!(m.window_updates(), 0);
    assert_eq!(m.window_latency.summary(), None);
    m.record_update(1, None);
    let report = m.maybe_print(PRINT_EVERY_NANOS, &book, 0, "1").unwrap();
    assert!(report
        .headline()
        .ends_with("| 1 upd/s | lat -- | 3 total"));
    assert_eq!(report.ladder_len(), 0);
}

#[test]
fn report_of_an_empty_book() {
    let mut m = Metrics::new("kraken", "BTC/USD");
    let report = m
        .maybe_print(u128::MAX, &OrderBook::new(), 2, "0")
        .unwrap();
    assert_eq!(
        report.headline(),
        "[kraken:BTC/USD] bid -- | ask -- | spread -- | book 0/0 | 0 upd/s | lat -- | 0 total"
    );
    assert_eq!(report.ladder_len(), 2);
    assert_eq!(report.ladder_line(0), format!("    {}  |  ", " ".repeat(29)));
}

#[test]
fn report_shows_the_ladder() {
    let mut m = Metrics::new("binance", "BTCUSDT");
    let mut book = OrderBook::new();
    book.apply_snapshot(
        &[
            lvl("61966.14000000", "0.49257000"),
            lvl("61966.13000000", "0.00107000"),
        ],
        &[lvl("61966.15000000", "2.40323000")],
        1,
    );
    let report = m.maybe_print(PRINT_EVERY_NANOS, &book, 3, "0").unwrap();
    assert_eq!(report.ladder_len(), 3);
    assert_eq!(
        report.ladder_line(0),
        "    61966.14000000     0.49257000  |  61966.15000000 2.40323000    "
    );
    assert_eq!(
        report.ladder_line(1),
        "    61966.13000000     0.00107000  |  "
    );
    assert_eq!(report.ladder_line(2), format!("    {}  |  ", " ".repeat(29)));
}

#[test]
fn ladder_columns_match_std_formatting() {
    let mut m = Metrics::new("binance", "BTCUSDT");
    let mut book = OrderBook::new();
    let numbers = [("1234567890.123456", "-0.5"), ("1", "22")];
    for (p, q) in numbers {
        book.apply_snapshot(&[lvl(p, q)], &[lvl(p, q)], 1);
        let report = m.maybe_print(PRINT_EVERY_NANOS, &book, 2, "0").unwrap();
        assert_eq!(
            report.ladder_line(0),
            format!("    {p:>14} {q:>14}  |  {p:<14} {q:<14}")
        );
    }
}
