use orderbook_feed::decimal::Decimal;
use orderbook_feed::orderbook::{Level, OrderBook, SequenceGap};

fn d(s: &str) -> Decimal {
    Decimal::from_str(s).unwrap()
}

fn lvl(p: &str, q: &str) -> Level {
    Level {
        price: d(p),
        qty: d(q),
    }
}

#[test]
fn snapshot_sets_top_of_book() {
    let mut b = OrderBook::new();
    b.apply_snapshot(
        &[lvl("100", "1"), lvl("99", "2")],
        &[lvl("101", "1"), lvl("102", "3")],
        10,
    );
    assert_eq!(b.best_bid(), Some((d("100"), d("1"))));
    assert_eq!(b.best_ask(), Some((d("101"), d("1"))));
    assert_eq!(b.spread(), Some(d("1")));
    assert_eq!(b.last_update_id(), 10);
}

#[test]
fn delta_updates_and_removes_levels() {
    let mut b = OrderBook::new();
    b.apply_snapshot(&[lvl("100", "1")], &[lvl("101", "1")], 5);
    // Update qty at 100, add new bid at 99, remove ask at 101.
    let applied = b
        .apply_delta(&[lvl("100", "4"), lvl("99", "2")], &[lvl("101", "0")], 6, 6)
        .unwrap();
    assert!(applied);
    assert_eq!(b.best_bid(), Some((d("100"), d("4"))));
    assert_eq!(b.best_ask(), None); // 101 was removed
    assert_eq!(b.depth(), (2, 0));
    assert_eq!(b.last_update_id(), 6);
}

#[test]
fn stale_delta_is_ignored() {
    let mut b = OrderBook::new();
    b.apply_snapshot(&[lvl("100", "1")], &[lvl("101", "1")], 100);
    let applied = b.apply_delta(&[lvl("100", "9")], &[], 90, 99).unwrap();
    assert!(!applied);
    assert_eq!(b.best_bid(), Some((d("100"), d("1"))));
    assert_eq!(b.last_update_id(), 100);
}

#[test]
fn overlapping_delta_is_applied() {
    let mut b = OrderBook::new();
    b.apply_snapshot(&[lvl("100", "1")], &[lvl("101", "1")], 100);
    // Binance-style: first <= last_update_id+1 <= last
    let applied = b.apply_delta(&[lvl("100", "7")], &[], 98, 105).unwrap();
    assert!(applied);
    assert_eq!(b.best_bid(), Some((d("100"), d("7"))));
    assert_eq!(b.last_update_id(), 105);
}

#[test]
fn gap_is_detected() {
    let mut b = OrderBook::new();
    b.apply_snapshot(&[lvl("100", "1")], &[lvl("101", "1")], 100);
    // Expected 101, but delta starts at 103 -> gap.
    let err = b
        .apply_delta(&[lvl("100", "7")], &[], 103, 104)
        .unwrap_err();
    assert_eq!(err.expected, 101);
    assert_eq!(err.got, 103);
}

#[test]
fn delta_before_init_errors() {
    let mut b = OrderBook::new();
    assert!(b.apply_delta(&[lvl("100", "1")], &[], 1, 1).is_err());
}

#[test]
fn unseeded_book_reports_the_first_id_it_got() {
    let mut b = OrderBook::new();
    assert_eq!(
        b.apply_delta(&[], &[], 7, 9),
        Err(SequenceGap {
            expected: 0,
            got: 7
        })
    );
    assert!(!b.accepts(1, 1));
}

#[test]
fn gap_in_words() {
    let gap = SequenceGap {
        expected: 101,
        got: 103,
    };
    assert_eq!(
        gap.to_text(),
        "sequence gap: expected 101, got 103"
    );
}

#[test]
fn gap_leaves_the_book_alone() {
    let mut b = OrderBook::new();
    b.apply_snapshot(&[lvl("100", "1")], &[lvl("101", "1")], 100);
    assert!(b
        .apply_delta(&[lvl("100", "7")], &[lvl("101", "0")], 102, 102)
        .is_err());
    assert_eq!(b.best_bid(), Some((d("100"), d("1"))));
    assert_eq!(b.best_ask(), Some((d("101"), d("1"))));
    assert_eq!(b.last_update_id(), 100);
}

#[test]
fn snapshot_replaces_everything() {
    let mut b = OrderBook::new();
    b.apply_snapshot(&[lvl("100", "1")], &[lvl("101", "1")], 100);
    b.apply_snapshot(&[lvl("50", "2")], &[], 3);
    assert_eq!(b.depth(), (1, 0));
    assert_eq!(b.best_bid(), Some((d("50"), d("2"))));
    assert_eq!(b.last_update_id(), 3);
    assert_eq!(b.spread(), None);
}

#[test]
fn redelivered_delta_is_dropped() {
    let mut b = OrderBook::new();
    b.apply_snapshot(&[], &[], 10);
    assert_eq!(b.apply_delta(&[lvl("1", "1")], &[], 11, 12), Ok(true));
    assert_eq!(b.apply_delta(&[lvl("1", "5")], &[], 11, 12), Ok(false));
    assert_eq!(b.best_bid(), Some((d("1"), d("1"))));
}

#[test]
fn last_update_id_reaches_its_limit() {
    let mut b = OrderBook::new();
    b.apply_snapshot(&[], &[], u64::MAX - 1);
    assert!(b.accepts(u64::MAX, u64::MAX));
    assert_eq!(b.apply_delta(&[], &[], u64::MAX, u64::MAX), Ok(true));
    assert_eq!(b.apply_delta(&[], &[], u64::MAX, u64::MAX), Ok(false));
}

#[test]
fn equal_prices_are_one_level_and_keep_their_first_form() {
    let mut b = OrderBook::new();
    b.apply_snapshot(&[lvl("1.50", "1")], &[], 1);
    assert_eq!(b.apply_delta(&[lvl("1.5", "2")], &[], 2, 2), Ok(true));
    assert_eq!(b.depth(), (1, 0));
    let (price, qty) = b.best_bid().unwrap();
    assert_eq!(price.to_text(), "1.50");
    assert_eq!(qty.to_text(), "2");
    assert_eq!(b.apply_delta(&[lvl("1.500", "0.00")], &[], 3, 3), Ok(true));
    assert_eq!(b.depth(), (0, 0));
}

#[test]
fn sides_are_sorted_best_first() {
    let mut b = OrderBook::new();
    b.apply_snapshot(
        &[lvl("9", "1"), lvl("10", "1"), lvl("9.5", "1")],
        &[lvl("12", "1"), lvl("11", "1"), lvl("100", "1")],
        1,
    );
    let bids: Vec<String> = b.top_bids(2).iter().map(|q| q.0.to_text()).collect();
    assert_eq!(bids, vec!["10", "9.5"]);
    let asks: Vec<String> = b.top_asks(10).iter().map(|q| q.0.to_text()).collect();
    assert_eq!(asks, vec!["11", "12", "100"]);
}

#[test]
fn retain_top_keeps_the_best_levels() {
    let mut b = OrderBook::new();
    b.apply_snapshot(
        &[lvl("9", "1"), lvl("10", "1"), lvl("8", "1")],
        &[lvl("12", "1"), lvl("11", "1"), lvl("13", "1")],
        4,
    );
    b.retain_top(2);
    assert_eq!(b.depth(), (2, 2));
    let bids: Vec<String> = b.top_bids(9).iter().map(|q| q.0.to_text()).collect();
    assert_eq!(bids, vec!["10", "9"]);
    let asks: Vec<String> = b.top_asks(9).iter().map(|q| q.0.to_text()).collect();
    assert_eq!(asks, vec!["11", "12"]);
    assert_eq!(b.last_update_id(), 4);
    b.retain_top(2);
    assert_eq!(b.depth(), (2, 2));
    b.retain_top(0);
    assert_eq!(b.depth(), (0, 0));
}

#[test]
fn batching_deltas_makes_no_difference() {
    let mut one = OrderBook::new();
    one.apply_snapshot(&[lvl("5", "1")], &[], 1);
    assert_eq!(one.apply_delta(&[lvl("6", "2")], &[], 2, 2), Ok(true));
    assert_eq!(one.apply_delta(&[lvl("5", "0")], &[], 3, 3), Ok(true));
    let mut both = OrderBook::new();
    both.apply_snapshot(&[lvl("5", "1")], &[], 1);
    assert_eq!(
        both.apply_delta(&[lvl("6", "2"), lvl("5", "0")], &[], 2, 3),
        Ok(true)
    );
    assert_eq!(one.top_bids(9), both.top_bids(9));
    assert_eq!(one.last_update_id(), both.last_update_id());
}

#[test]
fn spread_may_be_negative_or_out_of_range() {
    let mut b = OrderBook::new();
    b.apply_snapshot(&[lvl("10", "1")], &[lvl("9.5", "1")], 1);
    assert!(b.has_spread_in_range());
    assert_eq!(b.spread().unwrap().to_text(), "-0.5");
    b.apply_snapshot(
        &[lvl("-79228162514264337593543950335", "1")],
        &[lvl("79228162514264337593543950335", "1")],
        1,
    );
    assert!(!b.has_spread_in_range());
}

#[test]
fn last_level_of_a_price_counts() {
    let mut b = OrderBook::new();
    b.apply_snapshot(
        &[
            lvl("5", "1"),
            lvl("6", "1"),
            lvl("5.0", "3"),
            lvl("6", "0"),
        ],
        &[lvl("7", "0"), lvl("7", "2")],
        1,
    );
    assert_eq!(b.top_bids(9), vec![(d("5"), d("3"))]);
    assert_eq!(b.top_asks(9), vec![(d("7"), d("2"))]);
}

#[test]
fn removing_an_absent_level_changes_nothing() {
    let mut b = OrderBook::new();
    b.apply_snapshot(&[lvl("5", "1")], &[lvl("6", "1")], 1);
    assert_eq!(
        b.apply_delta(&[lvl("4", "0")], &[lvl("9", "0")], 2, 2),
        Ok(true)
    );
    assert_eq!(b.depth(), (1, 1));
    assert_eq!(b.best_bid(), Some((d("5"), d("1"))));
}

#[test]
fn updates_of_different_prices_commute() {
    let updates = [lvl("5", "0"), lvl("6", "2"), lvl("4", "1")];
    let reversed = [lvl("4", "1"), lvl("6", "2"), lvl("5", "0")];
    let mut a = OrderBook::new();
    a.apply_snapshot(&[lvl("5", "1")], &[], 1);
    let mut b = OrderBook::new();
    b.apply_snapshot(&[lvl("5", "1")], &[], 1);
    assert_eq!(a.apply_delta(&updates, &[], 2, 2), Ok(true));
    assert_eq!(b.apply_delta(&reversed, &[], 2, 2), Ok(true));
    assert_eq!(a.top_bids(9), b.top_bids(9));
    assert_eq!(a.top_bids(9), vec![(d("6"), d("2")), (d("4"), d("1"))]);
}
