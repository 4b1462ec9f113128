use orderbook_feed::backoff::{Backoff, HEALTHY_NANOS};

#[test]
fn delay_doubles_up_to_the_cap() {
    let mut backoff = Backoff::new();
    let delays: Vec<u64> = (0..9).map(|_| backoff.after_session(0)).collect();
    assert_eq!(
        delays,
        vec![500, 1_000, 2_000, 4_000, 8_000, 16_000, 30_000, 30_000, 30_000]
    );
}

#[test]
fn healthy_session_resets_the_delay() {
    let mut backoff = Backoff::new();
    for _ in 0..5 {
        backoff.after_session(0);
    }
    // Ten seconds sharp is not yet healthy.
    assert_eq!(backoff.after_session(HEALTHY_NANOS), 16_000);
    assert_eq!(backoff.after_session(HEALTHY_NANOS + 1), 500);
    assert_eq!(backoff.after_session(0), 1_000);
}
