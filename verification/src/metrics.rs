//! Lightweight throughput/latency accounting and periodic top-of-book output.

use crate::decimal::{
    decimal_difference, law_text_is_one_word, law_text_tells_numbers_apart, plain_text, Decimal,
};
use crate::orderbook::{first_n, smaller, OrderBook};
use crate::text::{
    align_left, align_right, blank, filling, is_numeral, law_notation_is_the_numeral, lemma_shows,
    lemma_still_shows, nat_text, shows, spaces, u64_text,
};
use std::time::{Duration, Instant};
use vstd::prelude::*;
use vstd::string::*;

verus! {

/// `std::time::Instant`, a reading of the monotonic clock.
#[verifier::external_type_specification]
#[verifier::external_body]
pub struct ExInstant(Instant);

/// `Instant::now` reads the clock; nothing is claimed of the reading.
pub assume_specification[ Instant::now ]() -> (now: Instant)
;

/// `Instant::elapsed` measures the time since the reading; nothing is claimed of
/// it.
pub assume_specification[ Instant::elapsed ](since: &Instant) -> (elapsed: Duration)
;

/// `Duration::as_nanos` counts the nanoseconds of a duration; durations come
/// from the clock alone, so nothing is claimed of the count.
pub assume_specification[ Duration::as_nanos ](d: &Duration) -> (nanos: u128)
;

/// The sum of the samples.
pub open spec fn total(samples: Seq<u64>) -> nat
    decreases samples.len(),
{
    if samples.len() == 0 {
        0
    } else {
        total(samples.drop_last()) + samples.last() as nat
    }
}

/// The largest of the samples, or zero if there are none.
pub open spec fn maximum(samples: Seq<u64>) -> u64
    decreases samples.len(),
{
    if samples.len() == 0 {
        0
    } else if maximum(samples.drop_last()) < samples.last() {
        samples.last()
    } else {
        maximum(samples.drop_last())
    }
}

/// Rolling per-window latency aggregation: event-time (exchange) to
/// receive-time (local). Tracks enough to report average and worst-case. Its
/// view is the list of the samples of the window.
pub struct Latency {
    sum_ms: u64,
    count: u64,
    max_ms: u64,
    samples: Ghost<Seq<u64>>,
}

impl View for Latency {
    type V = Seq<u64>;

    closed spec fn view(&self) -> Seq<u64> {
        self.samples@
    }
}

impl Default for Latency {
    fn default() -> (latency: Self)
        ensures
            latency@ == Seq::<u64>::empty(),
    {
        Latency { sum_ms: 0, count: 0, max_ms: 0, samples: Ghost(Seq::empty()) }
    }
}

impl Latency {
    #[verifier::type_invariant]
    spec fn well_formed(self) -> bool {
        &&& self.sum_ms == total(self.samples@)
        &&& self.count == self.samples@.len()
        &&& self.max_ms == maximum(self.samples@)
    }

    /// The counters leave room for the sample.
    pub open spec fn has_room_for(self, ms: u64) -> bool {
        &&& self@.len() < u64::MAX
        &&& total(self@) + ms <= u64::MAX
    }

    /// Whether the counters leave room for the sample.
    pub fn can_record(&self, ms: u64) -> (r: bool)
        ensures
            r == self.has_room_for(ms),
    {
        proof {
            use_type_invariant(self);
        }
        self.count < u64::MAX && self.sum_ms <= u64::MAX - ms
    }

    /// Adds a sample to the window.
    pub fn record(&mut self, ms: u64)
        requires
            old(self).has_room_for(ms),
        ensures
            final(self)@ == old(self)@.push(ms),
    {
        proof {
            use_type_invariant(&*self);
        }
        let ghost samples = self@.push(ms);
        assert(samples.drop_last() =~= self@);
        let max_ms: u64 = if self.max_ms < ms {
            ms
        } else {
            self.max_ms
        };
        *self =
        Latency {
            sum_ms: self.sum_ms + ms,
            count: self.count + 1,
            max_ms,
            samples: Ghost(samples),
        };
    }

    /// `(avg_ms, max_ms)` over the current window, or `None` if no samples
    /// were recorded (e.g. a feed that carries no event timestamp).
    pub fn summary(&self) -> (r: Option<(u64, u64)>)
        ensures
            r == summary_of(self@),
    {
        proof {
            use_type_invariant(self);
        }
        match self.sum_ms.checked_div(self.count) {
            Some(avg) => Some((avg, self.max_ms)),
            None => None,
        }
    }

    /// Starts a new window.
    pub fn reset(&mut self)
        ensures
            final(self)@ == Seq::<u64>::empty(),
    {
        *self = Latency::default();
    }
}

/// The average, cut off to whole milliseconds, and the maximum.
pub open spec fn summary_of(samples: Seq<u64>) -> Option<(u64, u64)> {
    if samples.len() == 0 {
        None
    } else {
        Some(((total(samples) / samples.len()) as u64, maximum(samples)))
    }
}

/// The maximum is one of the samples, and none of them exceeds it.
pub proof fn law_maximum_is_the_worst_case(samples: Seq<u64>)
    requires
        samples.len() > 0,
    ensures
        samples.contains(maximum(samples)),
        forall|i: int| 0 <= i < samples.len() ==> #[trigger] samples[i] <= maximum(samples),
    decreases samples.len(),
{
    let front = samples.drop_last();
    let last = samples.len() - 1;
    assert(samples[last] == samples.last());
    if front.len() > 0 {
        law_maximum_is_the_worst_case(front);
        assert forall|i: int| 0 <= i < samples.len() implies #[trigger] samples[i] <= maximum(
            samples,
        ) by {
            if i < last {
                assert(front[i] == samples[i]);
            }
        }
        if maximum(samples) != samples.last() {
            let i = choose|i: int| 0 <= i < front.len() && front[i] == maximum(front);
            assert(samples[i] == maximum(samples));
        }
    } else {
        assert(maximum(front) == 0);
    }
}

proof fn lemma_total_is_bounded(samples: Seq<u64>)
    ensures
        total(samples) <= samples.len() * maximum(samples),
    decreases samples.len(),
{
    if samples.len() > 0 {
        let front = samples.drop_last();
        lemma_total_is_bounded(front);
        let n = front.len();
        let m = maximum(front) as nat;
        let top = maximum(samples) as nat;
        assert(n * m <= n * top) by (nonlinear_arith)
            requires
                m <= top,
        ;
        assert(n * top + top == (n + 1) * top) by (nonlinear_arith);
    }
}

/// The average of a window does not exceed its maximum.
pub proof fn law_average_is_at_most_the_maximum(samples: Seq<u64>)
    ensures
        summary_of(samples) matches Some((average, worst)) ==> average <= worst,
{
    if samples.len() > 0 {
        lemma_total_is_bounded(samples);
        let n = samples.len() as int;
        let t = total(samples) as int;
        let m = maximum(samples) as int;
        assert(t / n <= m) by (nonlinear_arith)
            requires
                n > 0,
                t <= n * m,
        ;
        assert(0 <= t / n) by (nonlinear_arith)
            requires
                n > 0,
                0 <= t,
        ;
    }
}

/// Whose feed is accounted for, how many updates were applied, and since when.
pub struct Tally {
    exchange: String,
    symbol: String,
    total_updates: u64,
    total_levels: u64,
    window_updates: u64,
    window_start: Instant,
    last_print: Instant,
}

/// The accounting of one symbol's feed.
pub struct Metrics {
    pub tally: Tally,
    pub window_latency: Latency,
}

/// How long to wait between two lines of output, in nanoseconds.
pub const PRINT_EVERY_NANOS: u128 = 1_000_000_000;

/// What a [`Metrics`] says: whose feed it accounts for, the updates applied and
/// the levels they touched, and the updates and latencies of the window.
pub struct MetricsView {
    pub exchange: Seq<char>,
    pub symbol: Seq<char>,
    pub total_updates: u64,
    pub total_levels: u64,
    pub window_updates: u64,
    pub latencies: Seq<u64>,
}

/// The counters leave room for one more update.
pub open spec fn has_room(m: MetricsView, levels: nat, latency_ms: Option<u64>) -> bool {
    &&& m.total_updates < u64::MAX
    &&& m.total_levels + levels <= u64::MAX
    &&& m.window_updates < u64::MAX
    &&& latency_ms matches Some(ms) ==> m.latencies.len() < u64::MAX && total(m.latencies) + ms
        <= u64::MAX
}

/// The accounting after one more update.
pub open spec fn with_update(m: MetricsView, levels: nat, latency_ms: Option<u64>) -> MetricsView {
    MetricsView {
        total_updates: (m.total_updates + 1) as u64,
        total_levels: (m.total_levels + levels) as u64,
        window_updates: (m.window_updates + 1) as u64,
        latencies: match latency_ms {
            Some(ms) => m.latencies.push(ms),
            None => m.latencies,
        },
        ..m
    }
}

/// The accounting at the start of a new window.
pub open spec fn with_new_window(m: MetricsView) -> MetricsView {
    MetricsView { window_updates: 0, latencies: Seq::empty(), ..m }
}

/// The accounting before the first update.
pub open spec fn fresh(exchange: Seq<char>, symbol: Seq<char>) -> MetricsView {
    MetricsView {
        exchange,
        symbol,
        total_updates: 0,
        total_levels: 0,
        window_updates: 0,
        latencies: Seq::empty(),
    }
}

impl Tally {
    /// The exchange.
    pub closed spec fn exchange(self) -> Seq<char> {
        self.exchange@
    }

    /// The symbol.
    pub closed spec fn symbol(self) -> Seq<char> {
        self.symbol@
    }

    /// The updates applied.
    pub closed spec fn total_updates(self) -> u64 {
        self.total_updates
    }

    /// The levels that they touched.
    pub closed spec fn total_levels(self) -> u64 {
        self.total_levels
    }

    /// The updates applied in the window.
    pub closed spec fn window_updates(self) -> u64 {
        self.window_updates
    }

    /// When the window was opened.
    pub closed spec fn window_start(self) -> Instant {
        self.window_start
    }

    /// When the last output was made.
    pub closed spec fn last_print(self) -> Instant {
        self.last_print
    }
}

impl View for Metrics {
    type V = MetricsView;

    open spec fn view(&self) -> MetricsView {
        MetricsView {
            exchange: self.tally.exchange(),
            symbol: self.tally.symbol(),
            total_updates: self.tally.total_updates(),
            total_levels: self.tally.total_levels(),
            window_updates: self.tally.window_updates(),
            latencies: self.window_latency@,
        }
    }
}

/// A quote on the one-line summary.
pub open spec fn quote_text(quote: Option<(Decimal, Decimal)>) -> Seq<char> {
    match quote {
        Some((price, qty)) => plain_text(price) + " x "@ + plain_text(qty),
        None => "--"@,
    }
}

/// The latency on the one-line summary.
pub open spec fn latency_text(summary: Option<(u64, u64)>) -> Seq<char> {
    match summary {
        Some((average, worst)) => "lat "@ + nat_text(average as nat) + "/"@ + nat_text(worst as nat)
            + " ms (avg/max)"@,
        None => "lat --"@,
    }
}

/// The best bid, if there is one.
pub open spec fn best_bid_of(book: OrderBook) -> Option<(Decimal, Decimal)> {
    if book.bids().len() == 0 {
        None
    } else {
        Some(book.bids().last())
    }
}

/// The best ask, if there is one.
pub open spec fn best_ask_of(book: OrderBook) -> Option<(Decimal, Decimal)> {
    if book.asks().len() == 0 {
        None
    } else {
        Some(book.asks().first())
    }
}

/// The spread on the one-line summary.
pub open spec fn spread_text(book: OrderBook) -> Seq<char> {
    match (best_bid_of(book), best_ask_of(book)) {
        (Some((bid, _)), Some((ask, _))) => plain_text(decimal_difference(ask, bid)),
        _ => "--"@,
    }
}

/// The one-line summary, for a rate of updates per second given as text.
pub open spec fn headline_text(m: MetricsView, book: OrderBook, rate: Seq<char>) -> Seq<char> {
    "["@ + m.exchange + ":"@ + m.symbol + "] bid "@ + quote_text(best_bid_of(book)) + " | ask "@
        + quote_text(best_ask_of(book)) + " | spread "@ + spread_text(book) + " | book "@
        + nat_text(book.bids().len()) + "/"@ + nat_text(book.asks().len()) + " | "@ + rate
        + " upd/s | "@ + latency_text(summary_of(m.latencies)) + " | "@ + nat_text(
        m.total_updates as nat,
    ) + " total"@
}

/// Line `i` of the ladder below the summary: the bids on the left, flush with
/// the right end of their columns, the asks on the right, flush with the left.
pub open spec fn ladder_text(
    bids: Seq<(Decimal, Decimal)>,
    asks: Seq<(Decimal, Decimal)>,
    i: nat,
) -> Seq<char> {
    "    "@ + (if i < bids.len() {
        right_text(bids[i as int].0) + " "@ + right_text(bids[i as int].1)
    } else {
        spaces(29)
    }) + "  |  "@ + (if i < asks.len() {
        left_text(asks[i as int].0) + " "@ + left_text(asks[i as int].1)
    } else {
        seq![]
    })
}

/// A number flush right in 14 columns.
pub open spec fn right_text(d: Decimal) -> Seq<char> {
    filling(plain_text(d), 14) + plain_text(d)
}

/// A number flush left in 14 columns.
pub open spec fn left_text(d: Decimal) -> Seq<char> {
    plain_text(d) + filling(plain_text(d), 14)
}

/// What is printed of a book: the summary, and the ladder of the best levels.
pub struct Report {
    headline: String,
    bids: Vec<(Decimal, Decimal)>,
    asks: Vec<(Decimal, Decimal)>,
    depth: usize,
}

impl Report {
    /// The one-line summary.
    pub closed spec fn headline_view(self) -> Seq<char> {
        self.headline@
    }

    /// The bids of the ladder, best first.
    pub closed spec fn bids(self) -> Seq<(Decimal, Decimal)> {
        self.bids@
    }

    /// The asks of the ladder, best first.
    pub closed spec fn asks(self) -> Seq<(Decimal, Decimal)> {
        self.asks@
    }

    /// How deep the ladder is.
    pub closed spec fn depth(self) -> usize {
        self.depth
    }

    /// The one-line summary.
    pub fn headline(&self) -> (line: &str)
        ensures
            line@ == self.headline_view(),
    {
        self.headline.as_str()
    }

    /// The number of lines of the ladder: none where only the top of the book is
    /// asked for.
    pub fn ladder_len(&self) -> (n: usize)
        ensures
            n == if self.depth() > 1 {
                self.depth()
            } else {
                0
            },
    {
        if self.depth > 1 {
            self.depth
        } else {
            0
        }
    }

    /// Line `i` of the ladder.
    pub fn ladder_line(&self, i: usize) -> (line: String)
        ensures
            line@ == ladder_text(self.bids(), self.asks(), i as nat),
    {
        let mut line: String = "    ".to_owned();
        if i < self.bids.len() {
            let (price, qty) = self.bids[i];
            line.append(align_right(price.to_text().as_str(), 14).as_str());
            line.append(" ");
            line.append(align_right(qty.to_text().as_str(), 14).as_str());
        } else {
            line.append(blank(29).as_str());
        }
        assert(line@ =~= "    "@ + (if i < self.bids@.len() {
            right_text(self.bids@[i as int].0) + " "@ + right_text(self.bids@[i as int].1)
        } else {
            spaces(29)
        }));
        line.append("  |  ");
        let ghost left = line@;
        if i < self.asks.len() {
            let (price, qty) = self.asks[i];
            line.append(align_left(price.to_text().as_str(), 14).as_str());
            line.append(" ");
            line.append(align_left(qty.to_text().as_str(), 14).as_str());
            assert(line@ =~= left + (left_text(price) + " "@ + left_text(qty)));
        }
        assert(left + seq![] =~= left);
        line
    }
}

/// Appends a quote to the summary.
fn append_quote(line: &mut String, quote: Option<(Decimal, Decimal)>)
    ensures
        final(line)@ == old(line)@ + quote_text(quote),
{
    let ghost before = line@;
    match quote {
        Some((price, qty)) => {
            line.append(price.to_text().as_str());
            line.append(" x ");
            line.append(qty.to_text().as_str());
            assert(line@ =~= before + quote_text(quote));
        },
        None => line.append("--"),
    }
}

/// Appends the latency to the summary.
fn append_latency(line: &mut String, summary: Option<(u64, u64)>)
    ensures
        final(line)@ == old(line)@ + latency_text(summary),
{
    let ghost before = line@;
    match summary {
        Some((average, worst)) => {
            line.append("lat ");
            line.append(u64_text(average).as_str());
            line.append("/");
            line.append(u64_text(worst).as_str());
            line.append(" ms (avg/max)");
            assert(line@ =~= before + latency_text(summary));
        },
        None => line.append("lat --"),
    }
}

impl Metrics {
    /// When the window was opened.
    pub open spec fn window_start(self) -> Instant {
        self.tally.window_start()
    }

    /// When the last output was made.
    pub open spec fn last_print(self) -> Instant {
        self.tally.last_print()
    }

    /// The accounting of a feed of `symbol` on `exchange`.
    pub fn new(exchange: &str, symbol: &str) -> (m: Self)
        ensures
            m@ == fresh(exchange@, symbol@),
            call_ensures(Instant::now, (), m.last_print()),
            m.window_start() == m.last_print(),
    {
        let now: Instant = Instant::now();
        Metrics {
            tally: Tally {
                exchange: exchange.to_owned(),
                symbol: symbol.to_owned(),
                total_updates: 0,
                total_levels: 0,
                window_updates: 0,
                window_start: now,
                last_print: now,
            },
            window_latency: Latency::default(),
        }
    }

    /// Whether the counters leave room for one more update.
    pub fn can_record(&self, levels: usize, latency_ms: Option<u64>) -> (r: bool)
        ensures
            r == has_room(self@, levels as nat, latency_ms),
    {
        if self.tally.total_updates == u64::MAX || self.tally.window_updates == u64::MAX
            || self.tally.total_levels > u64::MAX - levels as u64 {
            return false;
        }
        match latency_ms {
            Some(ms) => self.window_latency.can_record(ms),
            None => true,
        }
    }

    /// Record an applied delta touching `levels` price points. `latency_ms` is
    /// the event-to-receive latency when the feed carries an event timestamp.
    pub fn record_update(&mut self, levels: usize, latency_ms: Option<u64>)
        requires
            has_room(old(self)@, levels as nat, latency_ms),
        ensures
            final(self)@ == with_update(old(self)@, levels as nat, latency_ms),
            final(self).last_print() == old(self).last_print(),
            final(self).window_start() == old(self).window_start(),
    {
        self.tally.total_updates = self.tally.total_updates + 1;
        self.tally.total_levels = self.tally.total_levels + levels as u64;
        self.tally.window_updates = self.tally.window_updates + 1;
        match latency_ms {
            Some(ms) => self.window_latency.record(ms),
            None => {},
        }
    }

    /// The updates of the window, which the rate is computed from.
    pub fn window_updates(&self) -> (n: u64)
        ensures
            n == self@.window_updates,
    {
        self.tally.window_updates
    }

    /// How long the window has been open, by the clock: a measurement that starts
    /// when the window did. How long it is rests with the clock.
    pub fn window_elapsed(&self) -> (elapsed: Duration)
        ensures
            call_ensures(Instant::elapsed, (&self.window_start(),), elapsed),
    {
        self.tally.window_start.elapsed()
    }

    /// The one-line summary, for a rate of updates per second given as text.
    fn headline(&self, book: &OrderBook, rate: &str) -> (line: String)
        requires
            !book.spread_overflows(),
        ensures
            line@ == headline_text(self@, *book, rate@),
    {
        let (bid_levels, ask_levels) = book.depth();
        let mut line: String = "[".to_owned();
        line.append(self.tally.exchange.as_str());
        line.append(":");
        line.append(self.tally.symbol.as_str());
        line.append("] bid ");
        append_quote(&mut line, book.best_bid());
        line.append(" | ask ");
        append_quote(&mut line, book.best_ask());
        line.append(" | spread ");
        match book.spread() {
            Some(spread) => line.append(spread.to_text().as_str()),
            None => line.append("--"),
        }
        line.append(" | book ");
        line.append(u64_text(bid_levels as u64).as_str());
        line.append("/");
        line.append(u64_text(ask_levels as u64).as_str());
        line.append(" | ");
        line.append(rate);
        line.append(" upd/s | ");
        append_latency(&mut line, self.window_latency.summary());
        line.append(" | ");
        line.append(u64_text(self.tally.total_updates).as_str());
        line.append(" total");
        line
    }

    /// The time since the last output, by the clock, in nanoseconds: a measurement
    /// that starts at the last output. How long it is rests with the clock.
    pub fn since_print(&self) -> (nanos: u128)
        ensures
            exists|elapsed: Duration|
                #[trigger] call_ensures(Instant::elapsed, (&self.last_print(),), elapsed)
                    && call_ensures(Duration::as_nanos, (&elapsed,), nanos),
    {
        let elapsed: Duration = self.tally.last_print.elapsed();
        assert(call_ensures(Instant::elapsed, (&self.last_print(),), elapsed));
        elapsed.as_nanos()
    }

    /// What to print of `book`, `since_print` nanoseconds after the last output:
    /// nothing within a second of it. Printing starts a new window. `rate` is the
    /// number of updates per second in the window.
    pub fn maybe_print(
        &mut self,
        since_print: u128,
        book: &OrderBook,
        depth: usize,
        rate: &str,
    ) -> (r: Option<Report>)
        requires
            since_print >= PRINT_EVERY_NANOS ==> !book.spread_overflows(),
        ensures
            r is Some <==> since_print >= PRINT_EVERY_NANOS,
            r is Some <==> since_print >= 1_000_000_000,
            reported(*old(self), *book, depth, rate@, r, *final(self)),
    {
        if since_print < PRINT_EVERY_NANOS {
            return None;
        }
        let headline: String = self.headline(book, rate);
        let report = Report {
            headline,
            bids: book.top_bids(depth),
            asks: book.top_asks(depth),
            depth,
        };
        self.tally.last_print = Instant::now();
        self.tally.window_updates = 0;
        self.tally.window_start = Instant::now();
        self.window_latency.reset();
        Some(report)
    }
}

/// What a report says, and that it starts a new window and reads the clock anew;
/// without one, nothing changes.
pub open spec fn reported(
    before: Metrics,
    book: OrderBook,
    depth: usize,
    rate: Seq<char>,
    report: Option<Report>,
    after: Metrics,
) -> bool {
    match report {
        None => after == before,
        Some(report) => {
            &&& report.headline_view() == headline_text(before@, book, rate)
            &&& report.bids() == first_n(book.bids().reverse(), depth as nat)
            &&& report.asks() == first_n(book.asks(), depth as nat)
            &&& report.depth() == depth
            &&& after@ == with_new_window(before@)
            &&& call_ensures(Instant::now, (), after.last_print())
            &&& call_ensures(Instant::now, (), after.window_start())
        },
    }
}

/// Printing keeps the totals: only the window starts anew.
pub proof fn law_totals_survive_a_report(m: MetricsView)
    ensures
        with_new_window(m).total_updates == m.total_updates,
        with_new_window(m).total_levels == m.total_levels,
        with_new_window(m).window_updates == 0,
        summary_of(with_new_window(m).latencies) is None,
{
}

/// Samples add up one by one.
pub proof fn law_samples_add_up(samples: Seq<u64>, ms: u64)
    ensures
        total(Seq::empty()) == 0,
        total(samples.push(ms)) == total(samples) + ms,
{
    assert(samples.push(ms).drop_last() =~= samples);
}

/// There is a summary exactly if there are samples: the average is the largest
/// whole number of milliseconds of which the samples hold one for each of them,
/// and the maximum is the largest sample.
pub proof fn law_summary_is_average_and_worst(samples: Seq<u64>)
    ensures
        match summary_of(samples) {
            Some((average, worst)) => {
                &&& samples.len() > 0
                &&& average * samples.len() <= total(samples) < (average + 1) * samples.len()
                &&& samples.contains(worst)
                &&& forall|i: int| 0 <= i < samples.len() ==> #[trigger] samples[i] <= worst
            },
            None => samples.len() == 0,
        },
{
    if samples.len() > 0 {
        law_maximum_is_the_worst_case(samples);
        lemma_total_is_bounded(samples);
        let n = samples.len() as int;
        let t = total(samples) as int;
        let m = maximum(samples) as int;
        let q = t / n;
        vstd::arithmetic::div_mod::lemma_fundamental_div_mod(t, n);
        assert(q * n <= t < (q + 1) * n) by (nonlinear_arith)
            requires
                t == n * q + t % n,
                0 <= t % n < n,
        ;
        assert(0 <= q <= m) by (nonlinear_arith)
            requires
                n > 0,
                0 <= t <= n * m,
                q == t / n,
        ;
    }
}

/// An applied update counts once, in the total and in the window, with the levels
/// that it touches; its latency, if it has one, is a sample of the window. Whose
/// feed it is stays.
pub proof fn law_update_is_counted_once(m: MetricsView, levels: nat, latency_ms: Option<u64>)
    requires
        m.total_updates < u64::MAX,
        m.total_levels + levels <= u64::MAX,
        m.window_updates < u64::MAX,
    ensures
        ({
            let after = with_update(m, levels, latency_ms);
            &&& after.total_updates == m.total_updates + 1
            &&& after.total_levels == m.total_levels + levels
            &&& after.window_updates == m.window_updates + 1
            &&& after.exchange == m.exchange
            &&& after.symbol == m.symbol
            &&& latency_ms is None ==> after.latencies == m.latencies
            &&& latency_ms matches Some(ms) ==> after.latencies == m.latencies + seq![ms]
        }),
{
    match latency_ms {
        Some(ms) => {
            assert(m.latencies.push(ms) =~= m.latencies + seq![ms]);
        },
        None => {},
    }
}

/// There is room for an update until a counter would leave its range.
pub proof fn law_room_lasts_until_a_counter_is_full(
    m: MetricsView,
    levels: nat,
    latency_ms: Option<u64>,
)
    requires
        m.total_updates < 0xFFFF_FFFF_FFFF_FFFF,
        m.window_updates < 0xFFFF_FFFF_FFFF_FFFF,
        m.total_levels + levels <= 0xFFFF_FFFF_FFFF_FFFF,
        latency_ms matches Some(ms) ==> m.latencies.len() < 0xFFFF_FFFF_FFFF_FFFF && total(
            m.latencies,
        ) + ms <= 0xFFFF_FFFF_FFFF_FFFF,
    ensures
        has_room(m, levels, latency_ms),
{
}

/// A new window and a fresh accounting count from zero; a new window leaves the
/// totals and whose feed it is.
pub proof fn law_windows_start_at_zero(
    m: MetricsView,
    exchange: Seq<char>,
    symbol: Seq<char>,
)
    ensures
        with_new_window(m).window_updates == 0,
        with_new_window(m).latencies.len() == 0,
        with_new_window(m).total_updates == m.total_updates,
        with_new_window(m).total_levels == m.total_levels,
        with_new_window(m).exchange == m.exchange,
        with_new_window(m).symbol == m.symbol,
        fresh(exchange, symbol).total_updates == 0,
        fresh(exchange, symbol).total_levels == 0,
        fresh(exchange, symbol).window_updates == 0,
        fresh(exchange, symbol).latencies.len() == 0,
        fresh(exchange, symbol).exchange == exchange,
        fresh(exchange, symbol).symbol == symbol,
{
}

/// A report has the summary of the accounting as it was, and a ladder of as many
/// of the best levels of each side as are asked for and are there: the bids from
/// the highest price down, the asks from the lowest up. It starts a new window;
/// without a report nothing changes.
pub proof fn law_report_has_the_best_levels(
    before: Metrics,
    book: OrderBook,
    depth: usize,
    rate: Seq<char>,
    report: Option<Report>,
    after: Metrics,
)
    requires
        reported(before, book, depth, rate, report, after),
    ensures
        match report {
            Some(report) => {
                &&& report.headline_view() == headline_text(before@, book, rate)
                &&& report.depth() == depth
                &&& report.bids().len() == smaller(book.bids().len(), depth as nat)
                &&& report.asks().len() == smaller(book.asks().len(), depth as nat)
                &&& forall|i: int|
                    0 <= i < report.bids().len() ==> #[trigger] report.bids()[i]
                        == book.bids()[book.bids().len() - 1 - i]
                &&& forall|i: int|
                    0 <= i < report.asks().len() ==> #[trigger] report.asks()[i] == book.asks()[i]
                &&& after@.window_updates == 0
                &&& after@.latencies.len() == 0
                &&& after@.total_updates == before@.total_updates
                &&& after@.total_levels == before@.total_levels
            },
            None => after == before,
        },
{
}

/// The text that stands for a side of the summary: price and quantity of its best
/// quote, or a dash where there is none.
pub open spec fn best_text(quotes: Seq<(Decimal, Decimal)>, best: int) -> Seq<char> {
    if quotes.len() == 0 {
        "--"@
    } else {
        plain_text(quotes[best].0) + " x "@ + plain_text(quotes[best].1)
    }
}

/// The summary shows the highest bid and the lowest ask, each at its place and
/// with its quantity.
pub proof fn law_summary_shows_the_best(m: MetricsView, book: OrderBook, rate: Seq<char>)
    ensures
        shows(
            headline_text(m, book, rate),
            "["@ + m.exchange + ":"@ + m.symbol + "] bid "@ + best_text(
                book.bids(),
                book.bids().len() - 1,
            ) + " | ask "@ + best_text(book.asks(), 0) + " | spread "@,
        ),
{
    let piece = "["@ + m.exchange + ":"@ + m.symbol + "] bid "@ + best_text(
        book.bids(),
        book.bids().len() - 1,
    ) + " | ask "@ + best_text(book.asks(), 0) + " | spread "@;
    assert(Seq::<char>::empty() + piece =~= piece);
    lemma_shows(Seq::empty(), piece);
    lemma_rest_of_summary(m, book, rate, piece);
}

/// What is shown up to the spread is shown by the whole summary.
proof fn lemma_rest_of_summary(
    m: MetricsView,
    book: OrderBook,
    rate: Seq<char>,
    piece: Seq<char>,
)
    requires
        shows(
            "["@ + m.exchange + ":"@ + m.symbol + "] bid "@ + quote_text(best_bid_of(book))
                + " | ask "@ + quote_text(best_ask_of(book)) + " | spread "@,
            piece,
        ),
    ensures
        shows(headline_text(m, book, rate), piece),
{
    let t = "["@ + m.exchange + ":"@ + m.symbol + "] bid "@ + quote_text(best_bid_of(book))
        + " | ask "@ + quote_text(best_ask_of(book)) + " | spread "@;
    lemma_still_shows(t, spread_text(book), piece);
    lemma_tail_of_summary(t + spread_text(book), m, book, rate, piece);
}

/// What is shown up to the number of levels is shown by the whole summary.
proof fn lemma_tail_of_summary(
    t: Seq<char>,
    m: MetricsView,
    book: OrderBook,
    rate: Seq<char>,
    piece: Seq<char>,
)
    requires
        shows(t, piece),
    ensures
        shows(
            t + " | book "@ + nat_text(book.bids().len()) + "/"@ + nat_text(book.asks().len())
                + " | "@ + rate + " upd/s | "@ + latency_text(summary_of(m.latencies)) + " | "@
                + nat_text(m.total_updates as nat) + " total"@,
            piece,
        ),
{
    let t1 = t + " | book "@;
    lemma_still_shows(t, " | book "@, piece);
    let t2 = t1 + nat_text(book.bids().len());
    lemma_still_shows(t1, nat_text(book.bids().len()), piece);
    let t3 = t2 + "/"@;
    lemma_still_shows(t2, "/"@, piece);
    let t4 = t3 + nat_text(book.asks().len());
    lemma_still_shows(t3, nat_text(book.asks().len()), piece);
    lemma_end_of_summary(t4, m, rate, piece);
}

/// What is shown up to the rate is shown by the whole summary.
proof fn lemma_end_of_summary(t: Seq<char>, m: MetricsView, rate: Seq<char>, piece: Seq<char>)
    requires
        shows(t, piece),
    ensures
        shows(
            t + " | "@ + rate + " upd/s | "@ + latency_text(summary_of(m.latencies)) + " | "@
                + nat_text(m.total_updates as nat) + " total"@,
            piece,
        ),
{
    let t1 = t + " | "@;
    lemma_still_shows(t, " | "@, piece);
    let t2 = t1 + rate;
    lemma_still_shows(t1, rate, piece);
    let t3 = t2 + " upd/s | "@;
    lemma_still_shows(t2, " upd/s | "@, piece);
    let t4 = t3 + latency_text(summary_of(m.latencies));
    lemma_still_shows(t3, latency_text(summary_of(m.latencies)), piece);
    let t5 = t4 + " | "@;
    lemma_still_shows(t4, " | "@, piece);
    let t6 = t5 + nat_text(m.total_updates as nat);
    lemma_still_shows(t5, nat_text(m.total_updates as nat), piece);
    lemma_still_shows(t6, " total"@, piece);
}

/// The summary shows the spread, which is the lowest ask less the highest bid, or
/// a dash where one of them is missing, and behind it the number of bids and the
/// number of asks.
pub proof fn law_summary_shows_spread_and_size(m: MetricsView, book: OrderBook, rate: Seq<char>)
    ensures
        exists|bids: Seq<char>, asks: Seq<char>|
            #![trigger is_numeral(bids, book.bids().len()), is_numeral(asks, book.asks().len())]
            {
                &&& is_numeral(bids, book.bids().len())
                &&& is_numeral(asks, book.asks().len())
                &&& shows(
                    headline_text(m, book, rate),
                    " | spread "@ + (if book.bids().len() > 0 && book.asks().len() > 0 {
                        plain_text(
                            decimal_difference(
                                book.asks()[0].0,
                                book.bids()[book.bids().len() - 1].0,
                            ),
                        )
                    } else {
                        "--"@
                    }) + " | book "@ + bids + "/"@ + asks + " | "@ + rate + " upd/s | "@,
                )
            },
{
    let bids = nat_text(book.bids().len());
    let asks = nat_text(book.asks().len());
    law_notation_is_the_numeral(book.bids().len());
    law_notation_is_the_numeral(book.asks().len());
    let t = "["@ + m.exchange + ":"@ + m.symbol + "] bid "@ + quote_text(best_bid_of(book))
        + " | ask "@ + quote_text(best_ask_of(book));
    let piece = " | spread "@ + spread_text(book) + " | book "@ + bids + "/"@ + asks + " | "@ + rate
        + " upd/s | "@;
    let head = t + " | spread "@ + spread_text(book) + " | book "@ + bids + "/"@ + asks + " | "@
        + rate + " upd/s | "@;
    assert(head =~= t + piece);
    lemma_shows(t, piece);
    let t4 = head + latency_text(summary_of(m.latencies));
    lemma_still_shows(head, latency_text(summary_of(m.latencies)), piece);
    let t5 = t4 + " | "@;
    lemma_still_shows(t4, " | "@, piece);
    let t6 = t5 + nat_text(m.total_updates as nat);
    lemma_still_shows(t5, nat_text(m.total_updates as nat), piece);
    lemma_still_shows(t6, " total"@, piece);
}

/// The summary ends in the average and the maximum of the window's latencies, or
/// in dashes where there are none, and in the total of the updates.
pub proof fn law_summary_shows_latency_and_total(
    m: MetricsView,
    book: OrderBook,
    rate: Seq<char>,
)
    ensures
        exists|count: Seq<char>|
            #![trigger is_numeral(count, m.total_updates as nat)]
            is_numeral(count, m.total_updates as nat) && if m.latencies.len() == 0 {
                shows(
                    headline_text(m, book, rate),
                    " upd/s | lat -- | "@ + count + " total"@,
                )
            } else {
                exists|average: Seq<char>, worst: Seq<char>|
                    #![trigger is_numeral(average, (total(m.latencies) / m.latencies.len())), is_numeral(worst, maximum(m.latencies) as nat)]
                    {
                        &&& is_numeral(average, total(m.latencies) / m.latencies.len())
                        &&& is_numeral(worst, maximum(m.latencies) as nat)
                        &&& shows(
                            headline_text(m, book, rate),
                            " upd/s | lat "@ + average + "/"@ + worst + " ms (avg/max) | "@ + count
                                + " total"@,
                        )
                    }
            },
{
    let count = nat_text(m.total_updates as nat);
    law_notation_is_the_numeral(m.total_updates as nat);
    let t = "["@ + m.exchange + ":"@ + m.symbol + "] bid "@ + quote_text(best_bid_of(book))
        + " | ask "@ + quote_text(best_ask_of(book)) + " | spread "@ + spread_text(book)
        + " | book "@ + nat_text(book.bids().len()) + "/"@ + nat_text(book.asks().len()) + " | "@
        + rate;
    let latency = latency_text(summary_of(m.latencies));
    let text = t + " upd/s | "@ + latency + " | "@ + count + " total"@;
    assert(text == headline_text(m, book, rate));
    reveal_strlit(" upd/s | lat -- | ");
    reveal_strlit(" upd/s | ");
    reveal_strlit("lat --");
    reveal_strlit(" | ");
    reveal_strlit(" upd/s | lat ");
    reveal_strlit("lat ");
    reveal_strlit(" ms (avg/max) | ");
    reveal_strlit(" ms (avg/max)");
    if m.latencies.len() == 0 {
        let piece = " upd/s | lat -- | "@ + count + " total"@;
        assert(" upd/s | lat -- | "@ =~= " upd/s | "@ + "lat --"@ + " | "@);
        assert(text =~= t + piece);
        lemma_shows(t, piece);
    } else {
        let n = total(m.latencies) / m.latencies.len();
        law_average_is_at_most_the_maximum(m.latencies);
        law_summary_is_average_and_worst(m.latencies);
        lemma_average_fits(m.latencies);
        let average = nat_text(n);
        let worst = nat_text(maximum(m.latencies) as nat);
        law_notation_is_the_numeral(n);
        law_notation_is_the_numeral(maximum(m.latencies) as nat);
        let piece = " upd/s | lat "@ + average + "/"@ + worst + " ms (avg/max) | "@ + count
            + " total"@;
        assert(" upd/s | lat "@ =~= " upd/s | "@ + "lat "@);
        assert(" ms (avg/max) | "@ =~= " ms (avg/max)"@ + " | "@);
        assert(latency == "lat "@ + average + "/"@ + worst + " ms (avg/max)"@);
        assert(text =~= t + piece);
        lemma_shows(t, piece);
    }
}

proof fn lemma_average_fits(samples: Seq<u64>)
    requires
        samples.len() > 0,
    ensures
        0 <= total(samples) / samples.len() <= maximum(samples),
{
    lemma_total_is_bounded(samples);
    let n = samples.len() as int;
    let t = total(samples) as int;
    let m = maximum(samples) as int;
    assert(0 <= t / n <= m) by (nonlinear_arith)
        requires
            n > 0,
            0 <= t <= n * m,
    ;
}

/// The right half of a row of the ladder: what the asks add to it.
pub open spec fn right_half(
    bids: Seq<(Decimal, Decimal)>,
    asks: Seq<(Decimal, Decimal)>,
    i: nat,
) -> Seq<char> {
    ladder_text(bids, asks, i).skip(ladder_text(bids, Seq::empty(), i).len() as int)
}

/// Row `i` of the ladder has, behind the separator, price and quantity of the ask
/// at place `i`, each with spaces behind it up to 14 columns, and nothing where
/// there is no such ask. What stands before it does not depend on the asks.
pub proof fn law_row_ends_with_its_ask(
    bids: Seq<(Decimal, Decimal)>,
    asks: Seq<(Decimal, Decimal)>,
    i: nat,
)
    ensures
        ladder_text(bids, asks, i) == ladder_text(bids, Seq::empty(), i) + right_half(
            bids,
            asks,
            i,
        ),
        i >= asks.len() ==> right_half(bids, asks, i).len() == 0,
        i < asks.len() ==> {
            let price = plain_text(asks[i as int].0);
            let qty = plain_text(asks[i as int].1);
            right_half(bids, asks, i) == price + filling(price, 14) + " "@ + qty + filling(qty, 14)
        },
{
    let left = ladder_text(bids, Seq::empty(), i);
    let row = ladder_text(bids, asks, i);
    if i < asks.len() {
        let price = plain_text(asks[i as int].0);
        let qty = plain_text(asks[i as int].1);
        let right = price + filling(price, 14) + " "@ + qty + filling(qty, 14);
        assert(row =~= left + right);
        assert(row.skip(left.len() as int) =~= right);
    } else {
        assert(row =~= left);
    }
}

/// Row `i` of the ladder has, before the separator, price and quantity of the bid
/// at place `i`, each with spaces before it up to 14 columns, and 29 spaces where
/// there is no such bid.
pub proof fn law_row_starts_with_its_bid(bids: Seq<(Decimal, Decimal)>, i: nat)
    ensures
        ({
            let left = ladder_text(bids, Seq::empty(), i);
            if i < bids.len() {
                let price = plain_text(bids[i as int].0);
                let qty = plain_text(bids[i as int].1);
                left == "    "@ + filling(price, 14) + price + " "@ + filling(qty, 14) + qty
                    + "  |  "@
            } else {
                &&& left.len() == 4 + 29 + 5
                &&& forall|k: int| 4 <= k < 33 ==> #[trigger] left[k] == ' '
                &&& left.skip(33) == "  |  "@
            }
        }),
{
    let left = ladder_text(bids, Seq::empty(), i);
    reveal_strlit("    ");
    reveal_strlit("  |  ");
    if i < bids.len() {
        let price = plain_text(bids[i as int].0);
        let qty = plain_text(bids[i as int].1);
        assert(left =~= "    "@ + filling(price, 14) + price + " "@ + filling(qty, 14) + qty
            + "  |  "@);
    } else {
        assert(left.skip(33) =~= "  |  "@);
    }
}

/// Rows of asks at different prices have different right halves.
pub proof fn law_rows_tell_prices_apart(
    bids: Seq<(Decimal, Decimal)>,
    asks: Seq<(Decimal, Decimal)>,
    i: nat,
    j: nat,
)
    requires
        i < asks.len(),
        j < asks.len(),
        asks[i as int].0.units() != asks[j as int].0.units(),
    ensures
        right_half(bids, asks, i) != right_half(bids, asks, j),
{
    law_row_ends_with_its_ask(bids, asks, i);
    law_row_ends_with_its_ask(bids, asks, j);
    let p = plain_text(asks[i as int].0);
    let q = plain_text(asks[j as int].0);
    law_text_is_one_word(asks[i as int].0);
    law_text_is_one_word(asks[j as int].0);
    let x = right_half(bids, asks, i);
    let y = right_half(bids, asks, j);
    reveal_strlit(" ");
    assert(x[p.len() as int] == ' ');
    assert(y[q.len() as int] == ' ');
    if x == y {
        if p.len() < q.len() {
            assert(y[p.len() as int] == q[p.len() as int]);
        }
        if q.len() < p.len() {
            assert(x[q.len() as int] == p[q.len() as int]);
        }
        assert(x.take(p.len() as int) =~= p);
        assert(y.take(q.len() as int) =~= q);
        law_text_tells_numbers_apart(asks[i as int].0, asks[j as int].0);
    }
}

/// A ladder has as many lines as are asked for, and none where only the top of the
/// book is; line `i` shows the levels at place `i`.
pub proof fn law_ladder_has_a_line_for_each_level(
    report: Report,
    n: usize,
    i: usize,
    line: String,
)
    requires
        call_ensures(Report::ladder_len, (&report,), n),
        call_ensures(Report::ladder_line, (&report, i), line),
    ensures
        report.depth() >= 2 ==> n == report.depth(),
        report.depth() < 2 ==> n == 0,
        i < report.asks().len() ==> {
            let price = plain_text(report.asks()[i as int].0);
            let qty = plain_text(report.asks()[i as int].1);
            shows(line@, price + filling(price, 14) + " "@ + qty + filling(qty, 14))
        },
        i < report.bids().len() ==> {
            let price = plain_text(report.bids()[i as int].0);
            let qty = plain_text(report.bids()[i as int].1);
            shows(line@, filling(price, 14) + price + " "@ + filling(qty, 14) + qty + "  |  "@)
        },
{
    let bids = report.bids();
    let asks = report.asks();
    law_row_ends_with_its_ask(bids, asks, i as nat);
    law_row_starts_with_its_bid(bids, i as nat);
    let left = ladder_text(bids, Seq::empty(), i as nat);
    if i < asks.len() {
        lemma_shows(left, right_half(bids, asks, i as nat));
    }
    if i < bids.len() {
        let price = plain_text(bids[i as int].0);
        let qty = plain_text(bids[i as int].1);
        let piece = filling(price, 14) + price + " "@ + filling(qty, 14) + qty + "  |  "@;
        assert(left =~= "    "@ + piece);
        lemma_shows("    "@, piece);
        lemma_still_shows(left, right_half(bids, asks, i as nat), piece);
    }
}

} // verus!
