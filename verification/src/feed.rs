//! What a feed session does with what an exchange sends: one book per symbol,
//! kept from snapshots and deltas. What differs between exchanges lies behind
//! the [`Exchange`] trait. A single connection can carry several symbols; each
//! event says which one it belongs to.

use crate::decimal::Decimal;
use crate::error::{Fault, FeedError};
use crate::metrics::{
    fresh, has_room, headline_text, reported, total, with_update, Metrics, MetricsView, Report,
    PRINT_EVERY_NANOS,
};
use crate::orderbook::{
    ascending, by_price, delta_book, empty_book, event_book, first_n, gap_before, gap_before_event,
    is_next, last_n, law_list_holds_the_side, law_quotes_by_price_settle_the_list, snapshot_book,
    with_levels, BookEvent, BookView, EventView, Level, OrderBook, SequenceGap,
};
use crate::symbols::SymbolTable;
use crate::text::nat_text;
use vstd::prelude::*;
use vstd::string::*;

verus! {

/// A book event tagged with the symbol it applies to.
#[derive(Debug)]
pub struct ParsedEvent {
    pub symbol: String,
    pub event: BookEvent,
}

/// What a [`ParsedEvent`] says.
pub struct ParsedView {
    pub symbol: Seq<char>,
    pub event: EventView,
}

impl View for ParsedEvent {
    type V = ParsedView;

    open spec fn view(&self) -> ParsedView {
        ParsedView { symbol: self.symbol@, event: self.event@ }
    }
}

/// What the reading of a message says.
pub open spec fn reading(r: Result<Option<ParsedEvent>, FeedError>) -> Result<
    Option<ParsedView>,
    Fault,
> {
    match r {
        Ok(Some(parsed)) => Ok(Some(parsed@)),
        Ok(None) => Ok(None),
        Err(e) => Err(e@),
    }
}

/// What a checksum test says.
pub open spec fn verdict_of(r: Result<(), FeedError>) -> Result<(), Fault> {
    match r {
        Ok(()) => Ok(()),
        Err(e) => Err(e@),
    }
}

/// What differs from one exchange to the next.
pub trait Exchange: Sized {
    /// The messages that the feed carries.
    type Message;

    /// The name for logging.
    spec fn name_text(&self) -> Seq<char>;

    /// The symbols that the feed tracks.
    spec fn symbol_texts(&self) -> Seq<Seq<char>>;

    /// Where to connect.
    spec fn url_text(&self) -> Seq<char>;

    /// The frames that subscribe to the feed.
    spec fn subscription_texts(&self) -> Seq<Seq<char>>;

    /// Whether the book is seeded from a snapshot that has to be requested.
    spec fn seeded_by_request(&self) -> bool;

    /// Where the snapshot is requested, or why there is none.
    spec fn request_url(&self) -> Result<Seq<char>, Fault>;

    /// How many levels of each side are kept.
    spec fn depth_limit(&self) -> Option<usize>;

    /// The counters leave room for the message.
    spec fn has_room_for(&self, message: Option<Self::Message>) -> bool;

    /// Reading `message` gives `outcome` and leaves the adapter as `after`.
    spec fn reads(
        before: &Self,
        message: Option<Self::Message>,
        outcome: Result<Option<ParsedView>, Fault>,
        after: &Self,
    ) -> bool;

    /// The text that the checksum is taken over can be formatted.
    spec fn can_check(&self, symbol: Seq<char>, book: OrderBook) -> bool;

    /// What the comparison with an exchange's checksum gives.
    spec fn verdict(&self, symbol: Seq<char>, book: OrderBook, checksum: u32) -> Result<(), Fault>;

    /// Human-readable name for logging.
    fn name(&self) -> (name: &str)
        ensures
            name@ == self.name_text(),
    ;

    /// Market symbols this feed tracks, as the exchange expects them
    /// (already normalized).
    fn symbols(&self) -> (symbols: &Vec<String>)
        ensures
            symbols@.len() == self.symbol_texts().len(),
            forall|i: int|
                0 <= i < symbols@.len() ==> (#[trigger] symbols@[i])@ == self.symbol_texts()[i],
    ;

    /// WebSocket URL to connect to.
    fn ws_url(&self) -> (url: String)
        ensures
            url@ == self.url_text(),
    ;

    /// Text frames to send immediately after connecting (subscriptions).
    fn subscribe_messages(&self) -> (frames: Vec<String>)
        ensures
            frames@.len() == self.subscription_texts().len(),
            forall|i: int|
                0 <= i < frames@.len() ==> (#[trigger] frames@[i])@ == self.subscription_texts()[i],
    ;

    /// Whether a REST snapshot must be fetched to seed the book (Binance).
    /// When false, the snapshot is expected to arrive over the socket
    /// (Coinbase / Kraken).
    fn needs_rest_snapshot(&self) -> (needed: bool)
        ensures
            needed == self.seeded_by_request(),
    ;

    /// Where to fetch the REST order-book snapshot.
    fn snapshot_url(&self) -> (url: Result<String, FeedError>)
        ensures
            match url {
                Ok(url) => self.request_url() == Ok::<Seq<char>, Fault>(url@),
                Err(e) => self.request_url() == Err::<Seq<char>, Fault>(e@),
            },
    ;

    /// Whether the counters leave room for the message.
    fn can_read(&self, message: &Option<Self::Message>) -> (r: bool)
        ensures
            r == self.has_room_for(*message),
    ;

    /// Turn one message into a symbol-tagged book event, or `None` to ignore it
    /// (control messages, subscription acks, heartbeats, ...). A frame that is
    /// no message of this feed is passed as `None`.
    fn parse_message(&mut self, message: Option<Self::Message>) -> (r: Result<
        Option<ParsedEvent>,
        FeedError,
    >)
        requires
            old(self).has_room_for(message),
        ensures
            Self::reads(&*old(self), message, reading(r), &*final(self)),
            final(self).name_text() == old(self).name_text(),
            final(self).symbol_texts() == old(self).symbol_texts(),
            final(self).depth_limit() == old(self).depth_limit(),
    ;

    /// If the feed maintains only a fixed depth, the number of levels to keep
    /// per side after each update. `None` means keep the full book.
    fn book_depth_limit(&self) -> (limit: Option<usize>)
        ensures
            limit == self.depth_limit(),
    ;

    /// Whether [`Exchange::verify_checksum`] can be called: it cannot where a
    /// number of the book is too long to be formatted to the symbol's precision.
    fn can_verify(&self, symbol: &str, book: &OrderBook) -> (r: bool)
        ensures
            r == self.can_check(symbol@, *book),
    ;

    /// Validate the maintained `book` for `symbol` against a `checksum` that the
    /// exchange provided. An `Err` is treated like a sequence gap (drop the book
    /// and resync).
    fn verify_checksum(&self, symbol: &str, book: &OrderBook, checksum: u32) -> (r: Result<
        (),
        FeedError,
    >)
        requires
            self.can_check(symbol@, *book),
        ensures
            verdict_of(r) == self.verdict(symbol@, *book, checksum),
    ;
}

/// What became of an event.
#[derive(Clone, Copy, Debug, PartialEq, Eq, Structural)]
pub enum Outcome {
    /// A snapshot set up the book.
    Seeded,
    /// A delta came for a symbol whose snapshot has not arrived.
    Ignored,
    /// A delta brought nothing new.
    Stale,
    /// A delta was applied, and the checksum, if it had one, matches.
    Applied,
    /// A delta was applied, and a number of the book is too long for the text
    /// that its checksum is taken over.
    Unverifiable,
}

/// `book` is the book that `full` says, cut down to the best `limit` levels of
/// each side.
pub open spec fn kept_from(book: OrderBook, full: BookView, limit: Option<usize>) -> bool {
    &&& book.well_formed()
    &&& book@.last_update_id == full.last_update_id
    &&& book@.initialized == full.initialized
    &&& match limit {
        None => book@ == full,
        Some(n) => exists|bids: Seq<(Decimal, Decimal)>, asks: Seq<(Decimal, Decimal)>|
            #![trigger by_price(bids), by_price(asks)]
            {
                &&& ascending(bids)
                &&& ascending(asks)
                &&& by_price(bids) == full.bids
                &&& by_price(asks) == full.asks
                &&& book.bids() == last_n(bids, n as nat)
                &&& book.asks() == first_n(asks, n as nat)
            },
    }
}

/// Cuts a book down to the depth that the feed maintains.
fn truncate(book: &mut OrderBook, limit: Option<usize>)
    requires
        old(book).well_formed(),
    ensures
        kept_from(*final(book), old(book)@, limit),
{
    match limit {
        Some(n) => {
            let ghost bids = book.bids();
            let ghost asks = book.asks();
            let ghost full = book@;
            book.retain_top(n);
            assert(by_price(bids) == full.bids && by_price(asks) == full.asks);
        },
        None => {},
    }
}

/// The latency of an event: zero where the exchange's clock reads ahead of ours.
pub open spec fn latency_of(event_time_ms: Option<u64>, recv_ms: u64) -> Option<u64> {
    match event_time_ms {
        Some(event) => Some(
            if recv_ms < event {
                0
            } else {
                (recv_ms - event) as u64
            },
        ),
        None => None,
    }
}

/// Computes the latency of an event.
fn latency(event_time_ms: Option<u64>, recv_ms: u64) -> (r: Option<u64>)
    ensures
        r == latency_of(event_time_ms, recv_ms),
{
    match event_time_ms {
        Some(event) => Some(recv_ms.saturating_sub(event)),
        None => None,
    }
}

/// The accounting of `symbol`, which starts with its first applied delta.
pub open spec fn accounting(
    metrics: Map<Seq<char>, Metrics>,
    exchange: Seq<char>,
    symbol: Seq<char>,
) -> MetricsView {
    if metrics.contains_key(symbol) {
        metrics[symbol]@
    } else {
        fresh(exchange, symbol)
    }
}

/// The delta of `parsed`, where it is one, is the next of its book.
pub open spec fn will_apply(parsed: ParsedView, books: Map<Seq<char>, OrderBook>) -> bool {
    parsed.event matches EventView::Delta { first, last, .. } && books.contains_key(parsed.symbol)
        && is_next(books[parsed.symbol]@, first, last)
}

/// The counters leave room for the event.
pub open spec fn event_fits(
    exchange: Seq<char>,
    parsed: ParsedView,
    recv_ms: u64,
    books: Map<Seq<char>, OrderBook>,
    metrics: Map<Seq<char>, Metrics>,
) -> bool {
    will_apply(parsed, books) ==> (parsed.event matches EventView::Delta {
        bids,
        asks,
        event_time_ms,
        ..
    } && bids.len() + asks.len() <= usize::MAX && has_room(
        accounting(metrics, exchange, parsed.symbol),
        bids.len() + asks.len(),
        latency_of(event_time_ms, recv_ms),
    ))
}

/// What is reported of a checksum, where the update carried one.
pub open spec fn checked<E: Exchange>(
    exchange: E,
    symbol: Seq<char>,
    book: OrderBook,
    checksum: Option<u32>,
) -> Result<Outcome, Fault> {
    match checksum {
        None => Ok(Outcome::Applied),
        Some(sum) => if !exchange.can_check(symbol, book) {
            Ok(Outcome::Unverifiable)
        } else {
            match exchange.verdict(symbol, book, sum) {
                Ok(()) => Ok(Outcome::Applied),
                Err(fault) => Err(fault),
            }
        },
    }
}

/// What an event does. A snapshot sets up the book of its symbol. A delta for a
/// symbol without a book, or one that brings nothing new, changes nothing; one
/// behind a gap is an error and changes nothing. The next delta changes its
/// book and is accounted for before its checksum is looked at. The book is cut
/// down to the depth of the feed.
pub open spec fn event_applied<E: Exchange>(
    exchange: E,
    parsed: ParsedView,
    recv_ms: u64,
    books: Map<Seq<char>, OrderBook>,
    metrics: Map<Seq<char>, Metrics>,
    outcome: Result<Outcome, Fault>,
    books_after: Map<Seq<char>, OrderBook>,
    metrics_after: Map<Seq<char>, Metrics>,
) -> bool {
    let symbol = parsed.symbol;
    match parsed.event {
        EventView::Snapshot { bids, asks, sequence } => {
            &&& outcome == Ok::<Outcome, Fault>(Outcome::Seeded)
            &&& books_after == books.insert(symbol, books_after[symbol])
            &&& kept_from(
                books_after[symbol],
                snapshot_book(bids, asks, sequence),
                exchange.depth_limit(),
            )
            &&& metrics_after == metrics
        },
        EventView::Delta { bids, asks, first, last, event_time_ms, checksum } => {
            if will_apply(parsed, books) {
                &&& books_after == books.insert(symbol, books_after[symbol])
                &&& kept_from(
                    books_after[symbol],
                    delta_book(books[symbol]@, bids, asks, first, last),
                    exchange.depth_limit(),
                )
                &&& metrics_after == metrics.insert(symbol, metrics_after[symbol])
                &&& metrics_after[symbol]@ == with_update(
                    accounting(metrics, exchange.name_text(), symbol),
                    bids.len() + asks.len(),
                    latency_of(event_time_ms, recv_ms),
                )
                &&& outcome == checked(exchange, symbol, books_after[symbol], checksum)
            } else {
                &&& books_after == books
                &&& metrics_after == metrics
                &&& outcome == if !books.contains_key(symbol) {
                    Ok(Outcome::Ignored)
                } else {
                    match gap_before(books[symbol]@, first, last) {
                        Some(gap) => Err(Fault::Gap { symbol, gap }),
                        None => Ok(Outcome::Stale),
                    }
                }
            }
        },
    }
}

/// What the application of an event says.
pub open spec fn outcome_of(r: Result<Outcome, FeedError>) -> Result<Outcome, Fault> {
    match r {
        Ok(outcome) => Ok(outcome),
        Err(e) => Err(e@),
    }
}

/// Whether the counters leave room for the event.
pub fn can_apply_event<E: Exchange>(
    exchange: &E,
    parsed: &ParsedEvent,
    books: &SymbolTable<OrderBook>,
    metrics: &SymbolTable<Metrics>,
    recv_ms: u64,
) -> (r: bool)
    ensures
        r == event_fits(exchange.name_text(), parsed@, recv_ms, books@, metrics@),
{
    match &parsed.event {
        BookEvent::Snapshot { bids: _, asks: _, sequence: _ } => true,
        BookEvent::Delta { bids, asks, first, last, event_time_ms, checksum: _ } => {
            let book: &OrderBook = match books.get(parsed.symbol.as_str()) {
                Some(book) => book,
                None => return true,
            };
            if !book.accepts(*first, *last) {
                return true;
            }
            if bids.len() > usize::MAX - asks.len() {
                return false;
            }
            let n: usize = bids.len() + asks.len();
            match metrics.get(parsed.symbol.as_str()) {
                Some(m) => m.can_record(n, latency(*event_time_ms, recv_ms)),
                None => true,
            }
        },
    }
}

/// Apply one parsed event to the right per-symbol book, updating that symbol's
/// metrics. `recv_ms` is the time at which its message arrived.
pub fn apply_event<E: Exchange>(
    exchange: &E,
    parsed: ParsedEvent,
    books: &mut SymbolTable<OrderBook>,
    metrics: &mut SymbolTable<Metrics>,
    recv_ms: u64,
) -> (r: Result<Outcome, FeedError>)
    requires
        event_fits(exchange.name_text(), parsed@, recv_ms, old(books)@, old(metrics)@),
    ensures
        event_applied(
            *exchange,
            parsed@,
            recv_ms,
            old(books)@,
            old(metrics)@,
            outcome_of(r),
            final(books)@,
            final(metrics)@,
        ),
{
    let ParsedEvent { symbol, event } = parsed;
    match event {
        BookEvent::Snapshot { bids, asks, sequence } => {
            let mut book: OrderBook = match books.remove(symbol.as_str()) {
                Some(book) => book,
                None => OrderBook::new(),
            };
            book.apply_snapshot(bids.as_slice(), asks.as_slice(), sequence);
            truncate(&mut book, exchange.book_depth_limit());
            books.insert(symbol, book);
            assert(books@ =~= old(books)@.insert(symbol@, books@[symbol@]));
            Ok(Outcome::Seeded)
        },
        BookEvent::Delta { bids, asks, first, last, event_time_ms, checksum } => {
            // A delta for a symbol that is not seeded yet (snapshot not arrived).
            let mut book: OrderBook = match books.remove(symbol.as_str()) {
                Some(book) => book,
                None => {
                    assert(books@ =~= old(books)@);
                    return Ok(Outcome::Ignored);
                },
            };
            match book.apply_delta(bids.as_slice(), asks.as_slice(), first, last) {
                Ok(true) => {
                    let n: usize = bids.len() + asks.len();
                    // Depth-limited feeds don't send removals for levels leaving
                    // the top-N, so truncate before validating the checksum.
                    truncate(&mut book, exchange.book_depth_limit());
                    let mut m: Metrics = match metrics.remove(symbol.as_str()) {
                        Some(m) => m,
                        None => Metrics::new(exchange.name(), symbol.as_str()),
                    };
                    m.record_update(n, latency(event_time_ms, recv_ms));
                    metrics.insert(symbol.as_str().to_owned(), m);
                    assert(metrics@ =~= old(metrics)@.insert(symbol@, metrics@[symbol@]));
                    // A checksum mismatch means that the book diverged; it is an
                    // error so that the driver resyncs, exactly like a gap.
                    let r: Result<Outcome, FeedError> = match checksum {
                        None => Ok(Outcome::Applied),
                        Some(sum) => if !exchange.can_verify(symbol.as_str(), &book) {
                            Ok(Outcome::Unverifiable)
                        } else {
                            match exchange.verify_checksum(symbol.as_str(), &book, sum) {
                                Ok(()) => Ok(Outcome::Applied),
                                Err(e) => Err(e),
                            }
                        },
                    };
                    books.insert(symbol, book);
                    assert(books@ =~= old(books)@.insert(symbol@, books@[symbol@]));
                    r
                },
                Ok(false) => {
                    books.insert(symbol, book);
                    assert(books@ =~= old(books)@);
                    Ok(Outcome::Stale)
                },
                Err(gap) => {
                    books.insert(symbol.as_str().to_owned(), book);
                    assert(books@ =~= old(books)@);
                    Err(FeedError::Gap { symbol, gap })
                },
            }
        },
    }
}

/// What is printed of `symbol`, and what that does to its accounting: nothing
/// without a book and an accounting, and nothing within a second of the last
/// output.
pub open spec fn report_made(
    books: Map<Seq<char>, OrderBook>,
    metrics: Map<Seq<char>, Metrics>,
    symbol: Seq<char>,
    since_print: u128,
    depth: usize,
    rate: Seq<char>,
    report: Option<Report>,
    metrics_after: Map<Seq<char>, Metrics>,
) -> bool {
    if books.contains_key(symbol) && metrics.contains_key(symbol) {
        &&& report is Some <==> since_print >= PRINT_EVERY_NANOS
        &&& reported(
            metrics[symbol],
            books[symbol],
            depth,
            rate,
            report,
            metrics_after[symbol],
        )
        &&& metrics_after == metrics.insert(symbol, metrics_after[symbol])
    } else {
        &&& report is None
        &&& metrics_after == metrics
    }
}

/// What to print of `symbol`, if it has a book and an accounting, `since_print`
/// nanoseconds after its last output.
pub fn report(
    books: &SymbolTable<OrderBook>,
    metrics: &mut SymbolTable<Metrics>,
    symbol: &str,
    since_print: u128,
    depth: usize,
    rate: &str,
) -> (r: Option<Report>)
    requires
        books@.contains_key(symbol@) && old(metrics)@.contains_key(symbol@) && since_print
            >= PRINT_EVERY_NANOS ==> !books@[symbol@].spread_overflows(),
    ensures
        report_made(
            books@,
            old(metrics)@,
            symbol@,
            since_print,
            depth,
            rate@,
            r,
            final(metrics)@,
        ),
{
    let book: &OrderBook = match books.get(symbol) {
        Some(book) => book,
        None => return None,
    };
    let mut m: Metrics = match metrics.remove(symbol) {
        Some(m) => m,
        None => {
            assert(metrics@ =~= old(metrics)@);
            return None;
        },
    };
    let r: Option<Report> = m.maybe_print(since_print, book, depth, rate);
    metrics.insert(symbol.to_owned(), m);
    assert(metrics@ =~= old(metrics)@.insert(symbol@, metrics@[symbol@]));
    r
}

/// The time of day in epoch milliseconds, from the milliseconds that the clock
/// shows since the epoch; zero if it reads before the epoch.
pub fn wall_clock_ms(since_epoch: Option<u128>) -> (ms: u64)
    ensures
        ms == match since_epoch {
            Some(millis) => (millis % 0x1_0000_0000_0000_0000) as u64,
            None => 0,
        },
{
    match since_epoch {
        Some(millis) => (millis % 0x1_0000_0000_0000_0000) as u64,
        None => 0,
    }
}

/// A book that is cut down to the depth of the feed is settled by what the full
/// book says.
pub proof fn law_truncated_book_is_settled(
    a: OrderBook,
    b: OrderBook,
    full: BookView,
    limit: Option<usize>,
)
    requires
        kept_from(a, full, limit),
        kept_from(b, full, limit),
    ensures
        a.bids() == b.bids(),
        a.asks() == b.asks(),
        a@ == b@,
{
    match limit {
        None => {
            law_quotes_by_price_settle_the_list(a.bids(), b.bids());
            law_quotes_by_price_settle_the_list(a.asks(), b.asks());
        },
        Some(n) => {
            let (x, y) = choose|x: Seq<(Decimal, Decimal)>, y: Seq<(Decimal, Decimal)>|
                #![trigger by_price(x), by_price(y)]
                {
                    &&& ascending(x)
                    &&& ascending(y)
                    &&& by_price(x) == full.bids
                    &&& by_price(y) == full.asks
                    &&& a.bids() == last_n(x, n as nat)
                    &&& a.asks() == first_n(y, n as nat)
                };
            let (v, w) = choose|v: Seq<(Decimal, Decimal)>, w: Seq<(Decimal, Decimal)>|
                #![trigger by_price(v), by_price(w)]
                {
                    &&& ascending(v)
                    &&& ascending(w)
                    &&& by_price(v) == full.bids
                    &&& by_price(w) == full.asks
                    &&& b.bids() == last_n(v, n as nat)
                    &&& b.asks() == first_n(w, n as nat)
                };
            law_quotes_by_price_settle_the_list(x, v);
            law_quotes_by_price_settle_the_list(y, w);
        },
    }
}

/// A feed of limited depth never holds more levels on a side.
pub proof fn law_depth_limit_holds(book: OrderBook, full: BookView, limit: usize)
    requires
        kept_from(book, full, Some(limit)),
    ensures
        book.bids().len() <= limit,
        book.asks().len() <= limit,
{
}

/// An event leaves the books and the accounting of all other symbols alone.
pub proof fn law_other_symbols_are_untouched<E: Exchange>(
    exchange: E,
    parsed: ParsedView,
    recv_ms: u64,
    books: Map<Seq<char>, OrderBook>,
    metrics: Map<Seq<char>, Metrics>,
    outcome: Result<Outcome, Fault>,
    books_after: Map<Seq<char>, OrderBook>,
    metrics_after: Map<Seq<char>, Metrics>,
    other: Seq<char>,
)
    requires
        event_applied(
            exchange,
            parsed,
            recv_ms,
            books,
            metrics,
            outcome,
            books_after,
            metrics_after,
        ),
        other != parsed.symbol,
    ensures
        books_after.contains_key(other) == books.contains_key(other),
        books.contains_key(other) ==> books_after[other] == books[other],
        metrics_after.contains_key(other) == metrics.contains_key(other),
        metrics.contains_key(other) ==> metrics_after[other] == metrics[other],
{
}

/// A gap is reported and leaves every book as it is.
pub proof fn law_gap_is_reported<E: Exchange>(
    exchange: E,
    parsed: ParsedView,
    recv_ms: u64,
    books: Map<Seq<char>, OrderBook>,
    metrics: Map<Seq<char>, Metrics>,
    outcome: Result<Outcome, Fault>,
    books_after: Map<Seq<char>, OrderBook>,
    metrics_after: Map<Seq<char>, Metrics>,
    gap: SequenceGap,
)
    requires
        event_applied(
            exchange,
            parsed,
            recv_ms,
            books,
            metrics,
            outcome,
            books_after,
            metrics_after,
        ),
        books.contains_key(parsed.symbol),
        gap_before_event(books[parsed.symbol]@, parsed.event) == Some(gap),
    ensures
        outcome == Err::<Outcome, Fault>(Fault::Gap { symbol: parsed.symbol, gap }),
        books_after == books,
        metrics_after == metrics,
{
}

/// A snapshot always seeds its book, however far the book had diverged: what it
/// held before does not matter.
pub proof fn law_snapshot_resyncs<E: Exchange>(
    exchange: E,
    parsed: ParsedView,
    recv_ms: u64,
    books: Map<Seq<char>, OrderBook>,
    metrics: Map<Seq<char>, Metrics>,
    outcome: Result<Outcome, Fault>,
    books_after: Map<Seq<char>, OrderBook>,
    metrics_after: Map<Seq<char>, Metrics>,
)
    requires
        event_applied(
            exchange,
            parsed,
            recv_ms,
            books,
            metrics,
            outcome,
            books_after,
            metrics_after,
        ),
        parsed.event is Snapshot,
    ensures
        outcome == Ok::<Outcome, Fault>(Outcome::Seeded),
        books_after.contains_key(parsed.symbol),
        kept_from(
            books_after[parsed.symbol],
            event_book(empty_book(), parsed.event),
            exchange.depth_limit(),
        ),
{
}

/// What happens to the accounting of a feed: an event is dealt with, or output is
/// asked for, each with the books that the session then has.
pub enum Entry<E> {
    Event {
        exchange: E,
        parsed: ParsedView,
        recv_ms: u64,
        books: Map<Seq<char>, OrderBook>,
        outcome: Result<Outcome, Fault>,
        books_after: Map<Seq<char>, OrderBook>,
    },
    Output {
        books: Map<Seq<char>, OrderBook>,
        symbol: Seq<char>,
        since_print: u128,
        depth: usize,
        rate: Seq<char>,
        report: Option<Report>,
    },
}

/// The entry turns the accounting `metrics` into `metrics_after`.
pub open spec fn entered<E: Exchange>(
    entry: Entry<E>,
    metrics: Map<Seq<char>, Metrics>,
    metrics_after: Map<Seq<char>, Metrics>,
) -> bool {
    match entry {
        Entry::Event { exchange, parsed, recv_ms, books, outcome, books_after } => {
            &&& event_fits(exchange.name_text(), parsed, recv_ms, books, metrics)
            &&& event_applied(
                exchange,
                parsed,
                recv_ms,
                books,
                metrics,
                outcome,
                books_after,
                metrics_after,
            )
        },
        Entry::Output { books, symbol, since_print, depth, rate, report } => report_made(
            books,
            metrics,
            symbol,
            since_print,
            depth,
            rate,
            report,
            metrics_after,
        ),
    }
}

/// The accounting goes from each state to the next by an entry. The books of one
/// entry need not be those that the one before it left: a session that follows
/// a reconnect starts with others.
pub open spec fn is_history<E: Exchange>(
    entries: Seq<Entry<E>>,
    states: Seq<Map<Seq<char>, Metrics>>,
) -> bool {
    &&& states.len() == entries.len() + 1
    &&& forall|i: int|
        0 <= i < entries.len() ==> entered(#[trigger] entries[i], states[i], states[i + 1])
}

/// The number of deltas of `symbol` that were applied.
pub open spec fn applied_deltas<E: Exchange>(entries: Seq<Entry<E>>, symbol: Seq<char>) -> nat
    decreases entries.len(),
{
    if entries.len() == 0 {
        0
    } else {
        applied_deltas(entries.drop_last(), symbol) + match entries.last() {
            Entry::Event { parsed, books, .. } => if parsed.symbol == symbol && will_apply(
                parsed,
                books,
            ) {
                1nat
            } else {
                0nat
            },
            Entry::Output { .. } => 0nat,
        }
    }
}

/// The updates that the accounting counts for `symbol`.
pub open spec fn counted(metrics: Map<Seq<char>, Metrics>, symbol: Seq<char>) -> nat {
    if metrics.contains_key(symbol) {
        metrics[symbol]@.total_updates as nat
    } else {
        0
    }
}

/// The total of a symbol grows by exactly the number of its applied deltas, over
/// any run of events and outputs. The books may be replaced at will in between,
/// as a reconnect does, as long as the accounting is handed on.
pub proof fn law_total_counts_applied_deltas<E: Exchange>(
    entries: Seq<Entry<E>>,
    states: Seq<Map<Seq<char>, Metrics>>,
    symbol: Seq<char>,
)
    requires
        is_history(entries, states),
    ensures
        counted(states.last(), symbol) == counted(states.first(), symbol) + applied_deltas(
            entries,
            symbol,
        ),
    decreases entries.len(),
{
    if entries.len() > 0 {
        let n = entries.len() - 1;
        let front = entries.drop_last();
        let earlier = states.drop_last();
        assert forall|i: int| 0 <= i < front.len() implies entered(
            #[trigger] front[i],
            earlier[i],
            earlier[i + 1],
        ) by {
            assert(front[i] == entries[i]);
        }
        law_total_counts_applied_deltas(front, earlier, symbol);
        assert(entered(entries[n], states[n], states[n + 1]));
    }
}

/// The printed total is the number of deltas applied since the accounting was
/// started with nothing in it, over all sessions.
pub proof fn law_printed_total_counts_from_the_start<E: Exchange>(
    entries: Seq<Entry<E>>,
    states: Seq<Map<Seq<char>, Metrics>>,
    symbol: Seq<char>,
    books: Map<Seq<char>, OrderBook>,
    since_print: u128,
    depth: usize,
    rate: Seq<char>,
    report: Report,
    metrics_after: Map<Seq<char>, Metrics>,
)
    requires
        is_history(entries, states),
        states.first() == Map::<Seq<char>, Metrics>::empty(),
        report_made(
            books,
            states.last(),
            symbol,
            since_print,
            depth,
            rate,
            Some(report),
            metrics_after,
        ),
    ensures
        exists|start: Seq<char>|
            report.headline_view() == #[trigger] (start + " | "@) + nat_text(
                applied_deltas(entries, symbol),
            ) + " total"@,
{
    law_total_counts_applied_deltas(entries, states, symbol);
    let m = states.last()[symbol]@;
    let text = headline_text(m, books[symbol], rate);
    let tail = " | "@ + nat_text(m.total_updates as nat) + " total"@;
    let start = text.take(text.len() - tail.len());
    assert(text =~= (start + " | "@) + nat_text(m.total_updates as nat) + " total"@);
}

/// The latency of an event is the time from its stamp to its arrival, zero where
/// the stamp lies ahead, and none without a stamp.
pub proof fn law_latency_is_the_time_since_the_event(event_time_ms: Option<u64>, recv_ms: u64)
    ensures
        match (event_time_ms, latency_of(event_time_ms, recv_ms)) {
            (Some(event), Some(latency)) => {
                &&& event <= recv_ms ==> event + latency == recv_ms
                &&& event > recv_ms ==> latency == 0
            },
            (None, None) => true,
            _ => false,
        },
{
}

/// A delta whose ids line up with the book of its symbol is applied: the book moves
/// on to its last id, the update is counted once with all its levels and its
/// latency, and without a checksum that is all. A book of unlimited depth is the
/// one before it with the levels of the delta entered.
pub proof fn law_next_delta_is_applied_and_counted<E: Exchange>(
    exchange: E,
    parsed: ParsedView,
    recv_ms: u64,
    books: Map<Seq<char>, OrderBook>,
    metrics: Map<Seq<char>, Metrics>,
    outcome: Result<Outcome, Fault>,
    books_after: Map<Seq<char>, OrderBook>,
    metrics_after: Map<Seq<char>, Metrics>,
    bids: Seq<Level>,
    asks: Seq<Level>,
    first: u64,
    last: u64,
    event_time_ms: Option<u64>,
    checksum: Option<u32>,
)
    requires
        event_applied(
            exchange,
            parsed,
            recv_ms,
            books,
            metrics,
            outcome,
            books_after,
            metrics_after,
        ),
        event_fits(exchange.name_text(), parsed, recv_ms, books, metrics),
        parsed.event == (EventView::Delta { bids, asks, first, last, event_time_ms, checksum }),
        books.contains_key(parsed.symbol),
        books[parsed.symbol]@.initialized,
        first <= books[parsed.symbol]@.last_update_id + 1,
        books[parsed.symbol]@.last_update_id + 1 <= last,
    ensures
        books_after.contains_key(parsed.symbol),
        books_after[parsed.symbol]@.last_update_id == last,
        books_after[parsed.symbol]@.initialized,
        exchange.depth_limit() is None ==> {
            let before = books[parsed.symbol]@;
            let after = books_after[parsed.symbol]@;
            &&& after.bids == with_levels(before.bids, bids)
            &&& after.asks == with_levels(before.asks, asks)
        },
        metrics_after.contains_key(parsed.symbol),
        ({
            let before = accounting(metrics, exchange.name_text(), parsed.symbol);
            let after = metrics_after[parsed.symbol]@;
            &&& after.total_updates == before.total_updates + 1
            &&& after.window_updates == before.window_updates + 1
            &&& after.total_levels == before.total_levels + bids.len() + asks.len()
            &&& match event_time_ms {
                Some(event) => after.latencies.len() == before.latencies.len() + 1
                    && after.latencies.drop_last() == before.latencies && after.latencies.last()
                    == if event <= recv_ms {
                    recv_ms - event
                } else {
                    0
                },
                None => after.latencies == before.latencies,
            }
        }),
        checksum is None ==> outcome == Ok::<Outcome, Fault>(Outcome::Applied),
{
    let before = accounting(metrics, exchange.name_text(), parsed.symbol);
    let after = metrics_after[parsed.symbol]@;
    match event_time_ms {
        Some(event) => {
            assert(after.latencies.drop_last() =~= before.latencies);
        },
        None => {},
    }
}

/// The accounting of a symbol starts from zero with its first applied delta.
pub proof fn law_accounting_starts_from_zero(
    metrics: Map<Seq<char>, Metrics>,
    exchange: Seq<char>,
    symbol: Seq<char>,
)
    ensures
        metrics.contains_key(symbol) ==> accounting(metrics, exchange, symbol)
            == metrics[symbol]@,
        !metrics.contains_key(symbol) ==> {
            let start = accounting(metrics, exchange, symbol);
            &&& start.total_updates == 0
            &&& start.total_levels == 0
            &&& start.window_updates == 0
            &&& start.latencies.len() == 0
            &&& start.exchange == exchange
            &&& start.symbol == symbol
        },
{
}

/// A checksum that the update carries decides: where the text cannot be formatted
/// the update is unverifiable, otherwise it passes or is refused as the exchange
/// rules, and the book and the accounting stay as the update left them.
pub proof fn law_checksum_decides<E: Exchange>(
    exchange: E,
    parsed: ParsedView,
    recv_ms: u64,
    books: Map<Seq<char>, OrderBook>,
    metrics: Map<Seq<char>, Metrics>,
    outcome: Result<Outcome, Fault>,
    books_after: Map<Seq<char>, OrderBook>,
    metrics_after: Map<Seq<char>, Metrics>,
    first: u64,
    last: u64,
    sum: u32,
)
    requires
        event_applied(
            exchange,
            parsed,
            recv_ms,
            books,
            metrics,
            outcome,
            books_after,
            metrics_after,
        ),
        parsed.event matches EventView::Delta { first: f, last: l, checksum, .. } && f == first && l
            == last && checksum == Some(sum),
        books.contains_key(parsed.symbol),
        books[parsed.symbol]@.initialized,
        first <= books[parsed.symbol]@.last_update_id + 1,
        books[parsed.symbol]@.last_update_id + 1 <= last,
    ensures
        ({
            let book = books_after[parsed.symbol];
            let possible = exchange.can_check(parsed.symbol, book);
            let verdict = exchange.verdict(parsed.symbol, book, sum);
            match outcome {
                Ok(Outcome::Applied) => possible && verdict is Ok,
                Ok(Outcome::Unverifiable) => !possible,
                Ok(_) => false,
                Err(fault) => possible && verdict == Err::<(), Fault>(fault),
            }
        }),
{
}

/// A delta for a symbol without a book is ignored; one that brings nothing new is
/// stale; and neither changes anything.
pub proof fn law_other_deltas_change_nothing<E: Exchange>(
    exchange: E,
    parsed: ParsedView,
    recv_ms: u64,
    books: Map<Seq<char>, OrderBook>,
    metrics: Map<Seq<char>, Metrics>,
    outcome: Result<Outcome, Fault>,
    books_after: Map<Seq<char>, OrderBook>,
    metrics_after: Map<Seq<char>, Metrics>,
    first: u64,
    last: u64,
)
    requires
        event_applied(
            exchange,
            parsed,
            recv_ms,
            books,
            metrics,
            outcome,
            books_after,
            metrics_after,
        ),
        parsed.event matches EventView::Delta { first: f, last: l, .. } && f == first && l == last,
    ensures
        !books.contains_key(parsed.symbol) ==> {
            &&& outcome == Ok::<Outcome, Fault>(Outcome::Ignored)
            &&& books_after == books
            &&& metrics_after == metrics
        },
        books.contains_key(parsed.symbol) && books[parsed.symbol]@.initialized && last
            <= books[parsed.symbol]@.last_update_id ==> {
            &&& outcome == Ok::<Outcome, Fault>(Outcome::Stale)
            &&& books_after == books
            &&& metrics_after == metrics
        },
        books.contains_key(parsed.symbol) && books[parsed.symbol]@.initialized && last
            > books[parsed.symbol]@.last_update_id && first > books[parsed.symbol]@.last_update_id
            + 1 ==> {
            &&& outcome matches Err(Fault::Gap { symbol, gap }) && symbol == parsed.symbol
                && gap.expected == books[parsed.symbol]@.last_update_id + 1 && gap.got == first
            &&& books_after == books
            &&& metrics_after == metrics
        },
{
}

/// A snapshot becomes the book of its symbol, with its own update id, and is not
/// counted as an update. Without a depth limit the book holds all its levels.
pub proof fn law_snapshot_becomes_the_book<E: Exchange>(
    exchange: E,
    parsed: ParsedView,
    recv_ms: u64,
    books: Map<Seq<char>, OrderBook>,
    metrics: Map<Seq<char>, Metrics>,
    outcome: Result<Outcome, Fault>,
    books_after: Map<Seq<char>, OrderBook>,
    metrics_after: Map<Seq<char>, Metrics>,
    bids: Seq<Level>,
    asks: Seq<Level>,
    sequence: u64,
)
    requires
        event_applied(
            exchange,
            parsed,
            recv_ms,
            books,
            metrics,
            outcome,
            books_after,
            metrics_after,
        ),
        parsed.event == (EventView::Snapshot { bids, asks, sequence }),
    ensures
        outcome == Ok::<Outcome, Fault>(Outcome::Seeded),
        books_after.contains_key(parsed.symbol),
        books_after[parsed.symbol]@.last_update_id == sequence,
        books_after[parsed.symbol]@.initialized,
        exchange.depth_limit() is None ==> {
            let after = books_after[parsed.symbol]@;
            &&& after.bids == with_levels(Map::empty(), bids)
            &&& after.asks == with_levels(Map::empty(), asks)
        },
        metrics_after == metrics,
{
}

/// A depth limit drops the worst levels and no others: what a book of limited depth
/// holds is what the full one says of that price, and a price of the full one is
/// missing only if the side is filled up to the limit with better ones.
pub proof fn law_depth_limit_drops_the_worst(
    book: OrderBook,
    full: BookView,
    limit: usize,
    price: int,
)
    requires
        kept_from(book, full, Some(limit)),
    ensures
        book@.bids.contains_key(price) ==> full.bids.contains_key(price) && book@.bids[price]
            == full.bids[price],
        book@.asks.contains_key(price) ==> full.asks.contains_key(price) && book@.asks[price]
            == full.asks[price],
        full.bids.contains_key(price) && !book@.bids.contains_key(price) ==> {
            &&& book.bids().len() == limit
            &&& forall|i: int|
                0 <= i < book.bids().len() ==> (#[trigger] book.bids()[i]).0.units() > price
        },
        full.asks.contains_key(price) && !book@.asks.contains_key(price) ==> {
            &&& book.asks().len() == limit
            &&& forall|i: int|
                0 <= i < book.asks().len() ==> (#[trigger] book.asks()[i]).0.units() < price
        },
{
    let n = limit as nat;
    let (x, y) = choose|x: Seq<(Decimal, Decimal)>, y: Seq<(Decimal, Decimal)>|
        #![trigger by_price(x), by_price(y)]
        {
            &&& ascending(x)
            &&& ascending(y)
            &&& by_price(x) == full.bids
            &&& by_price(y) == full.asks
            &&& book.bids() == last_n(x, n)
            &&& book.asks() == first_n(y, n)
        };
    let b = book.bids();
    let a = book.asks();
    if by_price(b).contains_key(price) {
        let i = choose|i: int| 0 <= i < b.len() && (#[trigger] b[i]).0.units() == price;
        law_list_holds_the_side(b, i);
        let j = x.len() - b.len() + i;
        assert(x[j] == b[i]);
        law_list_holds_the_side(x, j);
    }
    if by_price(a).contains_key(price) {
        let i = choose|i: int| 0 <= i < a.len() && (#[trigger] a[i]).0.units() == price;
        law_list_holds_the_side(a, i);
        assert(y[i] == a[i]);
        law_list_holds_the_side(y, i);
    }
    if by_price(x).contains_key(price) && !by_price(b).contains_key(price) {
        let j = choose|j: int| 0 <= j < x.len() && (#[trigger] x[j]).0.units() == price;
        let k = x.len() - b.len();
        if j >= k {
            assert(b[j - k] == x[j]);
            law_list_holds_the_side(b, j - k);
        }
        assert forall|i: int| 0 <= i < b.len() implies (#[trigger] b[i]).0.units() > price by {
            assert(b[i] == x[k + i]);
        }
    }
    if by_price(y).contains_key(price) && !by_price(a).contains_key(price) {
        let j = choose|j: int| 0 <= j < y.len() && (#[trigger] y[j]).0.units() == price;
        if j < a.len() {
            assert(a[j] == y[j]);
            law_list_holds_the_side(a, j);
        }
        assert forall|i: int| 0 <= i < a.len() implies (#[trigger] a[i]).0.units() < price by {
            assert(a[i] == y[i]);
        }
    }
}

/// Output is made for a symbol with a book and an accounting, a second or more
/// after the last one, and then always.
pub proof fn law_output_is_due_after_a_second(
    books: Map<Seq<char>, OrderBook>,
    metrics: Map<Seq<char>, Metrics>,
    symbol: Seq<char>,
    since_print: u128,
    depth: usize,
    rate: Seq<char>,
    report: Option<Report>,
    metrics_after: Map<Seq<char>, Metrics>,
)
    requires
        report_made(
            books,
            metrics,
            symbol,
            since_print,
            depth,
            rate,
            report,
            metrics_after,
        ),
    ensures
        report is Some <==> books.contains_key(symbol) && metrics.contains_key(symbol)
            && since_print >= 1_000_000_000,
        report matches Some(shown) ==> reported(
            metrics[symbol],
            books[symbol],
            depth,
            rate,
            Some(shown),
            metrics_after[symbol],
        ),
        forall|other: Seq<char>|
            other != symbol ==> #[trigger] metrics_after.contains_key(other)
                == metrics.contains_key(other) && (metrics.contains_key(other)
                ==> metrics_after[other] == metrics[other]),
{
}

/// There is room for every event until a counter would leave its range.
pub proof fn law_events_fit_until_a_counter_is_full(
    exchange: Seq<char>,
    parsed: ParsedView,
    recv_ms: u64,
    books: Map<Seq<char>, OrderBook>,
    metrics: Map<Seq<char>, Metrics>,
)
    requires
        parsed.event matches EventView::Delta { bids, asks, event_time_ms, .. } ==> {
            let m = accounting(metrics, exchange, parsed.symbol);
            let n = bids.len() + asks.len();
            &&& n <= usize::MAX
            &&& m.total_updates < 0xFFFF_FFFF_FFFF_FFFF
            &&& m.window_updates < 0xFFFF_FFFF_FFFF_FFFF
            &&& m.total_levels + n <= 0xFFFF_FFFF_FFFF_FFFF
            &&& event_time_ms matches Some(event) ==> m.latencies.len() < 0xFFFF_FFFF_FFFF_FFFF
                && total(m.latencies) + recv_ms <= 0xFFFF_FFFF_FFFF_FFFF
        },
    ensures
        event_fits(exchange, parsed, recv_ms, books, metrics),
{
}

/// What is said of a reading, of a checksum test and of an application is what they
/// returned.
pub proof fn law_results_are_told_as_they_are(
    parsed: ParsedEvent,
    error: FeedError,
    outcome: Outcome,
)
    ensures
        parsed@.symbol == parsed.symbol@,
        parsed@.event == parsed.event@,
        reading(Ok(Some(parsed))) == Ok::<Option<ParsedView>, Fault>(Some(parsed@)),
        reading(Ok(None)) == Ok::<Option<ParsedView>, Fault>(None),
        reading(Err(error)) == Err::<Option<ParsedView>, Fault>(error@),
        verdict_of(Ok(())) is Ok,
        verdict_of(Err(error)) == Err::<(), Fault>(error@),
        outcome_of(Ok(outcome)) == Ok::<Outcome, Fault>(outcome),
        outcome_of(Err(error)) == Err::<Outcome, Fault>(error@),
{
}

/// The wall clock in milliseconds is what the clock shows, as long as that fits 64
/// bits, and zero before the epoch.
pub proof fn law_wall_clock_shows_the_time(since_epoch: u128, shown: u64, before_epoch: u64)
    requires
        since_epoch <= 0xFFFF_FFFF_FFFF_FFFF,
        call_ensures(wall_clock_ms, (Some(since_epoch),), shown),
        call_ensures(wall_clock_ms, (None::<u128>,), before_epoch),
    ensures
        shown == since_epoch,
        before_epoch == 0,
{
}

} // verus!
