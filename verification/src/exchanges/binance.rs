//! Binance spot diff-depth adapter.
//!
//! Stream:   wss://stream.binance.com:9443/ws/<symbol>@depth@100ms
//! Snapshot: GET https://api.binance.com/api/v3/depth?symbol=<SYMBOL>&limit=1000
//!
//! Local-book sync follows Binance's documented procedure: buffer stream
//! deltas, fetch the REST snapshot, drop deltas fully older than the snapshot,
//! then apply the first delta whose range straddles `lastUpdateId + 1`. That
//! contiguity check lives in [`crate::orderbook::OrderBook::apply_delta`].

use super::{
    all_readable, all_spelled, event_exact, law_pairs_are_price_and_quantity, levels_of,
    levels_read, lowercase_text, normalized, pair_texts, parse_levels, read_as_spelled, uppercase_text,
};
use crate::error::{Fault, FeedError};
use crate::feed::{reading, Exchange, ParsedEvent, ParsedView};
use crate::orderbook::{BookEvent, EventView, Level, OrderBook};
use crate::text::texts;
use vstd::prelude::*;
use vstd::string::*;

verus! {

/// The Binance feed of one market.
pub struct Binance {
    /// Upper-case symbol for REST, e.g. "BTCUSDT"; none if the feed was given none.
    symbols: Vec<String>,
    /// Lower-case symbol for the stream path, e.g. "btcusdt".
    stream_symbol: String,
}

/// A depth snapshot, as the REST endpoint returns it.
#[derive(Debug)]
pub struct RestSnapshot {
    pub last_update_id: u64,
    pub bids: Vec<[String; 2]>,
    pub asks: Vec<[String; 2]>,
}

/// A depth update, as the stream carries it.
#[derive(Debug)]
pub struct DepthEvent {
    /// Exchange event time in epoch milliseconds, where the update has one.
    pub event_time_ms: Option<u64>,
    pub first_update_id: u64,
    pub final_update_id: u64,
    pub bids: Vec<[String; 2]>,
    pub asks: Vec<[String; 2]>,
}

/// The snapshot event that a REST snapshot stands for, or what is wrong with
/// it. The bids are read first.
pub open spec fn snapshot_event(snapshot: RestSnapshot) -> Result<EventView, Fault> {
    match levels_of(pair_texts(snapshot.bids@), true) {
        Err(fault) => Err(fault),
        Ok(bids) => match levels_of(pair_texts(snapshot.asks@), true) {
            Err(fault) => Err(fault),
            Ok(asks) => Ok(
                EventView::Snapshot { bids, asks, sequence: snapshot.last_update_id },
            ),
        },
    }
}

/// The delta that a depth update stands for, or what is wrong with it. The bids
/// are read first.
pub open spec fn depth_delta(update: DepthEvent) -> Result<EventView, Fault> {
    match levels_of(pair_texts(update.bids@), true) {
        Err(fault) => Err(fault),
        Ok(bids) => match levels_of(pair_texts(update.asks@), true) {
            Err(fault) => Err(fault),
            Ok(asks) => Ok(
                EventView::Delta {
                    bids,
                    asks,
                    first: update.first_update_id,
                    last: update.final_update_id,
                    event_time_ms: update.event_time_ms,
                    checksum: None,
                },
            ),
        },
    }
}

/// What a frame of the stream stands for.
pub open spec fn depth_reading(
    symbols: Seq<Seq<char>>,
    message: Option<DepthEvent>,
) -> Result<Option<ParsedView>, Fault> {
    match message {
        None => Ok(None),
        Some(update) => if symbols.len() == 0 {
            Err(Fault::NoSymbol)
        } else {
            match depth_delta(update) {
                Err(fault) => Err(fault),
                Ok(event) => Ok(Some(ParsedView { symbol: symbols[0], event })),
            }
        },
    }
}

/// The HTTP statuses that stand for success.
pub open spec fn is_success(status: u16) -> bool {
    200 <= status <= 299
}

impl Binance {
    /// The symbol in upper case.
    pub closed spec fn listed(self) -> Seq<Seq<char>> {
        texts(self.symbols@)
    }

    /// The symbol in lower case.
    pub closed spec fn stream(self) -> Seq<char> {
        self.stream_symbol@
    }

    /// A feed of the first of `symbols`: the stream carries one market.
    pub fn new(symbols: &[&str]) -> (feed: Self)
        ensures
            feed.listed() == if symbols@.len() == 0 {
                Seq::empty()
            } else {
                normalized(symbols@).take(1)
            },
            feed.stream() == if symbols@.len() == 0 {
                Seq::empty()
            } else {
                lowercase_text(feed.listed()[0])
            },
            symbols@.len() > 0 ==> feed.listed() == seq![uppercase_text(symbols@[0]@)],
    {
        let mut listed: Vec<String> = Vec::new();
        let mut stream_symbol: String = String::new();
        if symbols.len() > 0 {
            let symbol: String = symbols[0].to_uppercase();
            stream_symbol = symbol.as_str().to_lowercase();
            listed.push(symbol);
            assert(texts(listed@) =~= normalized(symbols@).take(1));
            assert(texts(listed@) =~= seq![uppercase_text(symbols@[0]@)]);
        } else {
            assert(texts(listed@) =~= Seq::empty());
        }
        Binance { symbols: listed, stream_symbol }
    }

    /// The snapshot event that a REST snapshot stands for.
    pub fn parse_snapshot(snapshot: RestSnapshot) -> (r: Result<BookEvent, FeedError>)
        ensures
            match r {
                Ok(event) => {
                    &&& snapshot_event(snapshot) == Ok::<EventView, Fault>(event@)
                    &&& event_exact(pair_texts(snapshot.bids@), pair_texts(snapshot.asks@), event@)
                },
                Err(e) => {
                    &&& snapshot_event(snapshot) == Err::<EventView, Fault>(e@)
                    &&& !all_spelled(pair_texts(snapshot.bids@)) || !all_spelled(
                        pair_texts(snapshot.asks@),
                    )
                },
            },
    {
        let bids: Vec<Level> = match parse_levels(snapshot.bids.as_slice()) {
            Ok(levels) => levels,
            Err(e) => return Err(e),
        };
        let asks: Vec<Level> = match parse_levels(snapshot.asks.as_slice()) {
            Ok(levels) => levels,
            Err(e) => return Err(e),
        };
        Ok(BookEvent::Snapshot { bids, asks, sequence: snapshot.last_update_id })
    }

    /// Whether the request for the snapshot succeeded, by its HTTP status.
    pub fn check_status(status: u16) -> (r: Result<(), FeedError>)
        ensures
            match r {
                Ok(()) => is_success(status),
                Err(e) => !is_success(status) && e@ == (Fault::SnapshotRefused { status }),
            },
            r is Ok <==> 200 <= status && status < 300,
    {
        if 200 <= status && status <= 299 {
            Ok(())
        } else {
            Err(FeedError::SnapshotRefused { status })
        }
    }
}

impl Exchange for Binance {
    type Message = DepthEvent;

    open spec fn name_text(&self) -> Seq<char> {
        "binance"@
    }

    open spec fn symbol_texts(&self) -> Seq<Seq<char>> {
        self.listed()
    }

    open spec fn url_text(&self) -> Seq<char> {
        "wss://stream.binance.com:9443/ws/"@ + self.stream() + "@depth@100ms"@
    }

    open spec fn subscription_texts(&self) -> Seq<Seq<char>> {
        Seq::empty()
    }

    open spec fn seeded_by_request(&self) -> bool {
        true
    }

    open spec fn request_url(&self) -> Result<Seq<char>, Fault> {
        if self.listed().len() == 0 {
            Err(Fault::NoSymbol)
        } else {
            Ok(
                "https://api.binance.com/api/v3/depth?symbol="@ + self.listed()[0]
                    + "&limit=1000"@,
            )
        }
    }

    open spec fn depth_limit(&self) -> Option<usize> {
        None
    }

    open spec fn has_room_for(&self, message: Option<DepthEvent>) -> bool {
        true
    }

    open spec fn reads(
        before: &Self,
        message: Option<DepthEvent>,
        outcome: Result<Option<ParsedView>, Fault>,
        after: &Self,
    ) -> bool {
        &&& outcome == depth_reading(before.listed(), message)
        &&& after == before
    }

    open spec fn can_check(&self, symbol: Seq<char>, book: OrderBook) -> bool {
        true
    }

    open spec fn verdict(&self, symbol: Seq<char>, book: OrderBook, checksum: u32) -> Result<
        (),
        Fault,
    > {
        Ok(())
    }

    fn name(&self) -> (name: &str) {
        "binance"
    }

    fn symbols(&self) -> (symbols: &Vec<String>) {
        &self.symbols
    }

    fn ws_url(&self) -> (url: String) {
        let mut url: String = "wss://stream.binance.com:9443/ws/".to_owned();
        url.append(self.stream_symbol.as_str());
        url.append("@depth@100ms");
        url
    }

    fn subscribe_messages(&self) -> (frames: Vec<String>) {
        // Subscription is encoded in the URL path; nothing to send.
        Vec::new()
    }

    fn needs_rest_snapshot(&self) -> (needed: bool) {
        true
    }

    fn snapshot_url(&self) -> (url: Result<String, FeedError>) {
        if self.symbols.len() == 0 {
            return Err(FeedError::NoSymbol);
        }
        let mut url: String = "https://api.binance.com/api/v3/depth?symbol=".to_owned();
        url.append(self.symbols[0].as_str());
        url.append("&limit=1000");
        Ok(url)
    }

    fn can_read(&self, message: &Option<DepthEvent>) -> (r: bool) {
        true
    }

    fn parse_message(&mut self, message: Option<DepthEvent>) -> (r: Result<
        Option<ParsedEvent>,
        FeedError,
    >)
        ensures
            message matches Some(update) ==> old(self).listed().len() > 0 ==> read_as_spelled(
                pair_texts(update.bids@),
                pair_texts(update.asks@),
                reading(r),
            ),
    {
        let update: DepthEvent = match message {
            Some(update) => update,
            None => return Ok(None),
        };
        if self.symbols.len() == 0 {
            return Err(FeedError::NoSymbol);
        }
        let bids: Vec<Level> = match parse_levels(update.bids.as_slice()) {
            Ok(levels) => levels,
            Err(e) => return Err(e),
        };
        let asks: Vec<Level> = match parse_levels(update.asks.as_slice()) {
            Ok(levels) => levels,
            Err(e) => return Err(e),
        };
        Ok(
            Some(
                ParsedEvent {
                    symbol: self.symbols[0].as_str().to_owned(),
                    event: BookEvent::Delta {
                        bids,
                        asks,
                        first: update.first_update_id,
                        last: update.final_update_id,
                        event_time_ms: update.event_time_ms,
                        checksum: None,
                    },
                },
            ),
        )
    }

    fn book_depth_limit(&self) -> (limit: Option<usize>) {
        None
    }

    fn can_verify(&self, symbol: &str, book: &OrderBook) -> (r: bool) {
        true
    }

    fn verify_checksum(&self, symbol: &str, book: &OrderBook, checksum: u32) -> (r: Result<
        (),
        FeedError,
    >) {
        Ok(())
    }
}

/// A requested snapshot is read exactly if all its numbers can be read, and then
/// into one level for each of its pairs, on its side; its update id is the
/// sequence of the event.
pub proof fn law_snapshot_is_carried_over(snapshot: RestSnapshot)
    ensures
        match snapshot_event(snapshot) {
            Ok(EventView::Snapshot { bids, asks, sequence }) => {
                &&& levels_read(snapshot.bids@, bids)
                &&& levels_read(snapshot.asks@, asks)
                &&& sequence == snapshot.last_update_id
            },
            Ok(EventView::Delta { .. }) => false,
            Err(_) => !all_readable(snapshot.bids@) || !all_readable(snapshot.asks@),
        },
{
    law_pairs_are_price_and_quantity(snapshot.bids@);
    law_pairs_are_price_and_quantity(snapshot.asks@);
}

/// An update of the stream is a delta of the tracked symbol: its ids, its event
/// time and its levels are those of the update, each on its side. It is refused
/// exactly if a number cannot be read, or if no symbol is tracked.
pub proof fn law_update_is_carried_over(symbols: Seq<Seq<char>>, update: DepthEvent)
    ensures
        match depth_reading(symbols, Some(update)) {
            Ok(Some(parsed)) => {
                &&& symbols.len() > 0 && parsed.symbol == symbols[0]
                &&& match parsed.event {
                    EventView::Delta { bids, asks, first, last, event_time_ms, checksum } => {
                        &&& levels_read(update.bids@, bids)
                        &&& levels_read(update.asks@, asks)
                        &&& first == update.first_update_id
                        &&& last == update.final_update_id
                        &&& event_time_ms == update.event_time_ms
                        &&& checksum is None
                    },
                    EventView::Snapshot { .. } => false,
                }
            },
            Ok(None) => false,
            Err(fault) => if symbols.len() == 0 {
                fault is NoSymbol
            } else {
                !all_readable(update.bids@) || !all_readable(update.asks@)
            },
        },
        depth_reading(symbols, None) == Ok::<Option<ParsedView>, Fault>(None),
{
    law_pairs_are_price_and_quantity(update.bids@);
    law_pairs_are_price_and_quantity(update.asks@);
}

/// The addresses name the symbol: two feeds that connect to the same stream have
/// the same stream symbol, and two that request the same snapshot the same
/// symbol.
pub proof fn law_addresses_name_the_symbol(a: Binance, b: Binance)
    ensures
        a.url_text() == b.url_text() ==> a.stream() == b.stream(),
        a.request_url() is Ok <==> a.listed().len() > 0,
        a.request_url() is Ok && a.request_url() == b.request_url() ==> a.listed()[0]
            == b.listed()[0],
{
    let head = "wss://stream.binance.com:9443/ws/"@;
    let tail = "@depth@100ms"@;
    if a.url_text() == b.url_text() {
        lemma_same_middle(head, a.stream(), b.stream(), tail);
    }
    if a.request_url() is Ok && a.request_url() == b.request_url() {
        lemma_same_middle(
            "https://api.binance.com/api/v3/depth?symbol="@,
            a.listed()[0],
            b.listed()[0],
            "&limit=1000"@,
        );
    }
}

proof fn lemma_same_middle(head: Seq<char>, a: Seq<char>, b: Seq<char>, tail: Seq<char>)
    requires
        head + a + tail == head + b + tail,
    ensures
        a == b,
{
    let x = head + a + tail;
    let y = head + b + tail;
    assert(x.len() == y.len());
    assert(x.subrange(head.len() as int, (head.len() + a.len()) as int) =~= a);
    assert(y.subrange(head.len() as int, (head.len() + b.len()) as int) =~= b);
}

/// The feed reads a message as it stands, whatever its symbol, and is not changed
/// by it. It has room for every message, keeps the whole book, and has no checksum
/// to test.
pub proof fn law_feed_reads_every_message(
    before: Binance,
    message: Option<DepthEvent>,
    outcome: Result<Option<ParsedView>, Fault>,
    after: Binance,
    symbol: Seq<char>,
    book: OrderBook,
    checksum: u32,
)
    ensures
        Binance::reads(&before, message, outcome, &after) ==> outcome == depth_reading(
            before.listed(),
            message,
        ) && after == before,
        before.has_room_for(message),
        before.symbol_texts() == before.listed(),
        before.depth_limit() is None,
        before.can_check(symbol, book),
        before.verdict(symbol, book, checksum) is Ok,
        before.seeded_by_request(),
        before.subscription_texts().len() == 0,
{
}

/// A snapshot is refused exactly for a status outside the two hundreds, and the
/// report names that status.
pub proof fn law_status_decides_on_the_snapshot(status: u16, r: Result<(), FeedError>)
    requires
        call_ensures(Binance::check_status, (status,), r),
    ensures
        r is Ok <==> status / 100 == 2,
        r matches Err(e) ==> e@ == (Fault::SnapshotRefused { status }),
{
}

} // verus!
