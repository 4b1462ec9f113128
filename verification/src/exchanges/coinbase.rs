//! Coinbase Exchange `level2_batch` adapter.
//!
//! Endpoint: wss://ws-feed.exchange.coinbase.com  (public, no auth)
//! Flow:     subscribe to `level2_batch` -> one `snapshot` message, then a
//!           stream of `l2update` messages (batched to ~50ms). The plain
//!           `level2` channel is auth-only; `level2_batch` is the public one.
//!
//! The channel carries no per-message sequence number, so genuine drops cannot
//! be detected from the payload alone. A synthetic counter per symbol (reset on
//! each snapshot) keeps updates contiguous for the shared book machinery; a
//! fresh `snapshot` on reconnect resets it cleanly. `l2update` does carry a
//! `time` field, used for the latency metric.

use super::{
    advance, agree_on, all_readable, book_with, concerns, event_exact, in_step, is_read_as,
    is_time_of, last_number, law_pairs_are_price_and_quantity, law_stamp_names_the_event_time,
    level_of, levels_exact, levels_of, levels_read, next_sequence, normalize, normalized,
    pair_spelled, pair_texts, parse_levels, read_as_spelled, read_level, read_stamp, stamp_of,
    uppercase_text,
};
use crate::decimal::parsed_decimal;
use crate::error::{Fault, FeedError, Field};
use crate::feed::{reading, Exchange, ParsedEvent, ParsedView};
use crate::json::{json_array, strings_to_json};
use crate::orderbook::{
    empty_book, event_book, gap_before_event, is_next, BookEvent, BookView, EventView, Level,
    OrderBook,
};
use crate::symbols::SymbolTable;
use crate::text::{same_text, shows, texts};
use vstd::prelude::*;
use vstd::string::*;

verus! {

/// The Coinbase feed of one or more products.
pub struct Coinbase {
    /// Product ids, e.g. "BTC-USD".
    symbols: Vec<String>,
    /// The synthetic sequence number of each symbol, 0 at its snapshot.
    seq: SymbolTable<u64>,
}

/// A message of the feed.
#[derive(Debug)]
pub enum Incoming {
    Snapshot { product_id: String, bids: Vec<[String; 2]>, asks: Vec<[String; 2]> },
    L2Update {
        product_id: String,
        /// Exchange event time (RFC3339). An update without it has no latency.
        time: Option<String>,
        /// Each change is [side, price, size] with side "buy" or "sell".
        changes: Vec<[String; 3]>,
    },
    Error { message: String },
    Other,
}

/// The bids and the asks that a list of changes holds, each in its order; or
/// what is wrong with the first change that cannot be read. Of a change, the
/// price is read first, then the size, then the side.
pub open spec fn changes_of(changes: Seq<[String; 3]>) -> Result<(Seq<Level>, Seq<Level>), Fault>
    decreases changes.len(),
{
    if changes.len() == 0 {
        Ok((Seq::empty(), Seq::empty()))
    } else {
        let change = changes.last()@;
        match changes_of(changes.drop_last()) {
            Err(fault) => Err(fault),
            Ok((bids, asks)) => match level_of(change[1]@, change[2]@, Field::Size, true) {
                Err(fault) => Err(fault),
                Ok(level) => if change[0]@ == "buy"@ {
                    Ok((bids.push(level), asks))
                } else if change[0]@ == "sell"@ {
                    Ok((bids, asks.push(level)))
                } else {
                    Err(Fault::UnknownSide { side: change[0]@ })
                },
            },
        }
    }
}

/// The price and size texts of the changes of one side, in their order.
pub open spec fn side_texts(changes: Seq<[String; 3]>, side: Seq<char>) -> Seq<
    (Seq<char>, Seq<char>),
>
    decreases changes.len(),
{
    if changes.len() == 0 {
        Seq::empty()
    } else {
        let front = side_texts(changes.drop_last(), side);
        let change = changes.last()@;
        if change[0]@ == side {
            front.push((change[1]@, change[2]@))
        } else {
            front
        }
    }
}

/// The change is a `buy` or a `sell`, and its price and its size spell numbers.
pub open spec fn change_spelled(change: [String; 3]) -> bool {
    &&& change@[0]@ == "buy"@ || change@[0]@ == "sell"@
    &&& pair_spelled((change@[1]@, change@[2]@))
}

/// A list of changes is read as it is spelled: the levels are the numbers that
/// their texts spell, each on its side, and it is refused only for a change that
/// is not spelled out.
pub open spec fn changes_as_spelled(
    changes: Seq<[String; 3]>,
    outcome: Result<Option<ParsedView>, Fault>,
) -> bool {
    match outcome {
        Ok(Some(parsed)) => event_exact(
            side_texts(changes, "buy"@),
            side_texts(changes, "sell"@),
            parsed.event,
        ),
        Ok(None) => true,
        Err(_) => exists|i: int|
            0 <= i < changes.len() && !change_spelled(#[trigger] changes[i]),
    }
}

/// A change that cannot be read cannot be mended by what follows it.
proof fn lemma_changes_of_prefix(changes: Seq<[String; 3]>, n: int)
    requires
        0 <= n <= changes.len(),
        changes_of(changes.take(n)) is Err,
    ensures
        changes_of(changes) == changes_of(changes.take(n)),
    decreases changes.len() - n,
{
    if n == changes.len() {
        assert(changes.take(n) =~= changes);
    } else {
        assert(changes.take(n + 1).drop_last() =~= changes.take(n));
        lemma_changes_of_prefix(changes, n + 1);
    }
}

/// Sorts a list of changes into bids and asks.
fn read_changes(changes: &Vec<[String; 3]>) -> (r: Result<(Vec<Level>, Vec<Level>), FeedError>)
    ensures
        match r {
            Ok((bids, asks)) => {
                &&& changes_of(changes@) == Ok::<(Seq<Level>, Seq<Level>), Fault>((bids@, asks@))
                &&& levels_exact(side_texts(changes@, "buy"@), bids@)
                &&& levels_exact(side_texts(changes@, "sell"@), asks@)
            },
            Err(e) => {
                &&& changes_of(changes@) == Err::<(Seq<Level>, Seq<Level>), Fault>(e@)
                &&& exists|i: int|
                    0 <= i < changes@.len() && !change_spelled(#[trigger] changes@[i])
            },
        },
{
    let mut bids: Vec<Level> = Vec::new();
    let mut asks: Vec<Level> = Vec::new();
    let mut i: usize = 0;
    assert(changes@.take(0) =~= Seq::empty());
    while i < changes.len()
        invariant
            i <= changes@.len(),
            changes_of(changes@.take(i as int)) == Ok::<(Seq<Level>, Seq<Level>), Fault>(
                (bids@, asks@),
            ),
            levels_exact(side_texts(changes@.take(i as int), "buy"@), bids@),
            levels_exact(side_texts(changes@.take(i as int), "sell"@), asks@),
        decreases changes@.len() - i,
    {
        proof {
            reveal_strlit("buy");
            reveal_strlit("sell");
            assert("buy"@.len() != "sell"@.len());
            assert(changes@.take(i + 1).drop_last() =~= changes@.take(i as int));
            assert(changes@.take(i + 1).last() == changes@[i as int]);
        }
        let change: &[String; 3] = &changes[i];
        let level: Level = match read_level(
            change[1].as_str(),
            change[2].as_str(),
            Field::Size,
            true,
        ) {
            Ok(level) => level,
            Err(e) => {
                proof {
                    lemma_changes_of_prefix(changes@, i + 1);
                }
                return Err(e);
            },
        };
        if same_text(change[0].as_str(), "buy") {
            bids.push(level);
        } else if same_text(change[0].as_str(), "sell") {
            asks.push(level);
        } else {
            proof {
                lemma_changes_of_prefix(changes@, i + 1);
            }
            return Err(FeedError::UnknownSide { side: change[0].as_str().to_owned() });
        }
        i = i + 1;
    }
    assert(changes@.take(i as int) =~= changes@);
    Ok((bids, asks))
}

/// The event of a `snapshot` message, or what is wrong with it. The bids are
/// read first.
pub open spec fn snapshot_reading(
    product_id: Seq<char>,
    bids: Seq<[String; 2]>,
    asks: Seq<[String; 2]>,
) -> Result<Option<ParsedView>, Fault> {
    match levels_of(pair_texts(bids), true) {
        Err(fault) => Err(fault),
        Ok(bids) => match levels_of(pair_texts(asks), true) {
            Err(fault) => Err(fault),
            Ok(asks) => Ok(
                Some(
                    ParsedView {
                        symbol: product_id,
                        event: EventView::Snapshot { bids, asks, sequence: 0 },
                    },
                ),
            ),
        },
    }
}

/// The event of an `l2update` message that is number `n` of its symbol, or what
/// is wrong with it.
pub open spec fn update_reading(
    product_id: Seq<char>,
    time: Option<String>,
    changes: Seq<[String; 3]>,
    n: u64,
) -> Result<Option<ParsedView>, Fault> {
    match changes_of(changes) {
        Err(fault) => Err(fault),
        Ok((bids, asks)) => Ok(
            Some(
                ParsedView {
                    symbol: product_id,
                    event: EventView::Delta {
                        bids,
                        asks,
                        first: n,
                        last: n,
                        event_time_ms: stamp_of(time),
                        checksum: None,
                    },
                },
            ),
        ),
    }
}

/// What a message stands for, given the counters of the symbols. An `error`
/// message, another one, and a frame that is no message are ignored.
pub open spec fn message_reading(
    counters: Map<Seq<char>, u64>,
    message: Option<Incoming>,
) -> Result<Option<ParsedView>, Fault> {
    match message {
        Some(Incoming::Snapshot { product_id, bids, asks }) => snapshot_reading(
            product_id@,
            bids@,
            asks@,
        ),
        Some(Incoming::L2Update { product_id, time, changes }) => update_reading(
            product_id@,
            time,
            changes@,
            next_sequence(counters, product_id@, false) as u64,
        ),
        _ => Ok(None),
    }
}

/// The counters after a message: a snapshot resets the one of its symbol even
/// where its levels cannot be read, an update advances it if it can be read.
pub open spec fn counters_after(
    counters: Map<Seq<char>, u64>,
    message: Option<Incoming>,
) -> Map<Seq<char>, u64> {
    match message {
        Some(Incoming::Snapshot { product_id, bids, asks }) => counters.insert(product_id@, 0),
        Some(Incoming::L2Update { product_id, time, changes }) => if changes_of(changes@) is Ok {
            counters.insert(product_id@, next_sequence(counters, product_id@, false) as u64)
        } else {
            counters
        },
        _ => counters,
    }
}

/// The `subscribe` frame for a list of products.
pub open spec fn subscribe_text(symbols: Seq<Seq<char>>) -> Seq<char> {
    "{\"type\":\"subscribe\",\"product_ids\":"@ + json_array(symbols)
        + ",\"channels\":[\"level2_batch\"]}"@
}

impl Coinbase {
    /// The products.
    pub closed spec fn products(self) -> Seq<Seq<char>> {
        texts(self.symbols@)
    }

    /// The last sequence number of each symbol.
    pub closed spec fn counters(self) -> Map<Seq<char>, u64> {
        self.seq@
    }

    /// A feed of `symbols`.
    pub fn new(symbols: &[&str]) -> (feed: Self)
        ensures
            feed.products() == normalized(symbols@),
            feed.products().len() == symbols@.len(),
            forall|i: int|
                0 <= i < symbols@.len() ==> #[trigger] feed.products()[i] == uppercase_text(
                    symbols@[i]@,
                ),
            feed.counters() == Map::<Seq<char>, u64>::empty(),
    {
        Coinbase { symbols: normalize(symbols), seq: SymbolTable::new() }
    }

    /// Next synthetic sequence for `symbol`; `reset` restarts it at 0 (snapshot).
    fn next_seq(&mut self, symbol: &str, reset: bool) -> (n: u64)
        requires
            next_sequence(old(self).counters(), symbol@, reset) <= u64::MAX,
        ensures
            n == next_sequence(old(self).counters(), symbol@, reset),
            final(self).counters() == old(self).counters().insert(symbol@, n),
            final(self).products() == old(self).products(),
    {
        advance(&mut self.seq, symbol, reset)
    }
}

impl Exchange for Coinbase {
    type Message = Incoming;

    open spec fn name_text(&self) -> Seq<char> {
        "coinbase"@
    }

    open spec fn symbol_texts(&self) -> Seq<Seq<char>> {
        self.products()
    }

    open spec fn url_text(&self) -> Seq<char> {
        "wss://ws-feed.exchange.coinbase.com"@
    }

    open spec fn subscription_texts(&self) -> Seq<Seq<char>> {
        seq![subscribe_text(self.products())]
    }

    open spec fn seeded_by_request(&self) -> bool {
        false
    }

    open spec fn request_url(&self) -> Result<Seq<char>, Fault> {
        Err(Fault::NoRestSnapshot { reason: "coinbase snapshot comes over the websocket"@ })
    }

    open spec fn depth_limit(&self) -> Option<usize> {
        None
    }

    open spec fn has_room_for(&self, message: Option<Incoming>) -> bool {
        message matches Some(Incoming::L2Update { product_id, time, changes }) ==> changes_of(
            changes@,
        ) is Err || next_sequence(self.counters(), product_id@, false) <= u64::MAX
    }

    open spec fn reads(
        before: &Self,
        message: Option<Incoming>,
        outcome: Result<Option<ParsedView>, Fault>,
        after: &Self,
    ) -> bool {
        &&& outcome == message_reading(before.counters(), message)
        &&& after.counters() == counters_after(before.counters(), message)
        &&& after.products() == before.products()
    }

    open spec fn can_check(&self, symbol: Seq<char>, book: OrderBook) -> bool {
        true
    }

    open spec fn verdict(&self, symbol: Seq<char>, book: OrderBook, checksum: u32) -> Result<
        (),
        Fault,
    > {
        Ok(())
    }

    fn name(&self) -> (name: &str) {
        "coinbase"
    }

    fn symbols(&self) -> (symbols: &Vec<String>) {
        &self.symbols
    }

    fn ws_url(&self) -> (url: String) {
        "wss://ws-feed.exchange.coinbase.com".to_owned()
    }

    fn subscribe_messages(&self) -> (frames: Vec<String>) {
        // `level2_batch` is the public (no-auth) depth channel on the Exchange
        // feed; the plain `level2` channel requires authentication and replies
        // "Failed to subscribe" without it. Both deliver identical `snapshot` +
        // `l2update` messages; batch just throttles them to ~50ms.
        let mut frame: String = "{\"type\":\"subscribe\",\"product_ids\":".to_owned();
        frame.append(strings_to_json(self.symbols.as_slice()).as_str());
        frame.append(",\"channels\":[\"level2_batch\"]}");
        let mut frames: Vec<String> = Vec::new();
        frames.push(frame);
        frames
    }

    fn needs_rest_snapshot(&self) -> (needed: bool) {
        false
    }

    fn snapshot_url(&self) -> (url: Result<String, FeedError>) {
        // The snapshot arrives over the socket.
        Err(
            FeedError::NoRestSnapshot {
                reason: "coinbase snapshot comes over the websocket".to_owned(),
            },
        )
    }

    fn can_read(&self, message: &Option<Incoming>) -> (r: bool) {
        match message {
            Some(Incoming::L2Update { product_id, time: _, changes }) => {
                match self.seq.get(product_id.as_str()) {
                    Some(last) => *last < u64::MAX || read_changes(changes).is_err(),
                    None => true,
                }
            },
            _ => true,
        }
    }

    fn parse_message(&mut self, message: Option<Incoming>) -> (r: Result<
        Option<ParsedEvent>,
        FeedError,
    >)
        ensures
            match message {
                Some(Incoming::Snapshot { product_id, bids, asks }) => read_as_spelled(
                    pair_texts(bids@),
                    pair_texts(asks@),
                    reading(r),
                ),
                Some(Incoming::L2Update { product_id, time, changes }) => changes_as_spelled(
                    changes@,
                    reading(r),
                ),
                _ => true,
            },
    {
        match message {
            Some(Incoming::Snapshot { product_id, bids, asks }) => {
                let _ = self.next_seq(product_id.as_str(), true);
                let bids: Vec<Level> = match parse_levels(bids.as_slice()) {
                    Ok(levels) => levels,
                    Err(e) => return Err(e),
                };
                let asks: Vec<Level> = match parse_levels(asks.as_slice()) {
                    Ok(levels) => levels,
                    Err(e) => return Err(e),
                };
                Ok(
                    Some(
                        ParsedEvent {
                            symbol: product_id,
                            event: BookEvent::Snapshot { bids, asks, sequence: 0 },
                        },
                    ),
                )
            },
            Some(Incoming::L2Update { product_id, time, changes }) => {
                let (bids, asks) = match read_changes(&changes) {
                    Ok(sides) => sides,
                    Err(e) => return Err(e),
                };
                let n: u64 = self.next_seq(product_id.as_str(), false);
                let event_time_ms: Option<u64> = read_stamp(&time);
                Ok(
                    Some(
                        ParsedEvent {
                            symbol: product_id,
                            event: BookEvent::Delta {
                                bids,
                                asks,
                                first: n,
                                last: n,
                                event_time_ms,
                                checksum: None,
                            },
                        },
                    ),
                )
            },
            _ => Ok(None),
        }
    }

    fn book_depth_limit(&self) -> (limit: Option<usize>) {
        None
    }

    fn can_verify(&self, symbol: &str, book: &OrderBook) -> (r: bool) {
        true
    }

    fn verify_checksum(&self, symbol: &str, book: &OrderBook, checksum: u32) -> (r: Result<
        (),
        FeedError,
    >) {
        Ok(())
    }
}

/// The symbol that a message belongs to.
pub open spec fn symbol_of(message: Option<Incoming>) -> Option<Seq<char>> {
    match message {
        Some(Incoming::Snapshot { product_id, bids, asks }) => Some(product_id@),
        Some(Incoming::L2Update { product_id, time, changes }) => Some(product_id@),
        _ => None,
    }
}

/// Symbols are counted independently: a message leaves the counters of all
/// other symbols alone.
pub proof fn law_other_symbols_keep_their_counters(
    counters: Map<Seq<char>, u64>,
    message: Option<Incoming>,
    symbol: Seq<char>,
)
    requires
        symbol_of(message) != Some(symbol),
    ensures
        agree_on(counters_after(counters, message), counters, symbol),
{
}

/// What a message stands for depends on the counter of its own symbol only.
pub proof fn law_reading_depends_on_own_counter(
    a: Map<Seq<char>, u64>,
    b: Map<Seq<char>, u64>,
    message: Option<Incoming>,
)
    requires
        symbol_of(message) matches Some(symbol) ==> agree_on(a, b, symbol),
    ensures
        message_reading(a, message) == message_reading(b, message),
{
}

/// The synthetic sequence is contiguous: an update never gaps, is never stale,
/// and leaves its book in step with the counter; a snapshot brings its book in
/// step with the counter.
pub proof fn law_updates_stay_in_step(
    counters: Map<Seq<char>, u64>,
    message: Option<Incoming>,
    parsed: ParsedView,
    book: BookView,
)
    requires
        message_reading(counters, message) == Ok::<Option<ParsedView>, Fault>(Some(parsed)),
        parsed.event is Delta ==> in_step(counters, parsed.symbol, book) && book.last_update_id
            < u64::MAX,
    ensures
        gap_before_event(book, parsed.event) is None,
        parsed.event matches EventView::Delta { first, last, .. } ==> is_next(book, first, last),
        in_step(
            counters_after(counters, message),
            parsed.symbol,
            event_book(book, parsed.event),
        ),
{
}

/// The counters after a run of messages.
pub open spec fn counters_through(
    counters: Map<Seq<char>, u64>,
    messages: Seq<Option<Incoming>>,
) -> Map<Seq<char>, u64>
    decreases messages.len(),
{
    if messages.len() == 0 {
        counters
    } else {
        counters_after(counters_through(counters, messages.drop_last()), messages.last())
    }
}

/// The book of `symbol` after a run of messages, from an empty book on. A delta
/// ahead of the first snapshot is ignored.
pub open spec fn book_through(
    counters: Map<Seq<char>, u64>,
    messages: Seq<Option<Incoming>>,
    symbol: Seq<char>,
) -> BookView
    decreases messages.len(),
{
    if messages.len() == 0 {
        empty_book()
    } else {
        let front = messages.drop_last();
        book_with(
            book_through(counters, front, symbol),
            message_reading(counters_through(counters, front), messages.last()),
            symbol,
        )
    }
}

/// One message keeps the book of `symbol` in step, and moves its counter on by one
/// at most.
proof fn lemma_step(
    counters: Map<Seq<char>, u64>,
    message: Option<Incoming>,
    symbol: Seq<char>,
    book: BookView,
)
    requires
        message_reading(counters, message) is Ok,
        book.initialized ==> in_step(counters, symbol, book),
        counters.contains_key(symbol) ==> counters[symbol] < u64::MAX,
    ensures
        ({
            let after = counters_after(counters, message);
            let next = book_with(book, message_reading(counters, message), symbol);
            &&& next.initialized ==> in_step(after, symbol, next)
            &&& last_number(after, symbol) <= last_number(counters, symbol) + 1
        }),
{
    let outcome = message_reading(counters, message);
    if symbol_of(message) != Some(symbol) {
        law_other_symbols_keep_their_counters(counters, message, symbol);
    } else if concerns(outcome, symbol, book) {
        law_updates_stay_in_step(counters, message, outcome->Ok_0->Some_0, book);
    }
}

proof fn lemma_session(
    counters: Map<Seq<char>, u64>,
    messages: Seq<Option<Incoming>>,
    symbol: Seq<char>,
)
    requires
        last_number(counters, symbol) + messages.len() <= u64::MAX,
        forall|i: int|
            0 <= i < messages.len() ==> message_reading(
                counters_through(counters, messages.take(i)),
                #[trigger] messages[i],
            ) is Ok,
    ensures
        ({
            let after = counters_through(counters, messages);
            let book = book_through(counters, messages, symbol);
            &&& book.initialized ==> in_step(after, symbol, book)
            &&& last_number(after, symbol) <= last_number(counters, symbol) + messages.len()
        }),
    decreases messages.len(),
{
    if messages.len() > 0 {
        let front = messages.drop_last();
        assert forall|i: int| 0 <= i < front.len() implies message_reading(
            counters_through(counters, front.take(i)),
            #[trigger] front[i],
        ) is Ok by {
            assert(front.take(i) =~= messages.take(i));
            assert(front[i] == messages[i]);
        }
        lemma_session(counters, front, symbol);
        assert(messages.take(messages.len() - 1) =~= front);
        assert(messages[messages.len() - 1] == messages.last());
        lemma_step(
            counters_through(counters, front),
            messages.last(),
            symbol,
            book_through(counters, front, symbol),
        );
    }
}

/// A session never gaps: whatever the run of messages, as long as each of them
/// can be read, no delta is behind a gap in the book of its symbol.
pub proof fn law_session_never_gaps(
    counters: Map<Seq<char>, u64>,
    messages: Seq<Option<Incoming>>,
    next: Option<Incoming>,
    symbol: Seq<char>,
)
    requires
        last_number(counters, symbol) + messages.len() < u64::MAX,
        forall|i: int|
            0 <= i < messages.len() ==> message_reading(
                counters_through(counters, messages.take(i)),
                #[trigger] messages[i],
            ) is Ok,
    ensures
        ({
            let book = book_through(counters, messages, symbol);
            let outcome = message_reading(counters_through(counters, messages), next);
            concerns(outcome, symbol, book) ==> gap_before_event(
                book,
                outcome->Ok_0->Some_0.event,
            ) is None
        }),
{
    lemma_session(counters, messages, symbol);
    let between = counters_through(counters, messages);
    let book = book_through(counters, messages, symbol);
    let outcome = message_reading(between, next);
    if concerns(outcome, symbol, book) {
        law_updates_stay_in_step(between, next, outcome->Ok_0->Some_0, book);
    }
}

/// How many of the first `i` changes are of that side.
#[verifier::opaque]
pub open spec fn side_before(changes: Seq<[String; 3]>, side: Seq<char>, i: int) -> nat {
    changes.take(i).filter(|change: [String; 3]| change@[0]@ == side).len()
}

/// The change can be read: it is a `buy` or a `sell`, with numbers for its price
/// and its size.
pub open spec fn is_readable(change: [String; 3]) -> bool {
    &&& change@[0]@ == "buy"@ || change@[0]@ == "sell"@
    &&& parsed_decimal(change@[1]@) is Ok
    &&& parsed_decimal(change@[2]@) is Ok
}

/// The level is that of the change: the second text is its price, the third its
/// size.
pub open spec fn is_level_of(change: [String; 3], level: Level) -> bool {
    is_read_as(change@[1]@, level.price) && is_read_as(change@[2]@, level.qty)
}

proof fn lemma_side_before(changes: Seq<[String; 3]>, side: Seq<char>)
    requires
        changes.len() > 0,
    ensures
        forall|i: int|
            0 <= i < changes.len() ==> #[trigger] side_before(changes, side, i) == side_before(
                changes.drop_last(),
                side,
                i,
            ),
        side_before(changes, side, changes.len() as int) == side_before(
            changes.drop_last(),
            side,
            changes.len() - 1,
        ) + if changes.last()@[0]@ == side {
            1nat
        } else {
            0nat
        },
{
    reveal(side_before);
    let front = changes.drop_last();
    let n = changes.len() as int;
    assert forall|i: int| 0 <= i < n implies #[trigger] side_before(changes, side, i)
        == side_before(front, side, i) by {
        assert(changes.take(i) =~= front.take(i));
    }
    assert(changes.take(n) =~= changes);
    assert(front.take(n - 1) =~= front);
    reveal(Seq::filter);
}

proof fn lemma_no_changes(side: Seq<char>)
    ensures
        side_before(Seq::empty(), side, 0) == 0,
{
    reveal(side_before);
    reveal(Seq::filter);
    assert(Seq::<[String; 3]>::empty().take(0) =~= Seq::<[String; 3]>::empty());
}

/// Every `buy` is a bid and every `sell` an ask, in their order, and there are no
/// other levels; the changes are refused exactly if one of them cannot be read.
pub proof fn law_changes_go_to_their_sides(changes: Seq<[String; 3]>)
    ensures
        match changes_of(changes) {
            Ok((bids, asks)) => {
                &&& bids.len() == side_before(changes, "buy"@, changes.len() as int)
                &&& asks.len() == side_before(changes, "sell"@, changes.len() as int)
                &&& bids.len() + asks.len() == changes.len()
                &&& forall|i: int|
                    0 <= i < changes.len() && (#[trigger] changes[i])@[0]@ == "buy"@ ==> {
                        let place = side_before(changes, "buy"@, i);
                        place < bids.len() && is_level_of(changes[i], bids[place as int])
                    }
                &&& forall|i: int|
                    0 <= i < changes.len() && (#[trigger] changes[i])@[0]@ == "sell"@ ==> {
                        let place = side_before(changes, "sell"@, i);
                        place < asks.len() && is_level_of(changes[i], asks[place as int])
                    }
                &&& forall|i: int| 0 <= i < changes.len() ==> is_readable(#[trigger] changes[i])
            },
            Err(_) => exists|i: int|
                0 <= i < changes.len() && !is_readable(#[trigger] changes[i]),
        },
    decreases changes.len(),
{
    reveal_strlit("buy");
    reveal_strlit("sell");
    assert("buy"@.len() != "sell"@.len());
    let n = changes.len() as int;
    if n == 0 {
        assert(changes =~= Seq::empty());
        lemma_no_changes("buy"@);
        lemma_no_changes("sell"@);
    } else {
        let front = changes.drop_last();
        law_changes_go_to_their_sides(front);
        lemma_side_before(changes, "buy"@);
        lemma_side_before(changes, "sell"@);
        assert(changes[n - 1] == changes.last());
        match changes_of(front) {
            Err(_) => {
                let i = choose|i: int|
                    0 <= i < front.len() && !is_readable(#[trigger] front[i]);
                assert(changes[i] == front[i]);
            },
            Ok((bids, asks)) => match changes_of(changes) {
                Err(_) => {
                    assert(!is_readable(changes[n - 1]));
                },
                Ok((all_bids, all_asks)) => {
                    assert forall|i: int| 0 <= i < n && (
                    #[trigger] changes[i])@[0]@ == "buy"@ implies {
                        let place = side_before(changes, "buy"@, i);
                        place < all_bids.len() && is_level_of(changes[i], all_bids[place as int])
                    } by {
                        if i < n - 1 {
                            assert(front[i] == changes[i]);
                        }
                    }
                    assert forall|i: int| 0 <= i < n && (
                    #[trigger] changes[i])@[0]@ == "sell"@ implies {
                        let place = side_before(changes, "sell"@, i);
                        place < all_asks.len() && is_level_of(changes[i], all_asks[place as int])
                    } by {
                        if i < n - 1 {
                            assert(front[i] == changes[i]);
                        }
                    }
                    assert forall|i: int| 0 <= i < n implies is_readable(
                        #[trigger] changes[i],
                    ) by {
                        if i < n - 1 {
                            assert(front[i] == changes[i]);
                        }
                    }
                },
            },
        }
    }
}

/// An update is a delta of its product: it bears the number after the last one of
/// that product, the time that its stamp names, its changes as levels, and no
/// checksum. It is refused exactly if a change cannot be read, and only then it
/// takes no number.
pub proof fn law_update_is_carried_over(
    counters: Map<Seq<char>, u64>,
    product_id: String,
    time: Option<String>,
    changes: Vec<[String; 3]>,
)
    requires
        last_number(counters, product_id@) < u64::MAX,
    ensures
        ({
            let message = Some(Incoming::L2Update { product_id, time, changes });
            let after = counters_after(counters, message);
            match message_reading(counters, message) {
                Ok(Some(parsed)) => {
                    &&& parsed.symbol == product_id@
                    &&& match parsed.event {
                        EventView::Delta { bids, asks, first, last, event_time_ms, checksum } => {
                            &&& first == last
                            &&& first == last_number(counters, product_id@) + 1
                            &&& is_time_of(event_time_ms, time)
                            &&& checksum is None
                            &&& changes_of(changes@) == Ok::<(Seq<Level>, Seq<Level>), Fault>(
                                (bids, asks),
                            )
                            &&& after == counters.insert(product_id@, first)
                        },
                        EventView::Snapshot { .. } => false,
                    }
                },
                Ok(None) => false,
                Err(_) => {
                    &&& exists|i: int|
                        0 <= i < changes@.len() && !is_readable(#[trigger] changes@[i])
                    &&& after == counters
                },
            }
        }),
{
    law_changes_go_to_their_sides(changes@);
    law_stamp_names_the_event_time(time);
}

/// A snapshot is one of its product, with number zero and a level for each of its
/// pairs, on its side; it is refused exactly if a number cannot be read, and the
/// count starts anew either way.
pub proof fn law_snapshot_is_carried_over(
    counters: Map<Seq<char>, u64>,
    product_id: String,
    bids: Vec<[String; 2]>,
    asks: Vec<[String; 2]>,
)
    ensures
        ({
            let message = Some(Incoming::Snapshot { product_id, bids, asks });
            &&& counters_after(counters, message) == counters.insert(product_id@, 0)
            &&& match message_reading(counters, message) {
                Ok(Some(parsed)) => {
                    &&& parsed.symbol == product_id@
                    &&& match parsed.event {
                        EventView::Snapshot { bids: b, asks: a, sequence } => {
                            &&& levels_read(bids@, b)
                            &&& levels_read(asks@, a)
                            &&& sequence == 0
                        },
                        EventView::Delta { .. } => false,
                    }
                },
                Ok(None) => false,
                Err(_) => !all_readable(bids@) || !all_readable(asks@),
            }
        }),
{
    law_pairs_are_price_and_quantity(bids@);
    law_pairs_are_price_and_quantity(asks@);
}

/// Every other message is passed over and changes nothing.
pub proof fn law_other_messages_are_passed_over(
    counters: Map<Seq<char>, u64>,
    message: Option<Incoming>,
)
    requires
        !(message matches Some(Incoming::Snapshot { .. })),
        !(message matches Some(Incoming::L2Update { .. })),
    ensures
        message_reading(counters, message) == Ok::<Option<ParsedView>, Fault>(None),
        counters_after(counters, message) == counters,
{
}

/// There is room for every message until the counter of its product is full.
pub proof fn law_messages_fit_until_the_counter_is_full(
    feed: Coinbase,
    message: Option<Incoming>,
)
    requires
        symbol_of(message) matches Some(symbol) ==> last_number(feed.counters(), symbol)
            < 0xFFFF_FFFF_FFFF_FFFF,
    ensures
        feed.has_room_for(message),
{
}

/// One frame subscribes to the feed, and it lists every product.
pub proof fn law_subscription_lists_the_products(feed: Coinbase)
    ensures
        feed.subscription_texts().len() == 1,
        shows(
            feed.subscription_texts()[0],
            "\"product_ids\":"@ + json_array(feed.symbol_texts()) + ",\"channels\":"@,
        ),
        feed.depth_limit() is None,
        feed.request_url() is Err,
{
    let list = json_array(feed.symbol_texts());
    let head = "{\"type\":\"subscribe\","@;
    let piece = "\"product_ids\":"@ + list + ",\"channels\":"@;
    let tail = "[\"level2_batch\"]}"@;
    reveal_strlit("{\"type\":\"subscribe\",\"product_ids\":");
    reveal_strlit("{\"type\":\"subscribe\",");
    reveal_strlit("\"product_ids\":");
    reveal_strlit(",\"channels\":[\"level2_batch\"]}");
    reveal_strlit(",\"channels\":");
    reveal_strlit("[\"level2_batch\"]}");
    assert("{\"type\":\"subscribe\",\"product_ids\":"@ =~= head + "\"product_ids\":"@);
    assert(",\"channels\":[\"level2_batch\"]}"@ =~= ",\"channels\":"@ + tail);
    assert(subscribe_text(feed.symbol_texts()) =~= (head + piece) + tail);
}

/// The feed reads a message as it stands, whatever its product, and keeps count of
/// it. It keeps the whole book, and has no checksum to test.
pub proof fn law_feed_reads_every_message(
    before: Coinbase,
    message: Option<Incoming>,
    outcome: Result<Option<ParsedView>, Fault>,
    after: Coinbase,
    symbol: Seq<char>,
    book: OrderBook,
    checksum: u32,
)
    ensures
        Coinbase::reads(&before, message, outcome, &after) ==> {
            &&& outcome == message_reading(before.counters(), message)
            &&& after.counters() == counters_after(before.counters(), message)
            &&& after.products() == before.products()
        },
        before.symbol_texts() == before.products(),
        before.depth_limit() is None,
        before.can_check(symbol, book),
        before.verdict(symbol, book, checksum) is Ok,
        !before.seeded_by_request(),
{
}

} // verus!
