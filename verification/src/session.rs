//! The course of one connection: seed the book, then take frame after frame.
//! The connection itself belongs to the caller, who hands over what arrives and
//! does what is asked for.

use crate::error::{Fault, FeedError};
use crate::feed::{
    apply_event, can_apply_event, event_applied, event_fits, Exchange, Outcome, ParsedView,
};
use crate::metrics::Metrics;
use crate::orderbook::{
    delta_book, gap_before, is_next, is_stale, snapshot_book, with_levels, BookEvent, BookView,
    EventView, Level, OrderBook,
};
use crate::symbols::SymbolTable;
use vstd::prelude::*;
use vstd::string::*;

verus! {

/// What the socket brings.
pub enum Arrival<M> {
    /// A text frame; `None` if it is no message of the feed.
    Text(Option<M>),
    Ping(Vec<u8>),
    Close,
    /// A frame of another kind.
    Other,
    /// The socket failed.
    Failed(String),
    /// The stream is over.
    Ended,
}

/// What to do about an arrival.
pub enum Step {
    /// Nothing.
    Continue,
    /// An event of `symbol` was dealt with; its book may be due for output.
    Event { symbol: String, outcome: Outcome },
    /// Answer with a pong of this payload.
    Pong(Vec<u8>),
    /// The session is over.
    Stop,
    /// A counter is at its limit, so the message was not taken up.
    OutOfRange,
}

/// The first symbol of a feed.
pub open spec fn first_symbol(symbols: Seq<Seq<char>>) -> Result<Seq<char>, Fault> {
    if symbols.len() == 0 {
        Err(Fault::NoSymbol)
    } else {
        Ok(symbols[0])
    }
}

/// The symbol whose book is seeded from a requested snapshot.
pub fn seed_symbol<E: Exchange>(exchange: &E) -> (r: Result<String, FeedError>)
    ensures
        match r {
            Ok(symbol) => first_symbol(exchange.symbol_texts()) == Ok::<Seq<char>, Fault>(symbol@),
            Err(e) => first_symbol(exchange.symbol_texts()) == Err::<Seq<char>, Fault>(e@),
        },
        match r {
            Ok(symbol) => exchange.symbol_texts().len() > 0 && symbol@
                == exchange.symbol_texts()[0],
            Err(e) => exchange.symbol_texts().len() == 0 && e@ is NoSymbol,
        },
{
    let symbols: &Vec<String> = exchange.symbols();
    if symbols.len() == 0 {
        Err(FeedError::NoSymbol)
    } else {
        Ok(symbols[0].as_str().to_owned())
    }
}

/// What the reading of a text frame leads to, in the steady state.
pub open spec fn text_handled<E: Exchange>(
    exchange: E,
    outcome: Result<Option<ParsedView>, Fault>,
    recv_ms: u64,
    books: Map<Seq<char>, OrderBook>,
    metrics: Map<Seq<char>, Metrics>,
    r: Result<Step, FeedError>,
    books_after: Map<Seq<char>, OrderBook>,
    metrics_after: Map<Seq<char>, Metrics>,
) -> bool {
    match outcome {
        Ok(Some(parsed)) => if event_fits(
            exchange.name_text(),
            parsed,
            recv_ms,
            books,
            metrics,
        ) {
            &&& event_applied(
                exchange,
                parsed,
                recv_ms,
                books,
                metrics,
                match r {
                    Ok(step) => Ok(step->outcome),
                    Err(e) => Err(e@),
                },
                books_after,
                metrics_after,
            )
            &&& r matches Ok(step) ==> step is Event && step->symbol@ == parsed.symbol
        } else {
            &&& r matches Ok(step) && step is OutOfRange
            &&& books_after == books
            &&& metrics_after == metrics
        },
        Ok(None) => {
            &&& r matches Ok(step) && step is Continue
            &&& books_after == books
            &&& metrics_after == metrics
        },
        Err(fault) => {
            &&& r matches Err(e) && e@ == fault
            &&& books_after == books
            &&& metrics_after == metrics
        },
    }
}

/// What an arrival that is no text frame leads to, in the steady state.
pub open spec fn control_handled<M>(arrival: Arrival<M>, r: Result<Step, FeedError>) -> bool {
    match arrival {
        Arrival::Text(_) => false,
        Arrival::Ping(payload) => r == Ok::<Step, FeedError>(Step::Pong(payload)),
        Arrival::Close | Arrival::Ended => r == Ok::<Step, FeedError>(Step::Stop),
        Arrival::Other => r == Ok::<Step, FeedError>(Step::Continue),
        Arrival::Failed(reason) => r matches Err(e) && e@ == (Fault::Transport {
            reason: reason@,
        }),
    }
}

/// Deals with an arrival in the steady state: a text frame is read and its event
/// applied, a ping is answered, a close ends the session. `recv_ms` is the time
/// of arrival.
pub fn on_arrival<E: Exchange>(
    exchange: &mut E,
    books: &mut SymbolTable<OrderBook>,
    metrics: &mut SymbolTable<Metrics>,
    arrival: Arrival<E::Message>,
    recv_ms: u64,
) -> (r: Result<Step, FeedError>)
    ensures
        match arrival {
            Arrival::Text(message) => if old(exchange).has_room_for(message) {
                exists|outcome: Result<Option<ParsedView>, Fault>|
                    #[trigger] E::reads(&*old(exchange), message, outcome, &*final(exchange))
                        && text_handled(
                        *final(exchange),
                        outcome,
                        recv_ms,
                        old(books)@,
                        old(metrics)@,
                        r,
                        final(books)@,
                        final(metrics)@,
                    )
            } else {
                &&& r == Ok::<Step, FeedError>(Step::OutOfRange)
                &&& *final(exchange) == *old(exchange)
                &&& final(books)@ == old(books)@
                &&& final(metrics)@ == old(metrics)@
            },
            _ => {
                &&& control_handled(arrival, r)
                &&& *final(exchange) == *old(exchange)
                &&& final(books)@ == old(books)@
                &&& final(metrics)@ == old(metrics)@
            },
        },
{
    match arrival {
        Arrival::Text(message) => {
            if !exchange.can_read(&message) {
                return Ok(Step::OutOfRange);
            }
            match exchange.parse_message(message) {
                Err(e) => Err(e),
                Ok(None) => Ok(Step::Continue),
                Ok(Some(parsed)) => {
                    if !can_apply_event(exchange, &parsed, books, metrics, recv_ms) {
                        return Ok(Step::OutOfRange);
                    }
                    let symbol: String = parsed.symbol.as_str().to_owned();
                    match apply_event(exchange, parsed, books, metrics, recv_ms) {
                        Ok(outcome) => Ok(Step::Event { symbol, outcome }),
                        Err(e) => Err(e),
                    }
                },
            }
        },
        Arrival::Ping(payload) => Ok(Step::Pong(payload)),
        // The server closed the connection.
        Arrival::Close => Ok(Step::Stop),
        Arrival::Other => Ok(Step::Continue),
        Arrival::Failed(reason) => Err(FeedError::Transport { reason }),
        Arrival::Ended => Ok(Step::Stop),
    }
}

/// What a list of events says.
pub open spec fn event_views(events: Seq<BookEvent>) -> Seq<EventView> {
    Seq::new(events.len(), |i: int| events[i]@)
}

/// What the reading of a text frame leads to while the snapshot is on its way:
/// its event is buffered.
pub open spec fn text_buffered(
    outcome: Result<Option<ParsedView>, Fault>,
    buffered: Seq<EventView>,
    r: Result<Step, FeedError>,
    buffered_after: Seq<EventView>,
) -> bool {
    match outcome {
        Ok(Some(parsed)) => {
            &&& r == Ok::<Step, FeedError>(Step::Continue)
            &&& buffered_after == buffered.push(parsed.event)
        },
        Ok(None) => {
            &&& r == Ok::<Step, FeedError>(Step::Continue)
            &&& buffered_after == buffered
        },
        Err(fault) => {
            &&& r matches Err(e) && e@ == fault
            &&& buffered_after == buffered
        },
    }
}

/// What an arrival that is no text frame leads to while the snapshot is on its
/// way. The end of the stream is an error then.
pub open spec fn control_buffered<M>(arrival: Arrival<M>, r: Result<Step, FeedError>) -> bool {
    match arrival {
        Arrival::Text(_) => false,
        Arrival::Ping(payload) => r == Ok::<Step, FeedError>(Step::Pong(payload)),
        Arrival::Close | Arrival::Other => r == Ok::<Step, FeedError>(Step::Continue),
        Arrival::Failed(reason) => r matches Err(e) && e@ == (Fault::Transport {
            reason: reason@,
        }),
        Arrival::Ended => r matches Err(e) && e@ == Fault::ClosedBeforeSnapshot,
    }
}

/// Deals with an arrival while the snapshot is on its way: events are buffered.
pub fn buffer_arrival<E: Exchange>(
    exchange: &mut E,
    buffered: &mut Vec<BookEvent>,
    arrival: Arrival<E::Message>,
) -> (r: Result<Step, FeedError>)
    ensures
        match arrival {
            Arrival::Text(message) => if old(exchange).has_room_for(message) {
                exists|outcome: Result<Option<ParsedView>, Fault>|
                    #[trigger] E::reads(&*old(exchange), message, outcome, &*final(exchange))
                        && text_buffered(
                        outcome,
                        event_views(old(buffered)@),
                        r,
                        event_views(final(buffered)@),
                    )
            } else {
                &&& r == Ok::<Step, FeedError>(Step::OutOfRange)
                &&& *final(exchange) == *old(exchange)
                &&& final(buffered)@ == old(buffered)@
            },
            _ => {
                &&& control_buffered(arrival, r)
                &&& *final(exchange) == *old(exchange)
                &&& final(buffered)@ == old(buffered)@
            },
        },
{
    match arrival {
        Arrival::Text(message) => {
            if !exchange.can_read(&message) {
                return Ok(Step::OutOfRange);
            }
            match exchange.parse_message(message) {
                Err(e) => Err(e),
                Ok(None) => Ok(Step::Continue),
                Ok(Some(parsed)) => {
                    buffered.push(parsed.event);
                    assert(event_views(buffered@) =~= event_views(old(buffered)@).push(
                        parsed.event@,
                    ));
                    Ok(Step::Continue)
                },
            }
        },
        Arrival::Ping(payload) => Ok(Step::Pong(payload)),
        Arrival::Close => Ok(Step::Continue),
        Arrival::Other => Ok(Step::Continue),
        Arrival::Failed(reason) => Err(FeedError::Transport { reason }),
        Arrival::Ended => Err(FeedError::ClosedBeforeSnapshot),
    }
}

/// The book after the buffered events: stale deltas are dropped, a gap is an
/// error, and what is no delta is passed over.
pub open spec fn replayed(book: BookView, events: Seq<EventView>) -> Result<BookView, Fault>
    decreases events.len(),
{
    if events.len() == 0 {
        Ok(book)
    } else {
        match replayed(book, events.drop_last()) {
            Err(fault) => Err(fault),
            Ok(book) => match events.last() {
                EventView::Snapshot { bids, asks, sequence } => Ok(book),
                EventView::Delta { bids, asks, first, last, event_time_ms, checksum } => {
                    match gap_before(book, first, last) {
                        Some(gap) => Err(Fault::ReplayGap { gap }),
                        None => Ok(delta_book(book, bids, asks, first, last)),
                    }
                },
            },
        }
    }
}

/// The book that a requested snapshot and the buffered events seed.
pub open spec fn seeded(snapshot: EventView, buffered: Seq<EventView>) -> Result<BookView, Fault> {
    match snapshot {
        EventView::Snapshot { bids, asks, sequence } => replayed(
            snapshot_book(bids, asks, sequence),
            buffered,
        ),
        EventView::Delta { bids, asks, first, last, event_time_ms, checksum } => Err(
            Fault::ExpectedSnapshot,
        ),
    }
}

/// A gap cannot be mended by what follows it.
proof fn lemma_replayed_prefix(book: BookView, events: Seq<EventView>, n: int)
    requires
        0 <= n <= events.len(),
        replayed(book, events.take(n)) is Err,
    ensures
        replayed(book, events) == replayed(book, events.take(n)),
    decreases events.len() - n,
{
    if n == events.len() {
        assert(events.take(n) =~= events);
    } else {
        assert(events.take(n + 1).drop_last() =~= events.take(n));
        lemma_replayed_prefix(book, events, n + 1);
    }
}

/// Apply the requested snapshot, then replay the buffered deltas. Returns the
/// seeded book.
pub fn replay(snapshot: BookEvent, buffered: Vec<BookEvent>) -> (r: Result<OrderBook, FeedError>)
    ensures
        match r {
            Ok(book) => {
                &&& book.well_formed()
                &&& seeded(snapshot@, event_views(buffered@)) == Ok::<BookView, Fault>(book@)
            },
            Err(e) => seeded(snapshot@, event_views(buffered@)) == Err::<BookView, Fault>(e@),
        },
{
    let (bids, asks, sequence) = match snapshot {
        BookEvent::Snapshot { bids, asks, sequence } => (bids, asks, sequence),
        BookEvent::Delta { .. } => return Err(FeedError::ExpectedSnapshot),
    };
    let mut book: OrderBook = OrderBook::new();
    book.apply_snapshot(bids.as_slice(), asks.as_slice(), sequence);
    let ghost start = book@;
    let ghost events = event_views(buffered@);
    let mut i: usize = 0;
    assert(events.take(0) =~= Seq::empty());
    while i < buffered.len()
        invariant
            i <= buffered@.len(),
            events == event_views(buffered@),
            book.well_formed(),
            seeded(snapshot@, events) == replayed(start, events),
            replayed(start, events.take(i as int)) == Ok::<BookView, Fault>(book@),
        decreases buffered@.len() - i,
    {
        proof {
            assert(events.take(i + 1).drop_last() =~= events.take(i as int));
            assert(events.take(i + 1).last() == events[i as int]);
        }
        match &buffered[i] {
            BookEvent::Delta { bids, asks, first, last, .. } => {
                // Stale deltas (u <= lastUpdateId) are dropped inside apply_delta.
                match book.apply_delta(bids.as_slice(), asks.as_slice(), *first, *last) {
                    Ok(_) => {},
                    Err(gap) => {
                        proof {
                            lemma_replayed_prefix(start, events, i + 1);
                        }
                        return Err(FeedError::ReplayGap { gap });
                    },
                }
            },
            BookEvent::Snapshot { .. } => {},
        }
        i = i + 1;
    }
    assert(events.take(i as int) =~= events);
    Ok(book)
}

/// Every event is a delta that the book already reflects.
pub open spec fn all_stale(book: BookView, events: Seq<EventView>) -> bool {
    forall|i: int|
        0 <= i < events.len() ==> (#[trigger] events[i] matches EventView::Delta { last, .. }
            && is_stale(book, last))
}

/// Buffered deltas that are fully older than the snapshot are dropped.
pub proof fn law_older_deltas_are_dropped(book: BookView, events: Seq<EventView>)
    requires
        all_stale(book, events),
    ensures
        replayed(book, events) == Ok::<BookView, Fault>(book),
    decreases events.len(),
{
    if events.len() > 0 {
        let front = events.drop_last();
        assert forall|i: int| 0 <= i < front.len() implies (
        #[trigger] front[i] matches EventView::Delta { last, .. } && is_stale(book, last)) by {
            assert(front[i] == events[i]);
        }
        law_older_deltas_are_dropped(book, front);
        assert(events[events.len() - 1] == events.last());
    }
}

/// After the deltas that are fully older than the snapshot, a delta whose range
/// spans the id behind the snapshot's is applied.
pub proof fn law_straddling_delta_starts_the_replay(
    book: BookView,
    older: Seq<EventView>,
    delta: EventView,
)
    requires
        all_stale(book, older),
        delta matches EventView::Delta { first, last, .. } && is_next(book, first, last),
    ensures
        replayed(book, older.push(delta)) == Ok::<BookView, Fault>(
            crate::orderbook::event_book(book, delta),
        ),
{
    law_older_deltas_are_dropped(book, older);
    assert(older.push(delta).drop_last() =~= older);
}

/// A hole in the buffered deltas fails the replay, whatever follows it.
pub proof fn law_hole_in_the_buffer_is_an_error(
    book: BookView,
    events: Seq<EventView>,
    n: int,
    reached: BookView,
)
    requires
        0 <= n < events.len(),
        replayed(book, events.take(n)) == Ok::<BookView, Fault>(reached),
        events[n] matches EventView::Delta { first, last, .. } && gap_before(
            reached,
            first,
            last,
        ) is Some,
    ensures
        replayed(book, events) matches Err(Fault::ReplayGap { gap })
            && crate::orderbook::gap_before_event(reached, events[n]) == Some(gap),
{
    assert(events.take(n + 1).drop_last() =~= events.take(n));
    assert(events.take(n + 1).last() == events[n]);
    lemma_replayed_prefix(book, events, n + 1);
}

/// Replaying in two goes is replaying at once.
pub proof fn law_replay_continues(book: BookView, a: Seq<EventView>, b: Seq<EventView>)
    requires
        replayed(book, a) is Ok,
    ensures
        replayed(book, a + b) == replayed(replayed(book, a)->Ok_0, b),
    decreases b.len(),
{
    if b.len() == 0 {
        assert(a + b =~= a);
    } else {
        assert((a + b).drop_last() =~= a + b.drop_last());
        assert((a + b).last() == b.last());
        law_replay_continues(book, a, b.drop_last());
    }
}

/// A replay never leaves a book behind the snapshot.
pub proof fn law_replay_never_goes_back(book: BookView, events: Seq<EventView>)
    requires
        book.initialized,
    ensures
        replayed(book, events) matches Ok(after) ==> after.initialized && book.last_update_id
            <= after.last_update_id,
    decreases events.len(),
{
    if events.len() > 0 {
        law_replay_never_goes_back(book, events.drop_last());
    }
}

/// A book that is being seeded takes the buffered events one by one, in their
/// order. With the id that it has reached: an older delta is dropped, one that
/// spans the id behind it is applied and moves it on, one that starts beyond is
/// an error, and a snapshot among them is passed over.
pub proof fn law_buffer_is_replayed_in_order(
    book: BookView,
    events: Seq<EventView>,
    event: EventView,
)
    requires
        book.initialized,
    ensures
        replayed(book, Seq::empty()) == Ok::<BookView, Fault>(book),
        match replayed(book, events) {
            Err(fault) => replayed(book, events.push(event)) == Err::<BookView, Fault>(fault),
            Ok(reached) => match (event, replayed(book, events.push(event))) {
                (EventView::Snapshot { .. }, Ok(next)) => next == reached,
                (EventView::Delta { bids, asks, first, last, .. }, Ok(next)) => {
                    &&& last <= reached.last_update_id || first <= reached.last_update_id + 1
                    &&& last <= reached.last_update_id ==> next == reached
                    &&& last > reached.last_update_id ==> {
                        &&& next.last_update_id == last
                        &&& next.initialized
                        &&& next.bids == with_levels(reached.bids, bids)
                        &&& next.asks == with_levels(reached.asks, asks)
                    }
                },
                (EventView::Delta { first, last, .. }, Err(fault)) => {
                    &&& last > reached.last_update_id && first > reached.last_update_id + 1
                    &&& fault matches Fault::ReplayGap { gap } && gap.expected
                        == reached.last_update_id + 1 && gap.got == first
                },
                (EventView::Snapshot { .. }, Err(_)) => false,
            },
        },
{
    assert(events.push(event).drop_last() =~= events);
    law_replay_never_goes_back(book, events);
}

/// A seed is the requested snapshot with the buffered events replayed; a delta in
/// its place is refused.
pub proof fn law_seed_is_the_snapshot(
    bids: Seq<Level>,
    asks: Seq<Level>,
    sequence: u64,
    snapshot: EventView,
    buffered: Seq<EventView>,
)
    ensures
        snapshot == (EventView::Snapshot { bids, asks, sequence }) ==> {
            &&& seeded(snapshot, Seq::empty()) matches Ok(book) && book.bids == with_levels(
                Map::empty(),
                bids,
            ) && book.asks == with_levels(Map::empty(), asks) && book.last_update_id == sequence
                && book.initialized && seeded(snapshot, buffered) == replayed(book, buffered)
        },
        snapshot is Delta ==> (seeded(snapshot, buffered) matches Err(fault) && fault
            is ExpectedSnapshot),
{
}

/// In the steady state a ping is answered with its own payload, a close frame or
/// the end of the stream ends the session in order, a failure ends it with its
/// reason, and other frames are passed over.
pub proof fn law_control_frames_in_the_steady_state<M>(
    arrival: Arrival<M>,
    r: Result<Step, FeedError>,
)
    requires
        control_handled(arrival, r),
    ensures
        match (arrival, r) {
            (Arrival::Ping(payload), Ok(Step::Pong(answer))) => answer == payload,
            (Arrival::Close, Ok(Step::Stop)) => true,
            (Arrival::Ended, Ok(Step::Stop)) => true,
            (Arrival::Other, Ok(Step::Continue)) => true,
            (Arrival::Failed(reason), Err(FeedError::Transport { reason: given })) => given@
                == reason@,
            _ => false,
        },
{
}

/// While the snapshot is on its way a ping is answered with its own payload, the end
/// of the stream and a failure end the session with an error, and other frames,
/// a close frame among them, are passed over.
pub proof fn law_control_frames_before_the_snapshot<M>(
    arrival: Arrival<M>,
    r: Result<Step, FeedError>,
)
    requires
        control_buffered(arrival, r),
    ensures
        match (arrival, r) {
            (Arrival::Ping(payload), Ok(Step::Pong(answer))) => answer == payload,
            (Arrival::Close, Ok(Step::Continue)) => true,
            (Arrival::Other, Ok(Step::Continue)) => true,
            (Arrival::Ended, Err(FeedError::ClosedBeforeSnapshot)) => true,
            (Arrival::Failed(reason), Err(FeedError::Transport { reason: given })) => given@
                == reason@,
            _ => false,
        },
{
}

/// While the snapshot is on its way every event is kept, behind those that came
/// before it; a message that cannot be read ends the session.
pub proof fn law_events_are_kept_in_order(
    outcome: Result<Option<ParsedView>, Fault>,
    buffered: Seq<EventView>,
    r: Result<Step, FeedError>,
    buffered_after: Seq<EventView>,
)
    requires
        text_buffered(outcome, buffered, r, buffered_after),
    ensures
        match outcome {
            Ok(Some(parsed)) => {
                &&& r is Ok
                &&& buffered_after.len() == buffered.len() + 1
                &&& buffered_after.last() == parsed.event
                &&& buffered_after.drop_last() == buffered
            },
            Ok(None) => r is Ok && buffered_after == buffered,
            Err(fault) => r matches Err(e) && e@ == fault,
        },
{
    if let Ok(Some(parsed)) = outcome {
        assert(buffered_after.drop_last() =~= buffered);
    }
}

/// In the steady state every event that can be counted is applied and reported
/// with its symbol; a message that cannot be read ends the session, and one
/// without an event is passed over, and neither changes anything.
pub proof fn law_messages_in_the_steady_state<E: Exchange>(
    exchange: E,
    outcome: Result<Option<ParsedView>, Fault>,
    recv_ms: u64,
    books: Map<Seq<char>, OrderBook>,
    metrics: Map<Seq<char>, Metrics>,
    r: Result<Step, FeedError>,
    books_after: Map<Seq<char>, OrderBook>,
    metrics_after: Map<Seq<char>, Metrics>,
)
    requires
        text_handled(
            exchange,
            outcome,
            recv_ms,
            books,
            metrics,
            r,
            books_after,
            metrics_after,
        ),
    ensures
        match outcome {
            Ok(Some(parsed)) => match r {
                Ok(Step::Event { symbol, outcome: became }) => {
                    &&& symbol@ == parsed.symbol
                    &&& event_applied(
                        exchange,
                        parsed,
                        recv_ms,
                        books,
                        metrics,
                        Ok(became),
                        books_after,
                        metrics_after,
                    )
                },
                Ok(Step::OutOfRange) => {
                    &&& !event_fits(exchange.name_text(), parsed, recv_ms, books, metrics)
                    &&& books_after == books
                    &&& metrics_after == metrics
                },
                Ok(_) => false,
                Err(e) => event_applied(
                    exchange,
                    parsed,
                    recv_ms,
                    books,
                    metrics,
                    Err(e@),
                    books_after,
                    metrics_after,
                ),
            },
            Ok(None) => r matches Ok(Step::Continue) && books_after == books && metrics_after
                == metrics,
            Err(fault) => r matches Err(e) && e@ == fault && books_after == books && metrics_after
                == metrics,
        },
{
}

/// The buffered events are all of them, in their order.
pub proof fn law_buffer_holds_all_events(events: Seq<BookEvent>)
    ensures
        event_views(events).len() == events.len(),
        forall|i: int|
            0 <= i < events.len() ==> #[trigger] event_views(events)[i] == events[i]@,
{
}

/// A replay gives a well-formed book that has moved on from the requested snapshot,
/// or the reason why there is none: another event than a snapshot, or a hole.
pub proof fn law_replay_starts_from_the_snapshot(
    bids: Vec<Level>,
    asks: Vec<Level>,
    sequence: u64,
    buffered: Vec<BookEvent>,
    r: Result<OrderBook, FeedError>,
)
    requires
        call_ensures(replay, (BookEvent::Snapshot { bids, asks, sequence }, buffered), r),
    ensures
        match r {
            Ok(book) => {
                &&& book.well_formed()
                &&& book@.initialized
                &&& book@.last_update_id >= sequence
                &&& buffered@.len() == 0 ==> book@.last_update_id == sequence && book@.bids
                    == with_levels(Map::empty(), bids@) && book@.asks == with_levels(
                    Map::empty(),
                    asks@,
                )
            },
            Err(e) => buffered@.len() > 0 && e@ is ReplayGap,
        },
{
    let start = snapshot_book(bids@, asks@, sequence);
    let events = event_views(buffered@);
    law_replay_never_goes_back(start, events);
    lemma_only_gaps_fail(start, events);
}

proof fn lemma_only_gaps_fail(book: BookView, events: Seq<EventView>)
    ensures
        replayed(book, events) matches Err(fault) ==> fault is ReplayGap && events.len() > 0,
    decreases events.len(),
{
    if events.len() > 0 {
        lemma_only_gaps_fail(book, events.drop_last());
    }
}

} // verus!
