//! Kraken Exchange v2 `book` adapter with CRC32 checksum validation.
//!
//! Endpoint: wss://ws.kraken.com/v2  (public, no auth)
//! Flow:     subscribe to `instrument` (for each symbol's price/qty precision)
//!           and `book` `depth=10` -> one `snapshot`, then `update` messages.
//!
//! Kraken's book carries no sequence number; its per-message CRC32 `checksum`
//! (over the top-10 of each side) is the integrity mechanism. A synthetic counter
//! per symbol keeps updates contiguous for the shared book, and after each update
//! the checksum is recomputed and compared: a mismatch is an error, so that the
//! driver resyncs. Kraken sends updates that can add levels beyond the subscribed
//! depth and does not send removals for levels leaving it, so the driver
//! truncates to `depth` after applying (see
//! [`crate::orderbook::OrderBook::retain_top`]).
//!
//! The checksum text: top-10 asks (low to high), then top-10 bids (high to low);
//! each level contributes the price and then the quantity, formatted to the
//! symbol's precision with the decimal point removed and leading zeros stripped.

use super::{
    advance, agree_on, all_spelled, blames, book_with, concerns, in_step, is_read_as, is_time_of,
    last_number, law_levels_are_read_one_for_one, law_stamp_names_the_event_time,
    lemma_levels_of_prefix, levels_exact, levels_of, next_sequence, normalize, normalized,
    pair_spelled, read_as_spelled, read_level, read_stamp, stamp_of, uppercase_text,
};
use crate::checksum::{crc32, crc32_of};
use crate::decimal::{
    all_digits, digits_value, fixed_fits, fixed_text, law_truncation_rounds_toward_zero,
    lemma_pow10_positive, parsed_decimal, pow10, truncated, Decimal,
};
use crate::error::{Fault, FeedError, Field};
use crate::feed::{event_applied, reading, Exchange, Outcome, ParsedEvent, ParsedView};
use crate::json::{json_array, strings_to_json};
use crate::metrics::Metrics;
use crate::orderbook::{
    empty_book, event_book, first_n, gap_before_event, is_next, last_n, smaller, BookEvent,
    BookView, EventView, Level, OrderBook,
};
use crate::symbols::SymbolTable;
use crate::text::{
    chars_of, digit_char, is_numeral, law_notation_is_the_numeral, lemma_padded_value, nat_text,
    padded_text, same_text, shows, texts,
};
use vstd::prelude::*;
use vstd::string::*;
use vstd::utf8::encode_utf8;

verus! {

/// The Kraken feed of one or more pairs.
pub struct Kraken {
    /// Pair ids, e.g. "BTC/USD".
    symbols: Vec<String>,
    /// The synthetic sequence number of each symbol, 0 at its snapshot.
    seq: SymbolTable<u64>,
    /// The `(price_precision, qty_precision)` of each symbol, learned from the
    /// `instrument` channel; the checksum text is formatted to it.
    precision: SymbolTable<(u32, u32)>,
}

/// A frame of the feed: the fields that it is routed by, and what it holds for
/// the channels that are followed.
#[derive(Debug)]
pub struct Frame {
    pub channel: Option<String>,
    pub kind: Option<String>,
    /// The pairs, where the frame reads as an `instrument` message.
    pub pairs: Option<Vec<PairInfo>>,
    /// The books, or why the frame does not read as a `book` message.
    pub books: Result<Vec<BookData>, String>,
}

/// A book in a `book` message.
#[derive(Debug)]
pub struct BookData {
    pub symbol: String,
    pub bids: Vec<KLevel>,
    pub asks: Vec<KLevel>,
    pub checksum: u32,
    /// Exchange event time (RFC3339); present on `book` updates.
    pub timestamp: Option<String>,
}

/// A level in a `book` message. Price and quantity arrive as JSON numbers; each
/// is held as the text of its number, which is read as an exact decimal.
#[derive(Debug)]
pub struct KLevel {
    pub price: String,
    pub qty: String,
}

/// The precision of a pair, in an `instrument` message.
#[derive(Debug)]
pub struct PairInfo {
    pub symbol: String,
    pub price_precision: u32,
    pub qty_precision: u32,
}

/// The price and quantity texts of levels.
pub open spec fn level_texts(raw: Seq<KLevel>) -> Seq<(Seq<char>, Seq<char>)> {
    Seq::new(raw.len(), |i: int| (raw[i].price@, raw[i].qty@))
}

/// Reads the levels of a `book` message.
pub fn to_levels(raw: &Vec<KLevel>) -> (r: Result<Vec<Level>, FeedError>)
    ensures
        match r {
            Ok(levels) => {
                &&& levels_of(level_texts(raw@), false) == Ok::<Seq<Level>, Fault>(levels@)
                &&& levels_exact(level_texts(raw@), levels@)
            },
            Err(e) => {
                &&& levels_of(level_texts(raw@), false) == Err::<Seq<Level>, Fault>(e@)
                &&& !all_spelled(level_texts(raw@))
            },
        },
{
    let ghost pairs = level_texts(raw@);
    let mut levels: Vec<Level> = Vec::new();
    let mut i: usize = 0;
    assert(pairs.take(0) =~= Seq::empty());
    while i < raw.len()
        invariant
            i <= raw@.len(),
            pairs == level_texts(raw@),
            levels_of(pairs.take(i as int), false) == Ok::<Seq<Level>, Fault>(levels@),
            levels_exact(pairs.take(i as int), levels@),
        decreases raw@.len() - i,
    {
        proof {
            assert(pairs.take(i + 1).drop_last() =~= pairs.take(i as int));
            assert(pairs.take(i + 1).last() == pairs[i as int]);
        }
        match read_level(raw[i].price.as_str(), raw[i].qty.as_str(), Field::Qty, false) {
            Ok(level) => levels.push(level),
            Err(e) => {
                proof {
                    lemma_levels_of_prefix(pairs, false, i + 1);
                    assert(!pair_spelled(pairs[i as int]));
                }
                return Err(e);
            },
        }
        i = i + 1;
    }
    assert(pairs.take(i as int) =~= pairs);
    Ok(levels)
}

/// `text` without its points.
pub open spec fn without_points(text: Seq<char>) -> Seq<char>
    decreases text.len(),
{
    if text.len() == 0 {
        seq![]
    } else if text.last() == '.' {
        without_points(text.drop_last())
    } else {
        without_points(text.drop_last()).push(text.last())
    }
}

/// `text` without its leading zeros.
pub open spec fn stripped(text: Seq<char>) -> Seq<char>
    decreases text.len(),
{
    if text.len() > 0 && text[0] == '0' {
        stripped(text.skip(1))
    } else {
        text
    }
}

/// What a number contributes to the checksum text.
pub open spec fn token_text(value: Decimal, precision: u32) -> Seq<char> {
    let digits = stripped(without_points(fixed_text(value, precision as nat)));
    if digits.len() == 0 {
        "0"@
    } else {
        digits
    }
}

/// One number's contribution to the checksum text: formatted to `precision`
/// decimals, decimal point removed, leading zeros stripped.
pub fn kraken_token(value: Decimal, precision: u32) -> (token: String)
    requires
        fixed_fits(value, precision as nat),
    ensures
        token@ == token_text(value, precision),
{
    let formatted: String = value.to_fixed_text(precision);
    let chars: Vec<char> = chars_of(formatted.as_str());
    let mut digits: Vec<char> = Vec::new();
    let mut i: usize = 0;
    assert(chars@.take(0) =~= Seq::empty());
    while i < chars.len()
        invariant
            i <= chars@.len(),
            digits@ == without_points(chars@.take(i as int)),
        decreases chars@.len() - i,
    {
        proof {
            assert(chars@.take(i + 1).drop_last() =~= chars@.take(i as int));
            assert(chars@.take(i + 1).last() == chars@[i as int]);
        }
        if chars[i] != '.' {
            digits.push(chars[i]);
        }
        i = i + 1;
    }
    assert(chars@.take(i as int) =~= chars@);
    let mut start: usize = 0;
    assert(digits@.skip(0) =~= digits@);
    while start < digits.len() && digits[start] == '0'
        invariant
            start <= digits@.len(),
            stripped(digits@.skip(start as int)) == stripped(digits@),
        decreases digits@.len() - start,
    {
        assert(digits@.skip(start as int).skip(1) =~= digits@.skip(start + 1));
        start = start + 1;
    }
    let ghost kept = digits@.skip(start as int);
    if start == digits.len() {
        return "0".to_owned();
    }
    assert(kept[0] == digits@[start as int]);
    let mut token: String = String::new();
    let mut j: usize = start;
    while j < digits.len()
        invariant
            start <= j <= digits@.len(),
            token@ == digits@.subrange(start as int, j as int),
        decreases digits@.len() - j,
    {
        token.push(digits[j]);
        j = j + 1;
        assert(token@ =~= digits@.subrange(start as int, j as int));
    }
    assert(token@ =~= kept);
    token
}

/// What a quote contributes to the checksum text: the price, then the quantity.
pub open spec fn quote_text(quote: (Decimal, Decimal), precision: (u32, u32)) -> Seq<char> {
    token_text(quote.0, precision.0) + token_text(quote.1, precision.1)
}

/// What quotes contribute to the checksum text, in their order.
pub open spec fn quotes_text(quotes: Seq<(Decimal, Decimal)>, precision: (u32, u32)) -> Seq<char>
    decreases quotes.len(),
{
    if quotes.len() == 0 {
        seq![]
    } else {
        quotes_text(quotes.drop_last(), precision) + quote_text(quotes.last(), precision)
    }
}

/// The depth that the checksum is taken over.
pub const CHECKSUM_DEPTH: usize = 10;

/// The ten best asks of a book, lowest price first.
pub open spec fn checked_asks(book: OrderBook) -> Seq<(Decimal, Decimal)> {
    first_n(book.asks(), CHECKSUM_DEPTH as nat)
}

/// The ten best bids of a book, highest price first.
pub open spec fn checked_bids(book: OrderBook) -> Seq<(Decimal, Decimal)> {
    first_n(book.bids().reverse(), CHECKSUM_DEPTH as nat)
}

/// The text that the checksum is taken over: the asks, then the bids.
pub open spec fn checksum_text(book: OrderBook, precision: (u32, u32)) -> Seq<char> {
    quotes_text(checked_asks(book), precision) + quotes_text(checked_bids(book), precision)
}

/// The checksum of a book: the CRC32 of the text in UTF-8.
pub open spec fn book_checksum(book: OrderBook, precision: (u32, u32)) -> u32 {
    crc32_of(encode_utf8(checksum_text(book, precision)))
}

/// Every price and quantity can be formatted to its precision.
pub open spec fn all_fit(quotes: Seq<(Decimal, Decimal)>, precision: (u32, u32)) -> bool {
    forall|i: int|
        0 <= i < quotes.len() ==> fixed_fits((#[trigger] quotes[i]).0, precision.0 as nat)
            && fixed_fits(quotes[i].1, precision.1 as nat)
}

/// Whether every price and quantity can be formatted.
fn check_fit(quotes: &Vec<(Decimal, Decimal)>, precision: (u32, u32)) -> (r: bool)
    ensures
        r == all_fit(quotes@, precision),
{
    let mut i: usize = 0;
    while i < quotes.len()
        invariant
            i <= quotes@.len(),
            forall|k: int|
                0 <= k < i ==> fixed_fits((#[trigger] quotes@[k]).0, precision.0 as nat)
                    && fixed_fits(quotes@[k].1, precision.1 as nat),
        decreases quotes@.len() - i,
    {
        let (price, qty) = quotes[i];
        if !price.fits_fixed_text(precision.0) || !qty.fits_fixed_text(precision.1) {
            return false;
        }
        i = i + 1;
    }
    true
}

/// Appends what quotes contribute to the checksum text.
fn append_quotes(text: &mut String, quotes: &Vec<(Decimal, Decimal)>, precision: (u32, u32))
    requires
        all_fit(quotes@, precision),
    ensures
        final(text)@ == old(text)@ + quotes_text(quotes@, precision),
{
    let ghost before = text@;
    let mut i: usize = 0;
    assert(quotes@.take(0) =~= Seq::empty());
    assert(before + seq![] =~= before);
    while i < quotes.len()
        invariant
            i <= quotes@.len(),
            all_fit(quotes@, precision),
            text@ == before + quotes_text(quotes@.take(i as int), precision),
        decreases quotes@.len() - i,
    {
        proof {
            assert(quotes@.take(i + 1).drop_last() =~= quotes@.take(i as int));
            assert(quotes@.take(i + 1).last() == quotes@[i as int]);
        }
        let (price, qty) = quotes[i];
        text.append(kraken_token(price, precision.0).as_str());
        text.append(kraken_token(qty, precision.1).as_str());
        i = i + 1;
        assert(text@ =~= before + quotes_text(quotes@.take(i as int), precision));
    }
    assert(quotes@.take(i as int) =~= quotes@);
}

/// The event of a book, given the type of its message and the counters of the
/// symbols; or what is wrong with it. The levels are read before the type is
/// looked at, the bids first.
pub open spec fn book_reading(
    counters: Map<Seq<char>, u64>,
    kind: Option<String>,
    data: BookData,
) -> Result<Option<ParsedView>, Fault> {
    match levels_of(level_texts(data.bids@), false) {
        Err(fault) => Err(fault),
        Ok(bids) => match levels_of(level_texts(data.asks@), false) {
            Err(fault) => Err(fault),
            Ok(asks) => if is_kind(kind, "snapshot"@) {
                Ok(
                    Some(
                        ParsedView {
                            symbol: data.symbol@,
                            event: EventView::Snapshot { bids, asks, sequence: 0 },
                        },
                    ),
                )
            } else if is_kind(kind, "update"@) {
                let n = next_sequence(counters, data.symbol@, false) as u64;
                Ok(
                    Some(
                        ParsedView {
                            symbol: data.symbol@,
                            event: EventView::Delta {
                                bids,
                                asks,
                                first: n,
                                last: n,
                                event_time_ms: stamp_of(data.timestamp),
                                checksum: Some(data.checksum),
                            },
                        },
                    ),
                )
            } else {
                Ok(None)
            },
        },
    }
}

/// The field is there and reads `text`.
pub open spec fn is_kind(field: Option<String>, text: Seq<char>) -> bool {
    field matches Some(found) && found@ == text
}

/// Whether the field is there and reads `text`.
fn reads_as(field: &Option<String>, text: &str) -> (r: bool)
    ensures
        r == is_kind(*field, text@),
{
    match field {
        Some(found) => same_text(found.as_str(), text),
        None => false,
    }
}

/// The book that a frame brings: the first one of a `book` message.
pub open spec fn book_of(frame: Option<Frame>) -> Option<BookData> {
    match frame {
        Some(frame) => if is_kind(frame.channel, "book"@) {
            match frame.books {
                Ok(books) if books@.len() > 0 => Some(books@[0]),
                _ => None,
            }
        } else {
            None
        },
        None => None,
    }
}

/// What a frame stands for. A frame of the `book` channel that does not read as
/// a book message is an error; other frames bring no event.
pub open spec fn frame_reading(
    counters: Map<Seq<char>, u64>,
    frame: Option<Frame>,
) -> Result<Option<ParsedView>, Fault> {
    match (frame, book_of(frame)) {
        (Some(frame), Some(data)) => book_reading(counters, frame.kind, data),
        (Some(frame), None) => match frame.books {
            Err(reason) if is_kind(frame.channel, "book"@) => Err(
                Fault::Malformed { reason: reason@ },
            ),
            _ => Ok(None),
        },
        (None, _) => Ok(None),
    }
}

/// The levels of a book can be read.
pub open spec fn is_readable(data: BookData) -> bool {
    &&& levels_of(level_texts(data.bids@), false) is Ok
    &&& levels_of(level_texts(data.asks@), false) is Ok
}

/// The counters after a frame: a snapshot resets the one of its symbol, an
/// update advances it, each if its levels can be read.
pub open spec fn counters_after(counters: Map<Seq<char>, u64>, frame: Option<Frame>) -> Map<
    Seq<char>,
    u64,
> {
    match (frame, book_of(frame)) {
        (Some(frame), Some(data)) => if !is_readable(data) {
            counters
        } else if is_kind(frame.kind, "snapshot"@) {
            counters.insert(data.symbol@, 0)
        } else if is_kind(frame.kind, "update"@) {
            counters.insert(data.symbol@, next_sequence(counters, data.symbol@, false) as u64)
        } else {
            counters
        },
        _ => counters,
    }
}

/// The precisions with those of `pairs` entered, in their order, where the
/// symbol is tracked.
pub open spec fn with_pairs(
    precisions: Map<Seq<char>, (u32, u32)>,
    tracked_symbols: Seq<Seq<char>>,
    pairs: Seq<PairInfo>,
) -> Map<Seq<char>, (u32, u32)>
    decreases pairs.len(),
{
    if pairs.len() == 0 {
        precisions
    } else {
        let rest = with_pairs(precisions, tracked_symbols, pairs.drop_last());
        let pair = pairs.last();
        if tracked_symbols.contains(pair.symbol@) {
            rest.insert(pair.symbol@, (pair.price_precision, pair.qty_precision))
        } else {
            rest
        }
    }
}

/// The precisions after a frame: an `instrument` message that reads as one
/// enters those of its pairs.
pub open spec fn precisions_after(
    precisions: Map<Seq<char>, (u32, u32)>,
    tracked_symbols: Seq<Seq<char>>,
    frame: Option<Frame>,
) -> Map<Seq<char>, (u32, u32)> {
    match frame {
        Some(frame) => match frame.pairs {
            Some(pairs) if is_kind(frame.channel, "instrument"@) => with_pairs(
                precisions,
                tracked_symbols,
                pairs@,
            ),
            _ => precisions,
        },
        None => precisions,
    }
}

/// The frame that subscribes to the `instrument` channel.
pub open spec fn instrument_text() -> Seq<char> {
    "{\"method\":\"subscribe\",\"params\":{\"channel\":\"instrument\"}}"@
}

/// The frame that subscribes to the `book` channel for a list of pairs.
pub open spec fn book_text(symbols: Seq<Seq<char>>) -> Seq<char> {
    "{\"method\":\"subscribe\",\"params\":{\"channel\":\"book\",\"depth\":10,\"symbol\":"@
        + json_array(symbols) + "}}"@
}

impl Kraken {
    /// The pairs.
    pub closed spec fn listed(self) -> Seq<Seq<char>> {
        texts(self.symbols@)
    }

    /// The last sequence number of each symbol.
    pub closed spec fn counters(self) -> Map<Seq<char>, u64> {
        self.seq@
    }

    /// The precision of each symbol, as far as it is known.
    pub closed spec fn precisions(self) -> Map<Seq<char>, (u32, u32)> {
        self.precision@
    }

    /// A feed of `symbols`.
    pub fn new(symbols: &[&str]) -> (feed: Self)
        ensures
            feed.listed() == normalized(symbols@),
            feed.listed().len() == symbols@.len(),
            forall|i: int|
                0 <= i < symbols@.len() ==> #[trigger] feed.listed()[i] == uppercase_text(
                    symbols@[i]@,
                ),
            feed.counters() == Map::<Seq<char>, u64>::empty(),
            feed.precisions() == Map::<Seq<char>, (u32, u32)>::empty(),
    {
        Kraken {
            symbols: normalize(symbols),
            seq: SymbolTable::new(),
            precision: SymbolTable::new(),
        }
    }

    /// Next synthetic sequence for `symbol`; `reset` restarts it at 0 (snapshot).
    fn next_seq(&mut self, symbol: &str, reset: bool) -> (n: u64)
        requires
            next_sequence(old(self).counters(), symbol@, reset) <= u64::MAX,
        ensures
            n == next_sequence(old(self).counters(), symbol@, reset),
            final(self).counters() == old(self).counters().insert(symbol@, n),
            final(self).listed() == old(self).listed(),
            final(self).precisions() == old(self).precisions(),
    {
        advance(&mut self.seq, symbol, reset)
    }

    /// Whether `symbol` is tracked.
    fn tracks(&self, symbol: &str) -> (r: bool)
        ensures
            r == self.listed().contains(symbol@),
    {
        let mut i: usize = 0;
        while i < self.symbols.len()
            invariant
                i <= self.symbols@.len(),
                forall|k: int| 0 <= k < i ==> (#[trigger] self.symbols@[k])@ != symbol@,
            decreases self.symbols@.len() - i,
        {
            if same_text(self.symbols[i].as_str(), symbol) {
                assert(self.listed()[i as int] == symbol@);
                return true;
            }
            i = i + 1;
        }
        assert forall|k: int| 0 <= k < self.listed().len() implies self.listed()[k] != symbol@ by {
            assert(self.symbols@[k]@ == self.listed()[k]);
        }
        false
    }

    /// Enters the precisions of the pairs that are tracked.
    fn learn(&mut self, pairs: &Vec<PairInfo>)
        ensures
            final(self).precisions() == with_pairs(
                old(self).precisions(),
                old(self).listed(),
                pairs@,
            ),
            final(self).listed() == old(self).listed(),
            final(self).counters() == old(self).counters(),
    {
        let mut i: usize = 0;
        assert(pairs@.take(0) =~= Seq::empty());
        while i < pairs.len()
            invariant
                i <= pairs@.len(),
                self.precisions() == with_pairs(
                    old(self).precisions(),
                    old(self).listed(),
                    pairs@.take(i as int),
                ),
                self.listed() == old(self).listed(),
                self.counters() == old(self).counters(),
            decreases pairs@.len() - i,
        {
            proof {
                assert(pairs@.take(i + 1).drop_last() =~= pairs@.take(i as int));
                assert(pairs@.take(i + 1).last() == pairs@[i as int]);
            }
            let pair: &PairInfo = &pairs[i];
            if self.tracks(pair.symbol.as_str()) {
                self.precision.insert(
                    pair.symbol.as_str().to_owned(),
                    (pair.price_precision, pair.qty_precision),
                );
            }
            i = i + 1;
        }
        assert(pairs@.take(i as int) =~= pairs@);
    }

    /// Reads the book of a `book` message.
    fn parse_book(&mut self, kind: &Option<String>, data: BookData) -> (r: Result<
        Option<ParsedEvent>,
        FeedError,
    >)
        requires
            is_readable(data) && is_kind(*kind, "update"@) ==> next_sequence(
                old(self).counters(),
                data.symbol@,
                false,
            ) <= u64::MAX,
        ensures
            reading(r) == book_reading(old(self).counters(), *kind, data),
            read_as_spelled(level_texts(data.bids@), level_texts(data.asks@), reading(r)),
            final(self).listed() == old(self).listed(),
            final(self).precisions() == old(self).precisions(),
            final(self).counters() == if !is_readable(data) {
                old(self).counters()
            } else if is_kind(*kind, "snapshot"@) {
                old(self).counters().insert(data.symbol@, 0)
            } else if is_kind(*kind, "update"@) {
                old(self).counters().insert(
                    data.symbol@,
                    next_sequence(old(self).counters(), data.symbol@, false) as u64,
                )
            } else {
                old(self).counters()
            },
    {
        let bids: Vec<Level> = match to_levels(&data.bids) {
            Ok(levels) => levels,
            Err(e) => return Err(e),
        };
        let asks: Vec<Level> = match to_levels(&data.asks) {
            Ok(levels) => levels,
            Err(e) => return Err(e),
        };
        if reads_as(kind, "snapshot") {
            let _ = self.next_seq(data.symbol.as_str(), true);
            Ok(
                Some(
                    ParsedEvent {
                        symbol: data.symbol,
                        event: BookEvent::Snapshot { bids, asks, sequence: 0 },
                    },
                ),
            )
        } else if reads_as(kind, "update") {
            let n: u64 = self.next_seq(data.symbol.as_str(), false);
            let event_time_ms: Option<u64> = read_stamp(&data.timestamp);
            Ok(
                Some(
                    ParsedEvent {
                        symbol: data.symbol,
                        event: BookEvent::Delta {
                            bids,
                            asks,
                            first: n,
                            last: n,
                            event_time_ms,
                            checksum: Some(data.checksum),
                        },
                    },
                ),
            )
        } else {
            Ok(None)
        }
    }
}

impl Exchange for Kraken {
    type Message = Frame;

    open spec fn name_text(&self) -> Seq<char> {
        "kraken"@
    }

    open spec fn symbol_texts(&self) -> Seq<Seq<char>> {
        self.listed()
    }

    open spec fn url_text(&self) -> Seq<char> {
        "wss://ws.kraken.com/v2"@
    }

    open spec fn subscription_texts(&self) -> Seq<Seq<char>> {
        seq![instrument_text(), book_text(self.listed())]
    }

    open spec fn seeded_by_request(&self) -> bool {
        false
    }

    open spec fn request_url(&self) -> Result<Seq<char>, Fault> {
        Err(Fault::NoRestSnapshot { reason: "kraken snapshot arrives over the websocket"@ })
    }

    open spec fn depth_limit(&self) -> Option<usize> {
        Some(CHECKSUM_DEPTH)
    }

    open spec fn has_room_for(&self, message: Option<Frame>) -> bool {
        match (message, book_of(message)) {
            (Some(frame), Some(data)) => is_readable(data) && is_kind(frame.kind, "update"@)
                ==> next_sequence(self.counters(), data.symbol@, false) <= u64::MAX,
            _ => true,
        }
    }

    open spec fn reads(
        before: &Self,
        message: Option<Frame>,
        outcome: Result<Option<ParsedView>, Fault>,
        after: &Self,
    ) -> bool {
        &&& outcome == frame_reading(before.counters(), message)
        &&& after.counters() == counters_after(before.counters(), message)
        &&& after.precisions() == precisions_after(before.precisions(), before.listed(), message)
        &&& after.listed() == before.listed()
    }

    open spec fn can_check(&self, symbol: Seq<char>, book: OrderBook) -> bool {
        self.precisions().contains_key(symbol) ==> {
            &&& all_fit(checked_asks(book), self.precisions()[symbol])
            &&& all_fit(checked_bids(book), self.precisions()[symbol])
        }
    }

    open spec fn verdict(&self, symbol: Seq<char>, book: OrderBook, checksum: u32) -> Result<
        (),
        Fault,
    > {
        if !self.precisions().contains_key(symbol) {
            Ok(())
        } else {
            let computed = book_checksum(book, self.precisions()[symbol]);
            if computed == checksum {
                Ok(())
            } else {
                Err(Fault::ChecksumMismatch { computed, expected: checksum })
            }
        }
    }

    fn name(&self) -> (name: &str) {
        "kraken"
    }

    fn symbols(&self) -> (symbols: &Vec<String>) {
        &self.symbols
    }

    fn ws_url(&self) -> (url: String) {
        "wss://ws.kraken.com/v2".to_owned()
    }

    fn subscribe_messages(&self) -> (frames: Vec<String>) {
        let instrument: String =
            "{\"method\":\"subscribe\",\"params\":{\"channel\":\"instrument\"}}".to_owned();
        let mut book: String =
            "{\"method\":\"subscribe\",\"params\":{\"channel\":\"book\",\"depth\":10,\"symbol\":".to_owned();
        book.append(strings_to_json(self.symbols.as_slice()).as_str());
        book.append("}}");
        let mut frames: Vec<String> = Vec::new();
        frames.push(instrument);
        frames.push(book);
        frames
    }

    fn needs_rest_snapshot(&self) -> (needed: bool) {
        false
    }

    fn snapshot_url(&self) -> (url: Result<String, FeedError>) {
        Err(
            FeedError::NoRestSnapshot {
                reason: "kraken snapshot arrives over the websocket".to_owned(),
            },
        )
    }

    fn can_read(&self, message: &Option<Frame>) -> (r: bool) {
        let frame: &Frame = match message {
            Some(frame) => frame,
            None => return true,
        };
        if !reads_as(&frame.channel, "book") {
            return true;
        }
        let books: &Vec<BookData> = match &frame.books {
            Ok(books) => books,
            Err(_) => return true,
        };
        if books.len() == 0 || !reads_as(&frame.kind, "update") {
            return true;
        }
        let data: &BookData = &books[0];
        match self.seq.get(data.symbol.as_str()) {
            Some(last) => *last < u64::MAX || to_levels(&data.bids).is_err() || to_levels(
                &data.asks,
            ).is_err(),
            None => true,
        }
    }

    fn parse_message(&mut self, message: Option<Frame>) -> (r: Result<
        Option<ParsedEvent>,
        FeedError,
    >)
        ensures
            book_of(message) matches Some(data) ==> read_as_spelled(
                level_texts(data.bids@),
                level_texts(data.asks@),
                reading(r),
            ),
    {
        let frame: Frame = match message {
            Some(frame) => frame,
            None => return Ok(None),
        };
        proof {
            reveal_strlit("instrument");
            reveal_strlit("book");
            assert("instrument"@.len() != "book"@.len());
        }
        if reads_as(&frame.channel, "instrument") {
            match &frame.pairs {
                Some(pairs) => self.learn(pairs),
                None => {},
            }
            Ok(None)
        } else if reads_as(&frame.channel, "book") {
            let mut books: Vec<BookData> = match frame.books {
                Ok(books) => books,
                Err(reason) => return Err(FeedError::Malformed { reason }),
            };
            if books.len() == 0 {
                return Ok(None);
            }
            let data: BookData = books.swap_remove(0);
            self.parse_book(&frame.kind, data)
        } else {
            Ok(None)
        }
    }

    fn book_depth_limit(&self) -> (limit: Option<usize>) {
        Some(CHECKSUM_DEPTH)
    }

    fn can_verify(&self, symbol: &str, book: &OrderBook) -> (r: bool) {
        match self.precision.get(symbol) {
            Some(precision) => check_fit(&book.top_asks(CHECKSUM_DEPTH), *precision) && check_fit(
                &book.top_bids(CHECKSUM_DEPTH),
                *precision,
            ),
            None => true,
        }
    }

    fn verify_checksum(&self, symbol: &str, book: &OrderBook, checksum: u32) -> (r: Result<
        (),
        FeedError,
    >) {
        let precision: (u32, u32) = match self.precision.get(symbol) {
            Some(precision) => *precision,
            // The instrument message was not seen yet: the checksum cannot be
            // verified, so do not force a spurious resync.
            None => return Ok(()),
        };
        let mut text: String = String::new();
        append_quotes(&mut text, &book.top_asks(CHECKSUM_DEPTH), precision);
        append_quotes(&mut text, &book.top_bids(CHECKSUM_DEPTH), precision);
        assert(text@ =~= checksum_text(*book, precision));
        let computed: u32 = crc32(text.as_str().as_bytes());
        if computed == checksum {
            Ok(())
        } else {
            Err(FeedError::ChecksumMismatch { computed, expected: checksum })
        }
    }
}

/// The symbol that a frame belongs to.
pub open spec fn symbol_of(frame: Option<Frame>) -> Option<Seq<char>> {
    match book_of(frame) {
        Some(data) => Some(data.symbol@),
        None => None,
    }
}

/// Symbols are counted independently: a frame leaves the counters of all
/// other symbols alone.
pub proof fn law_other_symbols_keep_their_counters(
    counters: Map<Seq<char>, u64>,
    frame: Option<Frame>,
    symbol: Seq<char>,
)
    requires
        symbol_of(frame) != Some(symbol),
    ensures
        agree_on(counters_after(counters, frame), counters, symbol),
{
}

/// What a frame stands for depends on the counter of its own symbol only.
pub proof fn law_reading_depends_on_own_counter(
    a: Map<Seq<char>, u64>,
    b: Map<Seq<char>, u64>,
    frame: Option<Frame>,
)
    requires
        symbol_of(frame) matches Some(symbol) ==> agree_on(a, b, symbol),
    ensures
        frame_reading(a, frame) == frame_reading(b, frame),
{
}

/// The synthetic sequence is contiguous: an update never gaps, is never stale,
/// and leaves its book in step with the counter; a snapshot brings its book in
/// step with the counter.
pub proof fn law_updates_stay_in_step(
    counters: Map<Seq<char>, u64>,
    frame: Option<Frame>,
    parsed: ParsedView,
    book: BookView,
)
    requires
        frame_reading(counters, frame) == Ok::<Option<ParsedView>, Fault>(Some(parsed)),
        parsed.event is Delta ==> in_step(counters, parsed.symbol, book) && book.last_update_id
            < u64::MAX,
    ensures
        gap_before_event(book, parsed.event) is None,
        parsed.event matches EventView::Delta { first, last, .. } ==> is_next(book, first, last),
        in_step(
            counters_after(counters, frame),
            parsed.symbol,
            event_book(book, parsed.event),
        ),
{
}

/// The counters after a run of frames.
pub open spec fn counters_through(
    counters: Map<Seq<char>, u64>,
    frames: Seq<Option<Frame>>,
) -> Map<Seq<char>, u64>
    decreases frames.len(),
{
    if frames.len() == 0 {
        counters
    } else {
        counters_after(counters_through(counters, frames.drop_last()), frames.last())
    }
}

/// The book of `symbol` after a run of frames, from an empty book on. A delta
/// ahead of the first snapshot is ignored.
pub open spec fn book_through(
    counters: Map<Seq<char>, u64>,
    frames: Seq<Option<Frame>>,
    symbol: Seq<char>,
) -> BookView
    decreases frames.len(),
{
    if frames.len() == 0 {
        empty_book()
    } else {
        let front = frames.drop_last();
        book_with(
            book_through(counters, front, symbol),
            frame_reading(counters_through(counters, front), frames.last()),
            symbol,
        )
    }
}

/// One frame keeps the book of `symbol` in step, and moves its counter on by one
/// at most.
proof fn lemma_step(
    counters: Map<Seq<char>, u64>,
    frame: Option<Frame>,
    symbol: Seq<char>,
    book: BookView,
)
    requires
        frame_reading(counters, frame) is Ok,
        book.initialized ==> in_step(counters, symbol, book),
        counters.contains_key(symbol) ==> counters[symbol] < u64::MAX,
    ensures
        ({
            let after = counters_after(counters, frame);
            let next = book_with(book, frame_reading(counters, frame), symbol);
            &&& next.initialized ==> in_step(after, symbol, next)
            &&& last_number(after, symbol) <= last_number(counters, symbol) + 1
        }),
{
    let outcome = frame_reading(counters, frame);
    if symbol_of(frame) != Some(symbol) {
        law_other_symbols_keep_their_counters(counters, frame, symbol);
    } else if concerns(outcome, symbol, book) {
        law_updates_stay_in_step(counters, frame, outcome->Ok_0->Some_0, book);
    }
}

proof fn lemma_session(
    counters: Map<Seq<char>, u64>,
    frames: Seq<Option<Frame>>,
    symbol: Seq<char>,
)
    requires
        last_number(counters, symbol) + frames.len() <= u64::MAX,
        forall|i: int|
            0 <= i < frames.len() ==> frame_reading(
                counters_through(counters, frames.take(i)),
                #[trigger] frames[i],
            ) is Ok,
    ensures
        ({
            let after = counters_through(counters, frames);
            let book = book_through(counters, frames, symbol);
            &&& book.initialized ==> in_step(after, symbol, book)
            &&& last_number(after, symbol) <= last_number(counters, symbol) + frames.len()
        }),
    decreases frames.len(),
{
    if frames.len() > 0 {
        let front = frames.drop_last();
        assert forall|i: int| 0 <= i < front.len() implies frame_reading(
            counters_through(counters, front.take(i)),
            #[trigger] front[i],
        ) is Ok by {
            assert(front.take(i) =~= frames.take(i));
            assert(front[i] == frames[i]);
        }
        lemma_session(counters, front, symbol);
        assert(frames.take(frames.len() - 1) =~= front);
        assert(frames[frames.len() - 1] == frames.last());
        lemma_step(
            counters_through(counters, front),
            frames.last(),
            symbol,
            book_through(counters, front, symbol),
        );
    }
}

/// A session never gaps: whatever the run of frames, as long as each of them
/// can be read, no delta is behind a gap in the book of its symbol.
pub proof fn law_session_never_gaps(
    counters: Map<Seq<char>, u64>,
    frames: Seq<Option<Frame>>,
    next: Option<Frame>,
    symbol: Seq<char>,
)
    requires
        last_number(counters, symbol) + frames.len() < u64::MAX,
        forall|i: int|
            0 <= i < frames.len() ==> frame_reading(
                counters_through(counters, frames.take(i)),
                #[trigger] frames[i],
            ) is Ok,
    ensures
        ({
            let book = book_through(counters, frames, symbol);
            let outcome = frame_reading(counters_through(counters, frames), next);
            concerns(outcome, symbol, book) ==> gap_before_event(
                book,
                outcome->Ok_0->Some_0.event,
            ) is None
        }),
{
    lemma_session(counters, frames, symbol);
    let between = counters_through(counters, frames);
    let book = book_through(counters, frames, symbol);
    let outcome = frame_reading(between, next);
    if concerns(outcome, symbol, book) {
        law_updates_stay_in_step(between, next, outcome->Ok_0->Some_0, book);
    }
}

proof fn lemma_stripped_push(text: Seq<char>, c: char)
    ensures
        stripped(text.push(c)) == if stripped(text).len() > 0 {
            stripped(text).push(c)
        } else if c == '0' {
            seq![]
        } else {
            seq![c]
        },
    decreases text.len(),
{
    if text.len() == 0 {
        assert(text.push(c) =~= seq![c]);
        assert(seq![c].skip(1) =~= seq![]);
        reveal_with_fuel(stripped, 2);
    } else if text[0] == '0' {
        assert(text.push(c).skip(1) =~= text.skip(1).push(c));
        lemma_stripped_push(text.skip(1), c);
    }
}

/// Digits without leading zeros are the decimal notation of their value.
proof fn lemma_stripped_digits(text: Seq<char>)
    requires
        all_digits(text),
    ensures
        stripped(text) == if digits_value(text) == 0 {
            seq![]
        } else {
            nat_text(digits_value(text))
        },
    decreases text.len(),
{
    if text.len() > 0 {
        let front = text.drop_last();
        let c = text.last();
        assert(text[text.len() - 1] == c);
        assert forall|i: int| 0 <= i < front.len() implies '0' <= #[trigger] front[i] <= '9' by {
            assert(front[i] == text[i]);
        }
        lemma_stripped_digits(front);
        lemma_stripped_push(front, c);
        assert(text =~= front.push(c));
        let d = (c as nat - '0' as nat) as nat;
        assert(digit_char(d) == c);
        let v = digits_value(front);
        assert(digits_value(text) == v * 10 + d);
        assert((v * 10 + d) / 10 == v && (v * 10 + d) % 10 == d);
    }
}

/// The decimal notation of a number consists of digits, and reads as the number.
proof fn lemma_nat_text_value(n: nat)
    ensures
        all_digits(nat_text(n)),
        digits_value(nat_text(n)) == n,
    decreases n,
{
    let text = nat_text(n);
    if n < 10 {
        assert(text.drop_last() =~= seq![]);
        reveal_with_fuel(digits_value, 2);
        assert(text.last() == digit_char(n));
    } else {
        let front = nat_text(n / 10);
        lemma_nat_text_value(n / 10);
        assert(text.drop_last() =~= front);
        assert forall|i: int| 0 <= i < text.len() implies '0' <= #[trigger] text[i] <= '9' by {
            if i < front.len() {
                assert(text[i] == front[i]);
            }
        }
    }
}

proof fn lemma_without_points(a: Seq<char>, b: Seq<char>)
    requires
        all_digits(b),
    ensures
        without_points(a + b) == without_points(a) + b,
    decreases b.len(),
{
    if b.len() == 0 {
        assert(a + b =~= a);
        assert(without_points(a) + b =~= without_points(a));
    } else {
        let front = b.drop_last();
        assert(b[b.len() - 1] == b.last());
        assert forall|i: int| 0 <= i < front.len() implies '0' <= #[trigger] front[i] <= '9' by {
            assert(front[i] == b[i]);
        }
        assert((a + b).drop_last() =~= a + front);
        assert((a + b).last() == b.last());
        lemma_without_points(a, front);
        assert((without_points(a) + front).push(b.last()) =~= without_points(a) + b);
    }
}

/// The token of a price or quantity that is not negative is the number in steps
/// of the precision, in decimal notation.
pub proof fn law_token_is_the_scaled_number(value: Decimal, precision: u32)
    requires
        !value.negative(),
    ensures
        token_text(value, precision) == nat_text(truncated(value, precision as nat)),
{
    let places = precision as nat;
    let n = truncated(value, places);
    let p = pow10(places);
    lemma_pow10_positive(places);
    let whole = nat_text(n / p);
    let frac = padded_text(n, places);
    lemma_nat_text_value(n / p);
    lemma_padded_value(seq![], n, places);
    assert(seq![] + frac =~= frac);
    lemma_padded_value(whole, n, places);
    let text = fixed_text(value, places);
    lemma_without_points(seq![], whole);
    assert(without_points(seq![]) =~= seq![]);
    assert(seq![] + whole =~= whole);
    assert(without_points(text) == whole + frac) by {
        if places == 0 {
            assert(text =~= whole);
            assert(whole + frac =~= whole);
        } else {
            let head = whole.push('.');
            assert(text =~= head + frac);
            assert(head.drop_last() =~= whole);
            lemma_without_points(head, frac);
        }
    }
    vstd::arithmetic::div_mod::lemma_fundamental_div_mod(n as int, p as int);
    assert(digits_value(whole + frac) == n) by (nonlinear_arith)
        requires
            digits_value(whole + frac) == (n / p) * p + n % p,
            n == p * (n / p) + n % p,
    ;
    lemma_stripped_digits(whole + frac);
    if n == 0 {
        reveal_strlit("0");
        assert("0"@ =~= nat_text(0));
    }
}

/// The checksum is taken over the levels that the feed maintains: cutting a book
/// down to its depth does not change it.
pub proof fn law_truncation_keeps_the_checksum(
    full: OrderBook,
    cut: OrderBook,
    precision: (u32, u32),
)
    requires
        cut.bids() == last_n(full.bids(), CHECKSUM_DEPTH as nat),
        cut.asks() == first_n(full.asks(), CHECKSUM_DEPTH as nat),
    ensures
        checksum_text(cut, precision) == checksum_text(full, precision),
        book_checksum(cut, precision) == book_checksum(full, precision),
{
    assert(checked_asks(cut) =~= checked_asks(full));
    assert(checked_bids(cut) =~= checked_bids(full));
}

/// Once the precision of a symbol is known, exactly one checksum passes.
pub proof fn law_wrong_checksum_is_rejected(
    kraken: Kraken,
    symbol: Seq<char>,
    book: OrderBook,
    checksum: u32,
)
    requires
        kraken.precisions().contains_key(symbol),
    ensures
        kraken.verdict(symbol, book, checksum) is Ok <==> checksum == book_checksum(
            book,
            kraken.precisions()[symbol],
        ),
{
}

/// An update that was applied without an error left a book that has the
/// exchange's checksum, once the precision of its symbol is known.
pub proof fn law_applied_update_has_the_checksum(
    kraken: Kraken,
    parsed: ParsedView,
    recv_ms: u64,
    books: Map<Seq<char>, OrderBook>,
    metrics: Map<Seq<char>, Metrics>,
    outcome: Result<Outcome, Fault>,
    books_after: Map<Seq<char>, OrderBook>,
    metrics_after: Map<Seq<char>, Metrics>,
    sum: u32,
)
    requires
        event_applied(
            kraken,
            parsed,
            recv_ms,
            books,
            metrics,
            outcome,
            books_after,
            metrics_after,
        ),
        parsed.event matches EventView::Delta { checksum, .. } && checksum == Some(sum),
        kraken.precisions().contains_key(parsed.symbol),
        outcome == Ok::<Outcome, Fault>(Outcome::Applied),
    ensures
        book_checksum(books_after[parsed.symbol], kraken.precisions()[parsed.symbol]) == sum,
        books_after[parsed.symbol].bids().len() <= CHECKSUM_DEPTH,
        books_after[parsed.symbol].asks().len() <= CHECKSUM_DEPTH,
{
}

/// Precisions are learned for the symbols that the feed tracks and for no
/// others.
pub proof fn law_only_tracked_symbols_are_learned(
    precisions: Map<Seq<char>, (u32, u32)>,
    tracked_symbols: Seq<Seq<char>>,
    pairs: Seq<PairInfo>,
    symbol: Seq<char>,
)
    requires
        !tracked_symbols.contains(symbol),
    ensures
        with_pairs(precisions, tracked_symbols, pairs).contains_key(symbol)
            == precisions.contains_key(symbol),
        precisions.contains_key(symbol) ==> with_pairs(precisions, tracked_symbols, pairs)[symbol]
            == precisions[symbol],
    decreases pairs.len(),
{
    if pairs.len() > 0 {
        law_only_tracked_symbols_are_learned(
            precisions,
            tracked_symbols,
            pairs.drop_last(),
            symbol,
        );
    }
}

/// A negative number keeps its sign, and with it all digits of its fixed form.
pub proof fn law_negative_token_keeps_its_sign(value: Decimal, precision: u32)
    requires
        value.negative(),
    ensures
        ({
            let n = truncated(value, precision as nat);
            token_text(value, precision) == seq!['-'] + nat_text(n / pow10(precision as nat))
                + padded_text(n, precision as nat)
        }),
{
    let places = precision as nat;
    let n = truncated(value, places);
    let p = pow10(places);
    let whole = nat_text(n / p);
    let frac = padded_text(n, places);
    lemma_nat_text_value(n / p);
    lemma_padded_value(seq![], n, places);
    assert(seq![] + frac =~= frac);
    let text = fixed_text(value, places);
    let sign = seq!['-'];
    assert(without_points(sign) =~= sign) by {
        assert(sign.drop_last() =~= seq![]);
        assert(without_points(seq![]) =~= seq![]);
    }
    lemma_without_points(sign, whole);
    let kept = sign + whole + frac;
    assert(without_points(text) == kept) by {
        if places == 0 {
            assert(text =~= sign + whole);
            assert(kept =~= sign + whole);
        } else {
            let head = (sign + whole).push('.');
            assert(text =~= head + frac);
            assert(head.drop_last() =~= sign + whole);
            lemma_without_points(head, frac);
        }
    }
    assert(kept[0] == '-');
}

/// A number as the checksum text has it: its numeral in whole steps of the
/// precision, or, if it is negative, a sign and all its digits to that precision.
pub open spec fn step_text(d: Decimal, places: nat) -> Seq<char> {
    let n = truncated(d, places);
    if d.negative() {
        seq!['-'] + nat_text(n / pow10(places)) + padded_text(n, places)
    } else {
        nat_text(n)
    }
}

proof fn lemma_token_is_step_text(value: Decimal, precision: u32)
    ensures
        token_text(value, precision) == step_text(value, precision as nat),
{
    if value.negative() {
        law_negative_token_keeps_its_sign(value, precision);
    } else {
        law_token_is_the_scaled_number(value, precision);
    }
}

/// What number `k` of the checksum text is, counted over asks and bids: the even
/// ones are prices and the odd ones quantities, first of the asks from the lowest
/// price up, then of the bids from the highest price down.
pub open spec fn checked_number(
    asks: Seq<(Decimal, Decimal)>,
    bids: Seq<(Decimal, Decimal)>,
    k: int,
) -> Decimal {
    let n = 2 * smaller(asks.len(), 10);
    let quote = if k < n {
        asks[k / 2]
    } else {
        bids[bids.len() - 1 - (k - n) / 2]
    };
    if k % 2 == 0 {
        quote.0
    } else {
        quote.1
    }
}

/// How many numbers the checksum text is made of: two for each of the ten best
/// levels of each side.
pub open spec fn checked_count(
    asks: Seq<(Decimal, Decimal)>,
    bids: Seq<(Decimal, Decimal)>,
) -> nat {
    2 * smaller(asks.len(), 10) + 2 * smaller(bids.len(), 10)
}

/// The numerals of the numbers of the checksum text: each number counted in steps
/// of the precision of the pair, of the price or of the quantity.
pub open spec fn checked_numerals(
    asks: Seq<(Decimal, Decimal)>,
    bids: Seq<(Decimal, Decimal)>,
    precision: (u32, u32),
) -> Seq<Seq<char>> {
    Seq::new(
        checked_count(asks, bids),
        |k: int|
            step_text(
                checked_number(asks, bids, k),
                (if k % 2 == 0 {
                    precision.0
                } else {
                    precision.1
                }) as nat,
            ),
    )
}

/// The texts of the numbers of quotes.
spec fn numerals_of(quotes: Seq<(Decimal, Decimal)>, precision: (u32, u32)) -> Seq<Seq<char>> {
    Seq::new(
        2 * quotes.len(),
        |k: int|
            if k % 2 == 0 {
                step_text(quotes[k / 2].0, precision.0 as nat)
            } else {
                step_text(quotes[k / 2].1, precision.1 as nat)
            },
    )
}

proof fn lemma_quotes_text(quotes: Seq<(Decimal, Decimal)>, precision: (u32, u32))
    ensures
        quotes_text(quotes, precision) == numerals_of(quotes, precision).flatten_alt(),
    decreases quotes.len(),
{
    let all = numerals_of(quotes, precision);
    if quotes.len() > 0 {
        let front = quotes.drop_last();
        lemma_quotes_text(front, precision);
        let last = quotes.last();
        let n = quotes.len() - 1;
        assert(quotes[n] == last);
        lemma_token_is_step_text(last.0, precision.0);
        lemma_token_is_step_text(last.1, precision.1);
        let with_price = all.drop_last();
        let p = token_text(last.0, precision.0);
        let q = token_text(last.1, precision.1);
        let earlier = numerals_of(front, precision);
        assert(all.last() == q);
        assert(with_price.last() == p);
        assert(with_price.drop_last() =~= earlier);
        assert(with_price.flatten_alt() == earlier.flatten_alt() + p);
        assert(all.flatten_alt() == with_price.flatten_alt() + q);
        assert(quotes_text(quotes, precision) == quotes_text(front, precision) + (p + q));
        assert(all.flatten_alt() =~= quotes_text(quotes, precision));
    } else {
        assert(all.flatten_alt() =~= Seq::empty());
    }
}

/// The checksum text is, one after the other, the numerals of price and quantity
/// of the ten lowest asks from the lowest up and of the ten highest bids from the
/// highest down, each number counted in whole steps of its precision, whatever
/// the precision is.
pub proof fn law_checksum_text_lists_the_levels(book: OrderBook, precision: (u32, u32))
    ensures
        checksum_text(book, precision) == checked_numerals(
            book.asks(),
            book.bids(),
            precision,
        ).flatten(),
{
    let asks = book.asks();
    let bids = book.bids();
    let x = checked_asks(book);
    let y = checked_bids(book);
    let n = x.len();
    assert(n == smaller(asks.len(), 10) && y.len() == smaller(bids.len(), 10));
    lemma_quotes_text(x, precision);
    lemma_quotes_text(y, precision);
    let a = numerals_of(x, precision);
    let b = numerals_of(y, precision);
    vstd::seq_lib::lemma_flatten_alt_concat(a, b);
    let all = checked_numerals(asks, bids, precision);
    assert forall|k: int| 0 <= k < all.len() implies all[k] == (a + b)[k] by {
        if k >= 2 * n {
            let i = (k - 2 * n) / 2;
            assert(y[i] == bids[bids.len() - 1 - i]);
            assert(k % 2 == (k - 2 * n) % 2);
        } else {
            assert(x[k / 2] == asks[k / 2]);
        }
    }
    assert(all =~= a + b);
    all.lemma_flatten_and_flatten_alt_are_equivalent();
}

/// For a book of one ask and no bid, the checksum text is the price and then the
/// quantity, each in steps of its precision.
pub proof fn law_single_ask_is_price_then_quantity(book: OrderBook, precision: (u32, u32))
    requires
        book.asks().len() == 1,
        book.bids().len() == 0,
        !book.asks()[0].0.negative(),
        !book.asks()[0].1.negative(),
    ensures
        checksum_text(book, precision) == nat_text(
            truncated(book.asks()[0].0, precision.0 as nat),
        ) + nat_text(truncated(book.asks()[0].1, precision.1 as nat)),
{
    let asks = book.asks();
    let bids = book.bids();
    law_checksum_text_lists_the_levels(book, precision);
    let all = checked_numerals(asks, bids, precision);
    let p = nat_text(truncated(asks[0].0, precision.0 as nat));
    let q = nat_text(truncated(asks[0].1, precision.1 as nat));
    assert(all =~= seq![p].push(q));
    seq![p].lemma_flatten_one_element();
    seq![p].lemma_flatten_push(q);
}

/// Once the precision of a symbol is known, a checksum passes exactly if it is
/// the CRC32 of those numerals; any other is reported with the one computed.
/// Before that, every checksum passes.
pub proof fn law_checksum_is_that_of_the_levels(
    kraken: Kraken,
    symbol: Seq<char>,
    book: OrderBook,
    checksum: u32,
)
    ensures
        !kraken.precisions().contains_key(symbol) ==> kraken.verdict(symbol, book, checksum) is Ok,
        kraken.precisions().contains_key(symbol) ==> {
            let sum = crc32_of(
                encode_utf8(
                    checked_numerals(
                        book.asks(),
                        book.bids(),
                        kraken.precisions()[symbol],
                    ).flatten(),
                ),
            );
            match kraken.verdict(symbol, book, checksum) {
                Ok(()) => checksum == sum,
                Err(Fault::ChecksumMismatch { computed, expected }) => {
                    &&& checksum != sum
                    &&& computed == sum
                    &&& expected == checksum
                },
                Err(_) => false,
            }
        },
{
    if kraken.precisions().contains_key(symbol) {
        law_checksum_text_lists_the_levels(book, kraken.precisions()[symbol]);
    }
}

/// The levels are those of the message, one for one.
pub open spec fn levels_read(raw: Seq<KLevel>, levels: Seq<Level>) -> bool {
    &&& levels.len() == raw.len()
    &&& forall|i: int|
        0 <= i < raw.len() ==> is_read_as((#[trigger] raw[i]).price@, levels[i].price)
            && is_read_as(raw[i].qty@, levels[i].qty)
}

/// Every price and every quantity can be read.
pub open spec fn all_readable(raw: Seq<KLevel>) -> bool {
    forall|i: int|
        0 <= i < raw.len() ==> parsed_decimal((#[trigger] raw[i]).price@) is Ok && parsed_decimal(
            raw[i].qty@,
        ) is Ok
}

/// The levels of a message are read exactly if every number of them can be read,
/// and then one for one.
pub proof fn law_levels_are_price_and_quantity(raw: Seq<KLevel>)
    ensures
        match levels_of(level_texts(raw), false) {
            Ok(levels) => all_readable(raw) && levels_read(raw, levels),
            Err(_) => !all_readable(raw),
        },
{
    let pairs = level_texts(raw);
    law_levels_are_read_one_for_one(pairs, false);
    match levels_of(pairs, false) {
        Ok(levels) => {
            assert forall|i: int| 0 <= i < raw.len() implies is_read_as(
                (#[trigger] raw[i]).price@,
                levels[i].price,
            ) && is_read_as(raw[i].qty@, levels[i].qty) by {
                assert(pairs[i] == (raw[i].price@, raw[i].qty@));
            }
        },
        Err(fault) => {
            let i = choose|i: int|
                {
                    &&& 0 <= i < pairs.len()
                    &&& forall|j: int|
                        0 <= j < i ==> parsed_decimal((#[trigger] pairs[j]).0) is Ok
                            && parsed_decimal(pairs[j].1) is Ok
                    &&& if parsed_decimal((#[trigger] pairs[i]).0) is Err {
                        blames(fault, Field::Price, pairs[i].0, false)
                    } else {
                        blames(fault, Field::Qty, pairs[i].1, false)
                    }
                };
            assert(pairs[i] == (raw[i].price@, raw[i].qty@));
            assert(parsed_decimal(raw[i].price@) is Err || parsed_decimal(raw[i].qty@) is Err);
        },
    }
}

/// A `book` message of type `update` is a delta of its symbol: it bears the
/// number after the last one of that symbol, the time that its stamp names, its
/// levels on their sides, and its checksum. It is refused exactly if a number
/// cannot be read, and only then it takes no number.
pub proof fn law_update_is_carried_over(
    counters: Map<Seq<char>, u64>,
    frame: Frame,
    data: BookData,
)
    requires
        frame.channel matches Some(channel) && channel@ == "book"@,
        frame.kind matches Some(kind) && kind@ == "update"@,
        frame.books matches Ok(books) && books@.len() > 0 && books@[0] == data,
        last_number(counters, data.symbol@) < u64::MAX,
    ensures
        ({
            let after = counters_after(counters, Some(frame));
            match frame_reading(counters, Some(frame)) {
                Ok(Some(parsed)) => {
                    &&& parsed.symbol == data.symbol@
                    &&& match parsed.event {
                        EventView::Delta { bids, asks, first, last, event_time_ms, checksum } => {
                            &&& first == last
                            &&& first == last_number(counters, data.symbol@) + 1
                            &&& is_time_of(event_time_ms, data.timestamp)
                            &&& checksum == Some(data.checksum)
                            &&& levels_read(data.bids@, bids)
                            &&& levels_read(data.asks@, asks)
                            &&& after == counters.insert(data.symbol@, first)
                        },
                        EventView::Snapshot { .. } => false,
                    }
                },
                Ok(None) => false,
                Err(_) => {
                    &&& !all_readable(data.bids@) || !all_readable(data.asks@)
                    &&& after == counters
                },
            }
        }),
{
    reveal_strlit("update");
    reveal_strlit("snapshot");
    assert("update"@.len() != "snapshot"@.len());
    law_levels_are_price_and_quantity(data.bids@);
    law_levels_are_price_and_quantity(data.asks@);
    law_stamp_names_the_event_time(data.timestamp);
}

/// A `book` message of type `snapshot` is one of its symbol, with number zero and
/// its levels on their sides; it is refused exactly if a number cannot be read,
/// and otherwise the count starts anew.
pub proof fn law_snapshot_is_carried_over(
    counters: Map<Seq<char>, u64>,
    frame: Frame,
    data: BookData,
)
    requires
        frame.channel matches Some(channel) && channel@ == "book"@,
        frame.kind matches Some(kind) && kind@ == "snapshot"@,
        frame.books matches Ok(books) && books@.len() > 0 && books@[0] == data,
    ensures
        ({
            let after = counters_after(counters, Some(frame));
            match frame_reading(counters, Some(frame)) {
                Ok(Some(parsed)) => {
                    &&& parsed.symbol == data.symbol@
                    &&& match parsed.event {
                        EventView::Snapshot { bids, asks, sequence } => {
                            &&& levels_read(data.bids@, bids)
                            &&& levels_read(data.asks@, asks)
                            &&& sequence == 0
                        },
                        EventView::Delta { .. } => false,
                    }
                    &&& after == counters.insert(data.symbol@, 0)
                },
                Ok(None) => false,
                Err(_) => {
                    &&& !all_readable(data.bids@) || !all_readable(data.asks@)
                    &&& after == counters
                },
            }
        }),
{
    law_levels_are_price_and_quantity(data.bids@);
    law_levels_are_price_and_quantity(data.asks@);
}

/// A frame of another channel brings no event and takes no number; one of the
/// `book` channel without a book brings none either, and one that does not read
/// as a book message is refused with the reason.
pub proof fn law_other_frames_bring_no_event(counters: Map<Seq<char>, u64>, frame: Frame)
    ensures
        frame_reading(counters, None) == Ok::<Option<ParsedView>, Fault>(None),
        !(frame.channel matches Some(channel) && channel@ == "book"@) ==> {
            &&& frame_reading(counters, Some(frame)) == Ok::<Option<ParsedView>, Fault>(None)
            &&& counters_after(counters, Some(frame)) == counters
        },
        frame.channel matches Some(channel) ==> channel@ == "book"@ ==> match frame.books {
            Err(reason) => {
                &&& frame_reading(counters, Some(frame)) matches Err(Fault::Malformed {
                    reason: found,
                }) && found == reason@
                &&& counters_after(counters, Some(frame)) == counters
            },
            Ok(books) => books@.len() == 0 ==> {
                &&& frame_reading(counters, Some(frame)) == Ok::<Option<ParsedView>, Fault>(None)
                &&& counters_after(counters, Some(frame)) == counters
            },
        },
{
}

/// The precision of a tracked pair is the one that the last entry for its symbol
/// gives, the price's first.
pub proof fn law_precision_is_learned(
    precisions: Map<Seq<char>, (u32, u32)>,
    tracked_symbols: Seq<Seq<char>>,
    pairs: Seq<PairInfo>,
    i: int,
)
    requires
        0 <= i < pairs.len(),
        tracked_symbols.contains(pairs[i].symbol@),
        forall|j: int| i < j < pairs.len() ==> (#[trigger] pairs[j]).symbol@ != pairs[i].symbol@,
    ensures
        with_pairs(precisions, tracked_symbols, pairs).contains_key(pairs[i].symbol@),
        with_pairs(precisions, tracked_symbols, pairs)[pairs[i].symbol@].0
            == pairs[i].price_precision,
        with_pairs(precisions, tracked_symbols, pairs)[pairs[i].symbol@].1
            == pairs[i].qty_precision,
    decreases pairs.len(),
{
    let front = pairs.drop_last();
    assert(pairs[pairs.len() - 1] == pairs.last());
    if i < front.len() {
        assert forall|j: int| i < j < front.len() implies (#[trigger] front[j]).symbol@
            != front[i].symbol@ by {
            assert(front[j] == pairs[j]);
        }
        assert(front[i] == pairs[i]);
        law_precision_is_learned(precisions, tracked_symbols, front, i);
    }
}

/// Precisions are learned from the `instrument` channel, and from no other.
pub proof fn law_instruments_bring_precisions(
    precisions: Map<Seq<char>, (u32, u32)>,
    tracked_symbols: Seq<Seq<char>>,
    frame: Frame,
)
    ensures
        ({
            let after = precisions_after(precisions, tracked_symbols, Some(frame));
            match (frame.channel, frame.pairs) {
                (Some(channel), Some(pairs)) => after == if channel@ == "instrument"@ {
                    with_pairs(precisions, tracked_symbols, pairs@)
                } else {
                    precisions
                },
                _ => after == precisions,
            }
        }),
{
}

/// A `book` message of another type brings no event and takes no number; it is
/// refused all the same if a number cannot be read.
pub proof fn law_other_types_bring_no_event(
    counters: Map<Seq<char>, u64>,
    frame: Frame,
    data: BookData,
)
    requires
        frame.channel matches Some(channel) && channel@ == "book"@,
        frame.kind matches Some(kind) ==> kind@ != "snapshot"@ && kind@ != "update"@,
        frame.books matches Ok(books) && books@.len() > 0 && books@[0] == data,
    ensures
        counters_after(counters, Some(frame)) == counters,
        match frame_reading(counters, Some(frame)) {
            Ok(event) => event is None,
            Err(_) => !all_readable(data.bids@) || !all_readable(data.asks@),
        },
{
    law_levels_are_price_and_quantity(data.bids@);
    law_levels_are_price_and_quantity(data.asks@);
}

/// A checksum can be tested exactly if every number of its text can be formatted
/// to its precision, or if the precision is not known; the feed keeps ten levels.
pub proof fn law_checksum_can_be_tested(kraken: Kraken, symbol: Seq<char>, book: OrderBook)
    ensures
        kraken.depth_limit() == Some(10usize),
        !kraken.precisions().contains_key(symbol) ==> kraken.can_check(symbol, book),
        kraken.precisions().contains_key(symbol) ==> (kraken.can_check(symbol, book) <==> (forall|
            k: int,
        |
            0 <= k < checked_count(book.asks(), book.bids()) ==> fixed_fits(
                #[trigger] checked_number(book.asks(), book.bids(), k),
                (if k % 2 == 0 {
                    kraken.precisions()[symbol].0
                } else {
                    kraken.precisions()[symbol].1
                }) as nat,
            ))),
{
    if kraken.precisions().contains_key(symbol) {
        let precision = kraken.precisions()[symbol];
        let asks = book.asks();
        let bids = book.bids();
        let x = checked_asks(book);
        let y = checked_bids(book);
        let n = x.len();
        assert(n == smaller(asks.len(), 10) && y.len() == smaller(bids.len(), 10));
        if kraken.can_check(symbol, book) {
            assert forall|k: int| 0 <= k < checked_count(asks, bids) implies fixed_fits(
                #[trigger] checked_number(asks, bids, k),
                (if k % 2 == 0 {
                    precision.0
                } else {
                    precision.1
                }) as nat,
            ) by {
                if k < 2 * n {
                    assert(x[k / 2] == asks[k / 2]);
                } else {
                    let i = (k - 2 * n) / 2;
                    assert(y[i] == bids[bids.len() - 1 - i]);
                }
            }
        }
        if forall|k: int|
            0 <= k < checked_count(asks, bids) ==> fixed_fits(
                #[trigger] checked_number(asks, bids, k),
                (if k % 2 == 0 {
                    precision.0
                } else {
                    precision.1
                }) as nat,
            ) {
            assert forall|i: int| 0 <= i < x.len() implies fixed_fits(
                (#[trigger] x[i]).0,
                precision.0 as nat,
            ) && fixed_fits(x[i].1, precision.1 as nat) by {
                assert(checked_number(asks, bids, 2 * i) == x[i].0);
                assert(checked_number(asks, bids, 2 * i + 1) == x[i].1);
            }
            assert forall|i: int| 0 <= i < y.len() implies fixed_fits(
                (#[trigger] y[i]).0,
                precision.0 as nat,
            ) && fixed_fits(y[i].1, precision.1 as nat) by {
                assert(y[i] == bids[bids.len() - 1 - i]);
                assert(checked_number(asks, bids, 2 * n + 2 * i) == y[i].0);
                assert(checked_number(asks, bids, 2 * n + 2 * i + 1) == y[i].1);
            }
        }
    }
}

/// There is room for every frame until the counter of its symbol is full.
pub proof fn law_frames_fit_until_the_counter_is_full(
    feed: Kraken,
    frame: Option<Frame>,
)
    requires
        symbol_of(frame) matches Some(symbol) ==> last_number(feed.counters(), symbol)
            < 0xFFFF_FFFF_FFFF_FFFF,
    ensures
        feed.has_room_for(frame),
{
}

/// Two frames subscribe to the feed, one for the precisions and one for the books,
/// and the second lists every pair.
pub proof fn law_subscription_lists_the_pairs(feed: Kraken)
    ensures
        feed.subscription_texts().len() == 2,
        shows(feed.subscription_texts()[0], "\"channel\":\"instrument\""@),
        shows(
            feed.subscription_texts()[1],
            "\"channel\":\"book\",\"depth\":10,\"symbol\":"@ + json_array(feed.symbol_texts()),
        ),
        feed.request_url() is Err,
{
    let list = json_array(feed.symbol_texts());
    let head = "{\"method\":\"subscribe\",\"params\":{"@;
    let book = "\"channel\":\"book\",\"depth\":10,\"symbol\":"@;
    let instrument = "\"channel\":\"instrument\""@;
    reveal_strlit("{\"method\":\"subscribe\",\"params\":{");
    reveal_strlit("\"channel\":\"book\",\"depth\":10,\"symbol\":");
    reveal_strlit("\"channel\":\"instrument\"");
    reveal_strlit("}}");
    reveal_strlit("{\"method\":\"subscribe\",\"params\":{\"channel\":\"instrument\"}}");
    reveal_strlit(
        "{\"method\":\"subscribe\",\"params\":{\"channel\":\"book\",\"depth\":10,\"symbol\":",
    );
    assert(instrument_text() =~= (head + instrument) + "}}"@);
    assert("{\"method\":\"subscribe\",\"params\":{\"channel\":\"book\",\"depth\":10,\"symbol\":"@
        =~= head + book);
    assert(book_text(feed.symbol_texts()) =~= (head + (book + list)) + "}}"@);
}

/// The feed reads a frame as it stands, whatever its symbol, and keeps count of it
/// and of the precisions that it brings.
pub proof fn law_feed_reads_every_frame(
    before: Kraken,
    frame: Option<Frame>,
    outcome: Result<Option<ParsedView>, Fault>,
    after: Kraken,
)
    ensures
        Kraken::reads(&before, frame, outcome, &after) ==> {
            &&& outcome == frame_reading(before.counters(), frame)
            &&& after.counters() == counters_after(before.counters(), frame)
            &&& after.precisions() == precisions_after(
                before.precisions(),
                before.listed(),
                frame,
            )
            &&& after.listed() == before.listed()
        },
        before.symbol_texts() == before.listed(),
        !before.seeded_by_request(),
        precisions_after(before.precisions(), before.listed(), None) == before.precisions(),
{
}

/// The token of a number that is not negative is its numeral in steps of the
/// precision: the number of steps does not exceed the number, and one step more
/// does.
pub proof fn law_token_counts_the_steps(value: Decimal, precision: u32, token: String)
    requires
        !value.negative(),
        call_ensures(kraken_token, (value, precision), token),
    ensures
        ({
            let steps = digits_value(token@);
            let one = pow10(value.scale());
            &&& is_numeral(token@, steps)
            &&& steps * one <= value.coefficient() * pow10(precision as nat)
            &&& value.coefficient() * pow10(precision as nat) < (steps + 1) * one
        }),
{
    let n = truncated(value, precision as nat);
    law_token_is_the_scaled_number(value, precision);
    law_notation_is_the_numeral(n);
    law_truncation_rounds_toward_zero(value, precision as nat);
}

} // verus!
