//! Exchange adapters: what each exchange's messages mean for a book.

pub mod binance;
pub mod coinbase;
pub mod kraken;
pub mod timestamp;

use crate::decimal::{is_exact, parsed_decimal, spelled, Decimal};
use crate::error::{Fault, FeedError, Field};
use crate::feed::ParsedView;
use crate::orderbook::{event_book, BookView, EventView, Level};
use crate::symbols::SymbolTable;
use crate::text::texts;
use timestamp::{
    epoch_ms_of, instant_of, law_milliseconds_are_the_instant, rfc3339_to_epoch_ms,
};
use vstd::prelude::*;
use vstd::string::*;
use vstd::utf8::is_ascii_chars;

verus! {

/// The exchanges that can be followed.
#[derive(Clone, Copy, Debug, PartialEq, Eq, Structural)]
pub enum ExchangeArg {
    Binance,
    Coinbase,
    Kraken,
}

/// The symbol that is followed where none is asked for.
pub open spec fn default_symbol_text(exchange: ExchangeArg) -> Seq<char> {
    match exchange {
        ExchangeArg::Binance => "BTCUSDT"@,
        ExchangeArg::Coinbase => "BTC-USD"@,
        ExchangeArg::Kraken => "BTC/USD"@,
    }
}

impl ExchangeArg {
    /// The symbol that is followed where none is asked for.
    pub fn default_symbol(self) -> (symbol: &'static str)
        ensures
            symbol@ == default_symbol_text(self),
    {
        match self {
            ExchangeArg::Binance => "BTCUSDT",
            ExchangeArg::Coinbase => "BTC-USD",
            ExchangeArg::Kraken => "BTC/USD",
        }
    }
}

/// What `str::to_uppercase` makes of a text.
pub uninterp spec fn uppercase_text(text: Seq<char>) -> Seq<char>;

/// The upper case of an ASCII character.
pub open spec fn ascii_uppercase(c: char) -> char {
    if 'a' <= c <= 'z' {
        (c as u8 - 32) as char
    } else {
        c
    }
}

/// `str::to_uppercase`: the result is a function of the text, and on ASCII it
/// replaces the letters `a` to `z` one by one.
pub assume_specification[ str::to_uppercase ](text: &str) -> (upper: String)
    ensures
        upper@ == uppercase_text(text@),
        is_ascii_chars(text@) ==> upper@ == text@.map_values(|c: char| ascii_uppercase(c)),
;

/// What `str::to_lowercase` makes of a text.
pub uninterp spec fn lowercase_text(text: Seq<char>) -> Seq<char>;

/// The lower case of an ASCII character.
pub open spec fn ascii_lowercase(c: char) -> char {
    if 'A' <= c <= 'Z' {
        (c as u8 + 32) as char
    } else {
        c
    }
}

/// `str::to_lowercase`: the result is a function of the text, and on ASCII it
/// replaces the letters `A` to `Z` one by one.
pub assume_specification[ str::to_lowercase ](text: &str) -> (lower: String)
    ensures
        lower@ == lowercase_text(text@),
        is_ascii_chars(text@) ==> lower@ == text@.map_values(|c: char| ascii_lowercase(c)),
;

/// The symbols in upper case, as the exchanges expect them.
pub open spec fn normalized(symbols: Seq<&str>) -> Seq<Seq<char>> {
    Seq::new(symbols.len(), |i: int| uppercase_text(symbols[i]@))
}

/// Puts the symbols in upper case.
pub(crate) fn normalize(symbols: &[&str]) -> (upper: Vec<String>)
    ensures
        texts(upper@) == normalized(symbols@),
{
    let mut upper: Vec<String> = Vec::new();
    let mut i: usize = 0;
    while i < symbols.len()
        invariant
            i <= symbols@.len(),
            upper@.len() == i,
            forall|k: int|
                0 <= k < i ==> (#[trigger] upper@[k])@ == uppercase_text(symbols@[k]@),
        decreases symbols@.len() - i,
    {
        upper.push(symbols[i].to_uppercase());
        i = i + 1;
    }
    assert(texts(upper@) =~= normalized(symbols@));
    upper
}

/// Upper case of ASCII text is reached once and for all.
pub proof fn law_ascii_symbols_are_normalized_once(text: Seq<char>)
    requires
        is_ascii_chars(text),
    ensures
        ({
            let upper = text.map_values(|c: char| ascii_uppercase(c));
            upper.map_values(|c: char| ascii_uppercase(c)) == upper
        }),
{
    let upper = text.map_values(|c: char| ascii_uppercase(c));
    assert(upper.map_values(|c: char| ascii_uppercase(c)) =~= upper);
}

/// A number of a level, or what is wrong with it.
pub open spec fn number_of(field: Field, text: Seq<char>, quoted: bool) -> Result<Decimal, Fault> {
    match parsed_decimal(text) {
        Ok(d) => Ok(d),
        Err(cause) => Err(Fault::BadNumber { field, text, quoted, cause }),
    }
}

/// A level from the texts of its price and its quantity; the price is read
/// first.
pub open spec fn level_of(
    price: Seq<char>,
    qty: Seq<char>,
    qty_field: Field,
    quoted: bool,
) -> Result<Level, Fault> {
    match number_of(Field::Price, price, quoted) {
        Err(fault) => Err(fault),
        Ok(p) => match number_of(qty_field, qty, quoted) {
            Err(fault) => Err(fault),
            Ok(q) => Ok(Level { price: p, qty: q }),
        },
    }
}

/// The levels from the texts of their prices and quantities, in their order; or
/// what is wrong with the first that cannot be read.
pub open spec fn levels_of(pairs: Seq<(Seq<char>, Seq<char>)>, quoted: bool) -> Result<
    Seq<Level>,
    Fault,
>
    decreases pairs.len(),
{
    if pairs.len() == 0 {
        Ok(Seq::empty())
    } else {
        match levels_of(pairs.drop_last(), quoted) {
            Err(fault) => Err(fault),
            Ok(levels) => match level_of(pairs.last().0, pairs.last().1, Field::Qty, quoted) {
                Err(fault) => Err(fault),
                Ok(level) => Ok(levels.push(level)),
            },
        }
    }
}

/// Price and quantity are the numbers that their texts spell, digit for digit.
pub open spec fn level_exact(pair: (Seq<char>, Seq<char>), level: Level) -> bool {
    is_exact(pair.0, level.price) && is_exact(pair.1, level.qty)
}

/// There is a level for each pair of texts, with the numbers that they spell.
pub open spec fn levels_exact(pairs: Seq<(Seq<char>, Seq<char>)>, levels: Seq<Level>) -> bool {
    &&& levels.len() == pairs.len()
    &&& forall|i: int| 0 <= i < levels.len() ==> level_exact(pairs[i], #[trigger] levels[i])
}

/// Both texts of the pair spell a number.
pub open spec fn pair_spelled(pair: (Seq<char>, Seq<char>)) -> bool {
    spelled(pair.0) && spelled(pair.1)
}

/// All texts spell numbers.
pub open spec fn all_spelled(pairs: Seq<(Seq<char>, Seq<char>)>) -> bool {
    forall|i: int| 0 <= i < pairs.len() ==> pair_spelled(#[trigger] pairs[i])
}

/// The levels of an event are the numbers that their texts spell.
pub open spec fn event_exact(
    bids: Seq<(Seq<char>, Seq<char>)>,
    asks: Seq<(Seq<char>, Seq<char>)>,
    event: EventView,
) -> bool {
    match event {
        EventView::Snapshot { bids: b, asks: a, .. } => levels_exact(bids, b) && levels_exact(
            asks,
            a,
        ),
        EventView::Delta { bids: b, asks: a, .. } => levels_exact(bids, b) && levels_exact(asks, a),
    }
}

/// A message is read as it is spelled: the levels of its event are the numbers
/// that their texts spell, and it is refused only for a text that spells none.
pub open spec fn read_as_spelled(
    bids: Seq<(Seq<char>, Seq<char>)>,
    asks: Seq<(Seq<char>, Seq<char>)>,
    outcome: Result<Option<ParsedView>, Fault>,
) -> bool {
    match outcome {
        Ok(Some(parsed)) => event_exact(bids, asks, parsed.event),
        Ok(None) => true,
        Err(_) => !all_spelled(bids) || !all_spelled(asks),
    }
}

/// A text that cannot be read cannot be mended by what follows it.
pub(crate) proof fn lemma_levels_of_prefix(pairs: Seq<(Seq<char>, Seq<char>)>, quoted: bool, n: int)
    requires
        0 <= n <= pairs.len(),
        levels_of(pairs.take(n), quoted) is Err,
    ensures
        levels_of(pairs, quoted) == levels_of(pairs.take(n), quoted),
    decreases pairs.len() - n,
{
    if n == pairs.len() {
        assert(pairs.take(n) =~= pairs);
    } else {
        assert(pairs.take(n + 1).drop_last() =~= pairs.take(n));
        lemma_levels_of_prefix(pairs, quoted, n + 1);
    }
}

/// The price and quantity texts of string pairs.
pub open spec fn pair_texts(raw: Seq<[String; 2]>) -> Seq<(Seq<char>, Seq<char>)> {
    Seq::new(raw.len(), |i: int| (raw[i]@[0]@, raw[i]@[1]@))
}

/// Reads one number of a level.
pub(crate) fn read_number(field: Field, text: &str, quoted: bool) -> (r: Result<Decimal, FeedError>)
    ensures
        match r {
            Ok(d) => number_of(field, text@, quoted) == Ok::<Decimal, Fault>(d) && is_exact(
                text@,
                d,
            ),
            Err(e) => number_of(field, text@, quoted) == Err::<Decimal, Fault>(e@) && !spelled(
                text@,
            ),
        },
{
    match Decimal::from_str(text) {
        Ok(d) => Ok(d),
        Err(cause) => Err(FeedError::BadNumber { field, text: text.to_owned(), quoted, cause }),
    }
}

/// Reads a level from the texts of its price and its quantity.
pub(crate) fn read_level(price: &str, qty: &str, qty_field: Field, quoted: bool) -> (r: Result<
    Level,
    FeedError,
>)
    ensures
        match r {
            Ok(level) => {
                &&& level_of(price@, qty@, qty_field, quoted) == Ok::<Level, Fault>(level)
                &&& level_exact((price@, qty@), level)
            },
            Err(e) => {
                &&& level_of(price@, qty@, qty_field, quoted) == Err::<Level, Fault>(e@)
                &&& !pair_spelled((price@, qty@))
            },
        },
{
    let price: Decimal = match read_number(Field::Price, price, quoted) {
        Ok(d) => d,
        Err(e) => return Err(e),
    };
    let qty: Decimal = match read_number(qty_field, qty, quoted) {
        Ok(d) => d,
        Err(e) => return Err(e),
    };
    Ok(Level { price, qty })
}

/// Convert an exchange's `[price, qty]` string pairs into typed [`Level`]s,
/// parsing each field as an exact decimal.
pub fn parse_levels(raw: &[[String; 2]]) -> (r: Result<Vec<Level>, FeedError>)
    ensures
        match r {
            Ok(levels) => {
                &&& levels_of(pair_texts(raw@), true) == Ok::<Seq<Level>, Fault>(levels@)
                &&& levels_exact(pair_texts(raw@), levels@)
            },
            Err(e) => {
                &&& levels_of(pair_texts(raw@), true) == Err::<Seq<Level>, Fault>(e@)
                &&& !all_spelled(pair_texts(raw@))
            },
        },
{
    let ghost pairs = pair_texts(raw@);
    let mut levels: Vec<Level> = Vec::new();
    let mut i: usize = 0;
    assert(pairs.take(0) =~= Seq::empty());
    while i < raw.len()
        invariant
            i <= raw@.len(),
            pairs == pair_texts(raw@),
            levels_of(pairs.take(i as int), true) == Ok::<Seq<Level>, Fault>(levels@),
            levels_exact(pairs.take(i as int), levels@),
        decreases raw@.len() - i,
    {
        proof {
            assert(pairs.take(i + 1).drop_last() =~= pairs.take(i as int));
            assert(pairs.take(i + 1).last() == pairs[i as int]);
        }
        match read_level(raw[i][0].as_str(), raw[i][1].as_str(), Field::Qty, true) {
            Ok(level) => levels.push(level),
            Err(e) => {
                proof {
                    lemma_levels_of_prefix(pairs, true, i + 1);
                    assert(!pair_spelled(pairs[i as int]));
                }
                return Err(e);
            },
        }
        i = i + 1;
    }
    assert(pairs.take(i as int) =~= pairs);
    Ok(levels)
}

/// The event time that a time stamp names, where there is one that can be read.
pub open spec fn stamp_of(time: Option<String>) -> Option<u64> {
    match time {
        Some(text) => epoch_ms_of(text@),
        None => None,
    }
}

/// Reads a time stamp, where there is one.
pub(crate) fn read_stamp(time: &Option<String>) -> (ms: Option<u64>)
    ensures
        ms == stamp_of(*time),
{
    match time {
        Some(text) => rfc3339_to_epoch_ms(text.as_str()),
        None => None,
    }
}

/// The synthetic sequence number of a symbol's next message: zero for a
/// snapshot, otherwise one more than the last.
pub open spec fn next_sequence(counters: Map<Seq<char>, u64>, symbol: Seq<char>, reset: bool) -> int {
    if reset {
        0
    } else if counters.contains_key(symbol) {
        counters[symbol] + 1
    } else {
        1
    }
}

/// The number of the last message of a symbol, or zero before the first.
pub open spec fn last_number(counters: Map<Seq<char>, u64>, symbol: Seq<char>) -> int {
    if counters.contains_key(symbol) {
        counters[symbol] as int
    } else {
        0
    }
}

/// The book of `symbol` is seeded and reflects everything up to its counter.
pub open spec fn in_step(
    counters: Map<Seq<char>, u64>,
    symbol: Seq<char>,
    book: BookView,
) -> bool {
    &&& book.initialized
    &&& counters.contains_key(symbol)
    &&& counters[symbol] == book.last_update_id
}

/// The two sets of counters say the same of `symbol`.
pub open spec fn agree_on(
    a: Map<Seq<char>, u64>,
    b: Map<Seq<char>, u64>,
    symbol: Seq<char>,
) -> bool {
    &&& a.contains_key(symbol) == b.contains_key(symbol)
    &&& a.contains_key(symbol) ==> a[symbol] == b[symbol]
}

/// Whether a reading brings an event that the book of `symbol` takes up: one of
/// that symbol, and a snapshot if the book still waits for one.
pub open spec fn concerns(
    outcome: Result<Option<ParsedView>, Fault>,
    symbol: Seq<char>,
    book: BookView,
) -> bool {
    outcome matches Ok(Some(parsed)) && parsed.symbol == symbol && (book.initialized
        || parsed.event is Snapshot)
}

/// The book of `symbol` after what a reading brings.
pub open spec fn book_with(
    book: BookView,
    outcome: Result<Option<ParsedView>, Fault>,
    symbol: Seq<char>,
) -> BookView {
    if concerns(outcome, symbol, book) {
        event_book(book, outcome->Ok_0->Some_0.event)
    } else {
        book
    }
}

/// Advances the counter of `symbol`, or resets it to zero.
pub(crate) fn advance(counters: &mut SymbolTable<u64>, symbol: &str, reset: bool) -> (n: u64)
    requires
        next_sequence(old(counters)@, symbol@, reset) <= u64::MAX,
    ensures
        n == next_sequence(old(counters)@, symbol@, reset),
        final(counters)@ == old(counters)@.insert(symbol@, n),
{
    let n: u64 = if reset {
        0
    } else {
        match counters.get(symbol) {
            Some(last) => *last + 1,
            None => 1,
        }
    };
    counters.insert(symbol.to_owned(), n);
    n
}

/// The text reads as that number.
pub open spec fn is_read_as(text: Seq<char>, d: Decimal) -> bool {
    parsed_decimal(text) == Ok::<Decimal, Seq<char>>(d)
}

/// What is reported of a number that cannot be read: which one, its text, and
/// the reason.
pub open spec fn blames(fault: Fault, field: Field, text: Seq<char>, quoted: bool) -> bool {
    match fault {
        Fault::BadNumber { field: f, text: t, quoted: q, cause } => {
            &&& f == field
            &&& t == text
            &&& q == quoted
            &&& parsed_decimal(text) == Err::<Decimal, Seq<char>>(cause)
        },
        _ => false,
    }
}

/// Levels are read one for one, in their order, each price and each quantity from
/// its own text; where one cannot be read, the first such text is reported.
pub proof fn law_levels_are_read_one_for_one(pairs: Seq<(Seq<char>, Seq<char>)>, quoted: bool)
    ensures
        match levels_of(pairs, quoted) {
            Ok(levels) => {
                &&& levels.len() == pairs.len()
                &&& forall|i: int|
                    0 <= i < pairs.len() ==> is_read_as((#[trigger] pairs[i]).0, levels[i].price)
                        && is_read_as(pairs[i].1, levels[i].qty)
            },
            Err(fault) => exists|i: int|
                {
                    &&& 0 <= i < pairs.len()
                    &&& forall|j: int|
                        0 <= j < i ==> parsed_decimal((#[trigger] pairs[j]).0) is Ok
                            && parsed_decimal(pairs[j].1) is Ok
                    &&& if parsed_decimal((#[trigger] pairs[i]).0) is Err {
                        blames(fault, Field::Price, pairs[i].0, quoted)
                    } else {
                        blames(fault, Field::Qty, pairs[i].1, quoted)
                    }
                },
        },
    decreases pairs.len(),
{
    if pairs.len() > 0 {
        let front = pairs.drop_last();
        let n = front.len() as int;
        law_levels_are_read_one_for_one(front, quoted);
        assert(pairs[n] == pairs.last());
        match levels_of(front, quoted) {
            Ok(levels) => {
                assert forall|j: int| 0 <= j < n implies is_read_as(
                    (#[trigger] pairs[j]).0,
                    levels[j].price,
                ) && is_read_as(pairs[j].1, levels[j].qty) by {
                    assert(front[j] == pairs[j]);
                }
                match levels_of(pairs, quoted) {
                    Ok(all) => {
                        assert(all.drop_last() =~= levels);
                        assert forall|i: int| 0 <= i < pairs.len() implies is_read_as(
                            (#[trigger] pairs[i]).0,
                            all[i].price,
                        ) && is_read_as(pairs[i].1, all[i].qty) by {
                            if i < n {
                                assert(all[i] == levels[i]);
                            }
                        }
                    },
                    Err(fault) => {
                        assert(0 <= n < pairs.len());
                    },
                }
            },
            Err(fault) => {
                let i = choose|i: int|
                    {
                        &&& 0 <= i < front.len()
                        &&& forall|j: int|
                            0 <= j < i ==> parsed_decimal((#[trigger] front[j]).0) is Ok
                                && parsed_decimal(front[j].1) is Ok
                        &&& if parsed_decimal((#[trigger] front[i]).0) is Err {
                            blames(fault, Field::Price, front[i].0, quoted)
                        } else {
                            blames(fault, Field::Qty, front[i].1, quoted)
                        }
                    };
                assert(pairs[i] == front[i]);
                assert forall|j: int| 0 <= j < i implies parsed_decimal(
                    (#[trigger] pairs[j]).0,
                ) is Ok && parsed_decimal(pairs[j].1) is Ok by {
                    assert(front[j] == pairs[j]);
                }
            },
        }
    }
}

/// The levels are those of the `[price, qty]` pairs, one for one.
pub open spec fn levels_read(raw: Seq<[String; 2]>, levels: Seq<Level>) -> bool {
    &&& levels.len() == raw.len()
    &&& forall|i: int|
        0 <= i < raw.len() ==> is_read_as((#[trigger] raw[i])@[0]@, levels[i].price) && is_read_as(
            raw[i]@[1]@,
            levels[i].qty,
        )
}

/// Every price and every quantity of the pairs can be read.
pub open spec fn all_readable(raw: Seq<[String; 2]>) -> bool {
    forall|i: int|
        0 <= i < raw.len() ==> parsed_decimal((#[trigger] raw[i])@[0]@) is Ok && parsed_decimal(
            raw[i]@[1]@,
        ) is Ok
}

/// Pairs are read exactly if every number of them can be read, and then into one
/// level each, the first text as the price and the second as the quantity.
pub proof fn law_pairs_are_price_and_quantity(raw: Seq<[String; 2]>)
    ensures
        match levels_of(pair_texts(raw), true) {
            Ok(levels) => all_readable(raw) && levels_read(raw, levels),
            Err(_) => !all_readable(raw),
        },
{
    let pairs = pair_texts(raw);
    law_levels_are_read_one_for_one(pairs, true);
    match levels_of(pairs, true) {
        Ok(levels) => {
            assert forall|i: int| 0 <= i < raw.len() implies is_read_as(
                (#[trigger] raw[i])@[0]@,
                levels[i].price,
            ) && is_read_as(raw[i]@[1]@, levels[i].qty) by {
                assert(pairs[i] == (raw[i]@[0]@, raw[i]@[1]@));
            }
        },
        Err(fault) => {
            let i = choose|i: int|
                {
                    &&& 0 <= i < pairs.len()
                    &&& forall|j: int|
                        0 <= j < i ==> parsed_decimal((#[trigger] pairs[j]).0) is Ok
                            && parsed_decimal(pairs[j].1) is Ok
                    &&& if parsed_decimal((#[trigger] pairs[i]).0) is Err {
                        blames(fault, Field::Price, pairs[i].0, true)
                    } else {
                        blames(fault, Field::Qty, pairs[i].1, true)
                    }
                };
            assert(pairs[i] == (raw[i]@[0]@, raw[i]@[1]@));
            assert(parsed_decimal(raw[i]@[0]@) is Err || parsed_decimal(raw[i]@[1]@) is Err);
        },
    }
}

/// Every symbol that is asked for is tracked, in upper case, in its place.
pub proof fn law_every_symbol_is_normalized(symbols: Seq<&str>)
    ensures
        normalized(symbols).len() == symbols.len(),
        forall|i: int|
            0 <= i < symbols.len() ==> #[trigger] normalized(symbols)[i] == uppercase_text(
                symbols[i]@,
            ),
{
}

/// Messages of a symbol are numbered from one on, each one more than the one
/// before it; a snapshot is number zero.
pub proof fn law_messages_are_numbered(counters: Map<Seq<char>, u64>, symbol: Seq<char>, n: u64)
    ensures
        next_sequence(counters, symbol, true) == 0,
        next_sequence(counters.insert(symbol, n), symbol, false) == n + 1,
        next_sequence(counters.remove(symbol), symbol, false) == 1,
{
}

/// The event time `ms` is the instant that the time stamp names: there is one
/// exactly where the stamp is there and names an instant that does not lie
/// before the epoch.
pub open spec fn is_time_of(ms: Option<u64>, stamp: Option<String>) -> bool {
    match stamp {
        Some(text) => match instant_of(text@) {
            Some(instant) => if instant >= 0 {
                ms matches Some(found) && found == instant
            } else {
                ms is None
            },
            None => ms is None,
        },
        None => ms is None,
    }
}

/// The stamp of a message gives the instant that it names.
pub proof fn law_stamp_names_the_event_time(stamp: Option<String>)
    ensures
        is_time_of(stamp_of(stamp), stamp),
{
    match stamp {
        Some(text) => law_milliseconds_are_the_instant(text@),
        None => {},
    }
}

/// Pairs are parsed into one level each, or refused if a number cannot be read.
pub proof fn law_pairs_are_parsed_one_for_one(
    raw: &[[String; 2]],
    r: Result<Vec<Level>, FeedError>,
)
    requires
        call_ensures(parse_levels, (raw,), r),
    ensures
        match r {
            Ok(levels) => levels_read(raw@, levels@),
            Err(_) => !all_readable(raw@),
        },
{
    law_pairs_are_price_and_quantity(raw@);
}

} // verus!
