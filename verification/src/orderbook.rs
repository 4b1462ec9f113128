//! In-memory order book maintained from a snapshot and incremental deltas.

use crate::decimal::{
    decimal_difference, difference_fits, difference_is_exact, lemma_pow10_positive, pow10, Decimal,
    MAX_COEFFICIENT,
};
use crate::text::{is_numeral, law_notation_is_the_numeral, nat_text, u64_text};
use vstd::prelude::*;
use vstd::string::*;

verus! {

/// A single price/quantity update. A quantity of zero deletes the level.
#[derive(Clone, Copy, Debug)]
pub struct Level {
    pub price: Decimal,
    pub qty: Decimal,
}

/// A book event coming off a feed: either a full snapshot that replaces the
/// state of the book, or an incremental delta that changes it.
#[derive(Clone, Debug)]
pub enum BookEvent {
    /// Full replacement of the book. `sequence` is the last update id it covers.
    Snapshot { bids: Vec<Level>, asks: Vec<Level>, sequence: u64 },
    /// Incremental update. `first`/`last` bound the update ids this delta spans.
    /// `event_time_ms` is the event time that the exchange stamped on it, in
    /// epoch milliseconds, and `checksum` the exchange's checksum of the book
    /// after the update, each where the feed provides one.
    Delta {
        bids: Vec<Level>,
        asks: Vec<Level>,
        first: u64,
        last: u64,
        event_time_ms: Option<u64>,
        checksum: Option<u32>,
    },
}

/// What a [`BookEvent`] says.
pub enum EventView {
    Snapshot { bids: Seq<Level>, asks: Seq<Level>, sequence: u64 },
    Delta {
        bids: Seq<Level>,
        asks: Seq<Level>,
        first: u64,
        last: u64,
        event_time_ms: Option<u64>,
        checksum: Option<u32>,
    },
}

impl View for BookEvent {
    type V = EventView;

    open spec fn view(&self) -> EventView {
        match *self {
            BookEvent::Snapshot { bids, asks, sequence } => EventView::Snapshot {
                bids: bids@,
                asks: asks@,
                sequence,
            },
            BookEvent::Delta { bids, asks, first, last, event_time_ms, checksum } => {
                EventView::Delta {
                    bids: bids@,
                    asks: asks@,
                    first,
                    last,
                    event_time_ms,
                    checksum,
                }
            },
        }
    }
}

/// A delta does not line up with the book's update id: one or more messages
/// were missed.
#[derive(Clone, Copy, Debug, PartialEq, Eq, Structural)]
pub struct SequenceGap {
    pub expected: u64,
    pub got: u64,
}

/// The words in which a gap is reported.
pub open spec fn gap_text(gap: SequenceGap) -> Seq<char> {
    "sequence gap: expected "@ + nat_text(gap.expected as nat) + ", got "@ + nat_text(
        gap.got as nat,
    )
}

impl SequenceGap {
    /// The gap in words.
    pub fn to_text(&self) -> (text: String)
        ensures
            text@ == gap_text(*self),
    {
        let mut text: String = String::new();
        text.append("sequence gap: expected ");
        text.append(u64_text(self.expected).as_str());
        text.append(", got ");
        text.append(u64_text(self.got).as_str());
        text
    }
}

/// One side of the book: price and quantity of every level, by ascending price.
pub struct Levels {
    entries: Vec<(Decimal, Decimal)>,
}

/// Prices strictly ascend, so no price is quoted twice.
pub open spec fn ascending(quotes: Seq<(Decimal, Decimal)>) -> bool {
    forall|i: int, j: int|
        0 <= i < j < quotes.len() ==> (#[trigger] quotes[i]).0.units() < (
        #[trigger] quotes[j]).0.units()
}

/// No level is empty.
pub open spec fn all_filled(quotes: Seq<(Decimal, Decimal)>) -> bool {
    forall|i: int| 0 <= i < quotes.len() ==> (#[trigger] quotes[i]).1.units() != 0
}

/// `price` is the price of one of `quotes`.
pub open spec fn quoted(quotes: Seq<(Decimal, Decimal)>, price: int) -> bool {
    exists|i: int| 0 <= i < quotes.len() && (#[trigger] quotes[i]).0.units() == price
}

/// The place of the quote with that price.
pub open spec fn place(quotes: Seq<(Decimal, Decimal)>, price: int) -> int {
    choose|i: int| 0 <= i < quotes.len() && (#[trigger] quotes[i]).0.units() == price
}

/// The quotes, each under its price. Equal prices are one price, whatever the
/// number of decimal places that they are written with.
pub open spec fn by_price(quotes: Seq<(Decimal, Decimal)>) -> Map<int, (Decimal, Decimal)> {
    Map::new(|price: int| quoted(quotes, price), |price: int| quotes[place(quotes, price)])
}

/// The side after one update: the level goes if its quantity is zero; otherwise
/// it is entered or changed. A price that is already quoted keeps the form in
/// which it was entered first.
pub open spec fn with_level(
    side: Map<int, (Decimal, Decimal)>,
    level: Level,
) -> Map<int, (Decimal, Decimal)> {
    let price = level.price.units();
    if level.qty.units() == 0 {
        side.remove(price)
    } else if side.contains_key(price) {
        side.insert(price, (side[price].0, level.qty))
    } else {
        side.insert(price, (level.price, level.qty))
    }
}

/// The side after several updates, in their order.
pub open spec fn with_levels(
    side: Map<int, (Decimal, Decimal)>,
    levels: Seq<Level>,
) -> Map<int, (Decimal, Decimal)>
    decreases levels.len(),
{
    if levels.len() == 0 {
        side
    } else {
        with_level(with_levels(side, levels.drop_last()), levels.last())
    }
}

impl Levels {
    #[verifier::type_invariant]
    spec fn well_formed(self) -> bool {
        &&& ascending(self.entries@)
        &&& all_filled(self.entries@)
    }

    fn new() -> (r: Self)
        ensures
            r.entries@ == Seq::<(Decimal, Decimal)>::empty(),
    {
        Levels { entries: Vec::new() }
    }

    /// The number of levels with a smaller price, which is where the price stands
    /// or would be entered.
    fn locate(&self, price: &Decimal) -> (at: usize)
        ensures
            at <= self.entries@.len(),
            forall|i: int| 0 <= i < at ==> self.entries@[i].0.units() < price.units(),
            forall|i: int|
                at <= i < self.entries@.len() ==> price.units() <= self.entries@[i].0.units(),
    {
        proof {
            use_type_invariant(self);
        }
        let mut low: usize = 0;
        let mut high: usize = self.entries.len();
        while low < high
            invariant
                ascending(self.entries@),
                low <= high <= self.entries@.len(),
                forall|i: int| 0 <= i < low ==> self.entries@[i].0.units() < price.units(),
                forall|i: int|
                    high <= i < self.entries@.len() ==> price.units()
                        <= self.entries@[i].0.units(),
            decreases high - low,
        {
            let middle: usize = low + (high - low) / 2;
            if self.entries[middle].0.less_than(price) {
                low = middle + 1;
            } else {
                high = middle;
            }
        }
        low
    }
}

/// `by_price` of a list that ascends looks up by place.
proof fn lemma_by_price(quotes: Seq<(Decimal, Decimal)>)
    requires
        ascending(quotes),
    ensures
        forall|i: int|
            0 <= i < quotes.len() ==> {
                &&& by_price(quotes).contains_key((#[trigger] quotes[i]).0.units())
                &&& by_price(quotes)[quotes[i].0.units()] == quotes[i]
            },
        forall|price: int| #[trigger]
            by_price(quotes).contains_key(price) ==> exists|i: int|
                0 <= i < quotes.len() && (#[trigger] quotes[i]).0.units() == price,
{
    assert forall|i: int| 0 <= i < quotes.len() implies {
        &&& by_price(quotes).contains_key((#[trigger] quotes[i]).0.units())
        &&& by_price(quotes)[quotes[i].0.units()] == quotes[i]
    } by {
        let price = quotes[i].0.units();
        assert(quoted(quotes, price));
        let j = place(quotes, price);
        assert(0 <= j < quotes.len() && quotes[j].0.units() == price);
        assert(i == j) by {
            if i < j {
                assert(quotes[i].0.units() < quotes[j].0.units());
            } else if j < i {
                assert(quotes[j].0.units() < quotes[i].0.units());
            }
        }
    }
}

/// What entering, changing or removing the quote at place `at` does to the
/// quotes by price.
proof fn lemma_set_level(
    before: Seq<(Decimal, Decimal)>,
    after: Seq<(Decimal, Decimal)>,
    level: Level,
    at: int,
)
    requires
        ascending(before),
        ascending(after),
        0 <= at <= before.len(),
        forall|i: int| 0 <= i < at ==> before[i].0.units() < level.price.units(),
        forall|i: int| at <= i < before.len() ==> level.price.units() <= before[i].0.units(),
        ({
            let found = at < before.len() && before[at].0.units() == level.price.units();
            after == if level.qty.units() == 0 {
                if found {
                    before.remove(at)
                } else {
                    before
                }
            } else if found {
                before.update(at, (before[at].0, level.qty))
            } else {
                before.insert(at, (level.price, level.qty))
            }
        }),
    ensures
        by_price(after) == with_level(by_price(before), level),
{
    let key = level.price.units();
    let found = at < before.len() && before[at].0.units() == key;
    let empty = level.qty.units() == 0;
    let old_map = by_price(before);
    let expected = with_level(old_map, level);
    lemma_by_price(before);
    lemma_by_price(after);
    assert(found == old_map.contains_key(key)) by {
        if old_map.contains_key(key) {
            let i = choose|i: int| 0 <= i < before.len() && (#[trigger] before[i]).0.units() == key;
            assert(at <= i);
            if at < i {
                assert(before[at].0.units() < before[i].0.units());
            }
        } else if found {
            assert(old_map.contains_key(before[at].0.units()));
        }
    }
    assert forall|k: int| by_price(after).contains_key(k) implies expected.contains_key(k)
        && by_price(after)[k] == expected[k] by {
        let i = choose|i: int| 0 <= i < after.len() && (#[trigger] after[i]).0.units() == k;
        if empty && found {
            let j = if i < at {
                i
            } else {
                i + 1
            };
            assert(after[i] == before[j]);
            assert(k != key) by {
                if j < at {
                    assert(before[j].0.units() < before[at].0.units());
                } else {
                    assert(before[at].0.units() < before[j].0.units());
                }
            }
        } else if !empty && !found {
            if i != at {
                let j = if i < at {
                    i
                } else {
                    i - 1
                };
                assert(after[i] == before[j]);
                assert(k != key);
            }
        } else if !empty && i == at {
        } else {
            assert(after[i] == before[i]);
        }
    }
    assert forall|k: int| expected.contains_key(k) implies by_price(after).contains_key(k) by {
        if k == key && !empty {
            assert(after[at].0.units() == key);
        } else {
            assert(old_map.contains_key(k));
            let j = choose|j: int| 0 <= j < before.len() && (#[trigger] before[j]).0.units() == k;
            if empty && found {
                let i = if j < at {
                    j
                } else {
                    j - 1
                };
                assert(j != at);
                assert(after[i] == before[j]);
            } else if !empty && !found {
                let i = if j < at {
                    j
                } else {
                    j + 1
                };
                assert(after[i] == before[j]);
            } else {
                assert(after[j] == before[j]);
            }
        }
    }
    assert(by_price(after) =~= expected);
}

/// Insert/update a level, or remove it when quantity is zero.
fn set_level(side: &mut Levels, l: &Level)
    ensures
        by_price(final(side).entries@) == with_level(by_price(old(side).entries@), *l),
{
    proof {
        use_type_invariant(&*side);
    }
    let at: usize = side.locate(&l.price);
    let found: bool = at < side.entries.len() && !l.price.less_than(&side.entries[at].0);
    let mut entries: Vec<(Decimal, Decimal)> = Vec::new();
    std::mem::swap(&mut entries, &mut side.entries);
    let ghost before = entries@;
    if l.qty.is_zero() {
        if found {
            entries.remove(at);
        }
    } else if found {
        let price: Decimal = entries[at].0;
        entries.set(at, (price, l.qty));
    } else {
        entries.insert(at, (l.price, l.qty));
    }
    proof {
        lemma_set_level(before, entries@, *l, at as int);
    }
    side.entries = entries;
}

/// Updates a side with each of `levels`, in their order.
fn set_levels(side: &mut Levels, levels: &[Level])
    ensures
        by_price(final(side).entries@) == with_levels(by_price(old(side).entries@), levels@),
{
    let ghost before = by_price(side.entries@);
    let mut i: usize = 0;
    assert(levels@.take(0) =~= Seq::<Level>::empty());
    while i < levels.len()
        invariant
            i <= levels@.len(),
            by_price(side.entries@) == with_levels(before, levels@.take(i as int)),
        decreases levels@.len() - i,
    {
        set_level(side, &levels[i]);
        i = i + 1;
        proof {
            assert(levels@.take(i as int).drop_last() =~= levels@.take(i as int - 1));
            assert(levels@.take(i as int).last() == levels@[i as int - 1]);
        }
    }
    assert(levels@.take(i as int) =~= levels@);
}

/// What a book says: both sides by price, the last update id reflected in them,
/// and whether a snapshot has seeded it.
pub struct BookView {
    pub bids: Map<int, (Decimal, Decimal)>,
    pub asks: Map<int, (Decimal, Decimal)>,
    pub last_update_id: u64,
    pub initialized: bool,
}

/// An order book.
pub struct OrderBook {
    bids: Levels,
    asks: Levels,
    /// Last update id currently reflected in the book.
    last_update_id: u64,
    initialized: bool,
}

/// The book that holds nothing and waits for a snapshot.
pub open spec fn empty_book() -> BookView {
    BookView {
        bids: Map::empty(),
        asks: Map::empty(),
        last_update_id: 0,
        initialized: false,
    }
}

/// The book that a snapshot sets up, whatever was there before.
pub open spec fn snapshot_book(bids: Seq<Level>, asks: Seq<Level>, sequence: u64) -> BookView {
    BookView {
        bids: with_levels(Map::empty(), bids),
        asks: with_levels(Map::empty(), asks),
        last_update_id: sequence,
        initialized: true,
    }
}

/// The gap between the book and a delta that spans `first` to `last`: there is
/// one if the book was never seeded, or if the delta brings news but starts
/// beyond the next update id.
pub open spec fn gap_before(book: BookView, first: u64, last: u64) -> Option<SequenceGap> {
    if !book.initialized {
        Some(SequenceGap { expected: 0, got: first })
    } else if last > book.last_update_id && first > book.last_update_id + 1 {
        Some(SequenceGap { expected: (book.last_update_id + 1) as u64, got: first })
    } else {
        None
    }
}

/// The book already reflects everything up to `last`.
pub open spec fn is_stale(book: BookView, last: u64) -> bool {
    book.initialized && last <= book.last_update_id
}

/// The delta is applied: it is neither stale nor behind a gap.
pub open spec fn is_next(book: BookView, first: u64, last: u64) -> bool {
    book.initialized && first <= book.last_update_id + 1 <= last
}

/// The book after a delta.
pub open spec fn delta_book(
    book: BookView,
    bids: Seq<Level>,
    asks: Seq<Level>,
    first: u64,
    last: u64,
) -> BookView {
    if is_next(book, first, last) {
        BookView {
            bids: with_levels(book.bids, bids),
            asks: with_levels(book.asks, asks),
            last_update_id: last,
            initialized: true,
        }
    } else {
        book
    }
}

/// The book after an event.
pub open spec fn event_book(book: BookView, event: EventView) -> BookView {
    match event {
        EventView::Snapshot { bids, asks, sequence } => snapshot_book(bids, asks, sequence),
        EventView::Delta { bids, asks, first, last, event_time_ms, checksum } => delta_book(
            book,
            bids,
            asks,
            first,
            last,
        ),
    }
}

/// The gap between the book and an event: a snapshot has none.
pub open spec fn gap_before_event(book: BookView, event: EventView) -> Option<SequenceGap> {
    match event {
        EventView::Snapshot { bids, asks, sequence } => None,
        EventView::Delta { bids, asks, first, last, event_time_ms, checksum } => gap_before(
            book,
            first,
            last,
        ),
    }
}

/// The smaller of two numbers.
pub open spec fn smaller(a: nat, b: nat) -> nat {
    if a < b {
        a
    } else {
        b
    }
}

/// The first `n` of `quotes`, or all of them if there are fewer.
pub open spec fn first_n(quotes: Seq<(Decimal, Decimal)>, n: nat) -> Seq<(Decimal, Decimal)> {
    if n < quotes.len() {
        quotes.take(n as int)
    } else {
        quotes
    }
}

/// The last `n` of `quotes`, or all of them if there are fewer.
pub open spec fn last_n(quotes: Seq<(Decimal, Decimal)>, n: nat) -> Seq<(Decimal, Decimal)> {
    if n < quotes.len() {
        quotes.skip(quotes.len() - n)
    } else {
        quotes
    }
}

impl View for OrderBook {
    type V = BookView;

    open spec fn view(&self) -> BookView {
        BookView {
            bids: by_price(self.bids()),
            asks: by_price(self.asks()),
            last_update_id: self.update_id(),
            initialized: self.seeded(),
        }
    }
}

impl OrderBook {
    /// The bids by ascending price.
    pub closed spec fn bids(self) -> Seq<(Decimal, Decimal)> {
        self.bids.entries@
    }

    /// The asks by ascending price.
    pub closed spec fn asks(self) -> Seq<(Decimal, Decimal)> {
        self.asks.entries@
    }

    /// The last update id reflected in the book.
    pub closed spec fn update_id(self) -> u64 {
        self.last_update_id
    }

    /// Whether a snapshot was applied.
    pub closed spec fn seeded(self) -> bool {
        self.initialized
    }

    /// Prices ascend on both sides, and no level is empty.
    pub open spec fn well_formed(self) -> bool {
        &&& ascending(self.bids())
        &&& ascending(self.asks())
        &&& all_filled(self.bids())
        &&& all_filled(self.asks())
    }

    /// Both sides are populated, and the spread between them is out of range.
    pub open spec fn spread_overflows(self) -> bool {
        &&& self.bids().len() > 0
        &&& self.asks().len() > 0
        &&& !difference_fits(self.asks().first().0, self.bids().last().0)
    }

    /// An empty book.
    pub fn new() -> (book: OrderBook)
        ensures
            book.well_formed(),
            book@ == empty_book(),
            book.bids() == Seq::<(Decimal, Decimal)>::empty(),
            book.asks() == Seq::<(Decimal, Decimal)>::empty(),
    {
        let book = OrderBook {
            bids: Levels::new(),
            asks: Levels::new(),
            last_update_id: 0,
            initialized: false,
        };
        proof {
            assert(by_price(book.bids()) =~= Map::empty());
            assert(by_price(book.asks()) =~= Map::empty());
        }
        book
    }

    /// Last update id currently reflected in the book.
    pub fn last_update_id(&self) -> (id: u64)
        ensures
            id == self@.last_update_id,
    {
        self.last_update_id
    }

    /// Replace the entire book from a snapshot.
    pub fn apply_snapshot(&mut self, bids: &[Level], asks: &[Level], sequence: u64)
        ensures
            final(self).well_formed(),
            final(self)@ == snapshot_book(bids@, asks@, sequence),
            final(self)@.last_update_id == sequence,
            final(self)@.initialized,
    {
        self.bids = Levels::new();
        self.asks = Levels::new();
        proof {
            assert(by_price(self.bids.entries@) =~= Map::empty());
            assert(by_price(self.asks.entries@) =~= Map::empty());
        }
        set_levels(&mut self.bids, bids);
        set_levels(&mut self.asks, asks);
        self.last_update_id = sequence;
        self.initialized = true;
        proof {
            use_type_invariant(&self.bids);
            use_type_invariant(&self.asks);
        }
    }

    /// Apply an incremental delta.
    ///
    /// `first`/`last` bound the update ids carried by the delta. It is applied
    /// only if it is contiguous with the book: `first <= last_update_id + 1 <=
    /// last`. A delta that starts beyond the next expected id is a
    /// [`SequenceGap`]; one that lies entirely below the current id is ignored.
    pub fn apply_delta(
        &mut self,
        bids: &[Level],
        asks: &[Level],
        first: u64,
        last: u64,
    ) -> (r: Result<bool, SequenceGap>)
        ensures
            final(self).well_formed(),
            final(self)@ == delta_book(old(self)@, bids@, asks@, first, last),
            match r {
                Ok(applied) => {
                    &&& gap_before(old(self)@, first, last) is None
                    &&& applied == !is_stale(old(self)@, last)
                },
                Err(gap) => gap_before(old(self)@, first, last) == Some(gap),
            },
            r != Ok::<bool, SequenceGap>(true) ==> *final(self) == *old(self),
            match r {
                Ok(true) => {
                    &&& old(self)@.initialized
                    &&& first <= old(self)@.last_update_id + 1 <= last
                    &&& final(self)@.last_update_id == last
                },
                Ok(false) => old(self)@.initialized && last <= old(self)@.last_update_id,
                Err(gap) => {
                    &&& gap.got == first
                    &&& if old(self)@.initialized {
                        &&& last > old(self)@.last_update_id
                        &&& first > old(self)@.last_update_id + 1
                        &&& gap.expected == old(self)@.last_update_id + 1
                    } else {
                        gap.expected == 0
                    }
                },
            },
    {
        proof {
            use_type_invariant(&self.bids);
            use_type_invariant(&self.asks);
        }
        if !self.initialized {
            return Err(SequenceGap { expected: 0, got: first });
        }
        // Entirely stale (already applied): drop silently.

        if last <= self.last_update_id {
            return Ok(false);
        }
        let expected: u64 = self.last_update_id + 1;
        // A gap exists if this delta begins after the id we were expecting.
        if first > expected {
            return Err(SequenceGap { expected, got: first });
        }
        set_levels(&mut self.bids, bids);
        set_levels(&mut self.asks, asks);
        self.last_update_id = last;
        proof {
            use_type_invariant(&self.bids);
            use_type_invariant(&self.asks);
        }
        Ok(true)
    }

    /// Whether a delta that spans `first` to `last` would be applied.
    pub fn accepts(&self, first: u64, last: u64) -> (r: bool)
        ensures
            r == is_next(self@, first, last),
            r == (self@.initialized && first <= self@.last_update_id + 1 <= last),
    {
        self.initialized && last > self.last_update_id && first <= self.last_update_id + 1
    }

    /// Keep the best `limit` levels of each side: the highest bids and the
    /// lowest asks.
    pub fn retain_top(&mut self, limit: usize)
        ensures
            final(self).well_formed(),
            final(self).bids() == last_n(old(self).bids(), limit as nat),
            final(self).asks() == first_n(old(self).asks(), limit as nat),
            final(self).bids().len() == smaller(old(self).bids().len(), limit as nat),
            final(self).asks().len() == smaller(old(self).asks().len(), limit as nat),
            forall|i: int|
                0 <= i < final(self).bids().len() ==> #[trigger] final(self).bids()[i]
                    == old(self).bids()[old(self).bids().len() - final(self).bids().len() + i],
            forall|i: int|
                0 <= i < final(self).asks().len() ==> #[trigger] final(self).asks()[i]
                    == old(self).asks()[i],
            final(self)@.last_update_id == old(self)@.last_update_id,
            final(self)@.initialized == old(self)@.initialized,
    {
        proof {
            use_type_invariant(&self.bids);
            use_type_invariant(&self.asks);
        }
        let mut bids: Vec<(Decimal, Decimal)> = Vec::new();
        std::mem::swap(&mut bids, &mut self.bids.entries);
        if limit < bids.len() {
            let drop: usize = bids.len() - limit;
            bids = bids.split_off(drop);
        }
        self.bids = Levels { entries: bids };
        let mut asks: Vec<(Decimal, Decimal)> = Vec::new();
        std::mem::swap(&mut asks, &mut self.asks.entries);
        if limit < asks.len() {
            asks.truncate(limit);
        }
        self.asks = Levels { entries: asks };
        assert(self.bids() =~= last_n(old(self).bids(), limit as nat));
        assert(self.asks() =~= first_n(old(self).asks(), limit as nat));
    }

    /// Best bid (highest price).
    pub fn best_bid(&self) -> (best: Option<(Decimal, Decimal)>)
        ensures
            best == if self.bids().len() == 0 {
                None
            } else {
                Some(self.bids().last())
            },
            match best {
                None => forall|price: int| !(#[trigger] self@.bids.contains_key(price)),
                Some(quote) => {
                    &&& self@.bids.contains_key(quote.0.units())
                    &&& self@.bids[quote.0.units()] == quote
                    &&& forall|price: int| #[trigger]
                        self@.bids.contains_key(price) ==> price <= quote.0.units()
                },
            },
    {
        proof {
            use_type_invariant(&self.bids);
            lemma_by_price(self.bids());
        }
        let n: usize = self.bids.entries.len();
        if n == 0 {
            None
        } else {
            Some(self.bids.entries[n - 1])
        }
    }

    /// Best ask (lowest price).
    pub fn best_ask(&self) -> (best: Option<(Decimal, Decimal)>)
        ensures
            best == if self.asks().len() == 0 {
                None
            } else {
                Some(self.asks().first())
            },
            match best {
                None => forall|price: int| !(#[trigger] self@.asks.contains_key(price)),
                Some(quote) => {
                    &&& self@.asks.contains_key(quote.0.units())
                    &&& self@.asks[quote.0.units()] == quote
                    &&& forall|price: int| #[trigger]
                        self@.asks.contains_key(price) ==> quote.0.units() <= price
                },
            },
    {
        proof {
            use_type_invariant(&self.asks);
            lemma_by_price(self.asks());
        }
        if self.asks.entries.len() == 0 {
            None
        } else {
            Some(self.asks.entries[0])
        }
    }

    /// Whether [`OrderBook::spread`] can be computed: it cannot where the two
    /// best prices lie further apart than a decimal reaches.
    pub fn has_spread_in_range(&self) -> (r: bool)
        ensures
            r == !self.spread_overflows(),
    {
        match (self.best_bid(), self.best_ask()) {
            (Some((b, _)), Some((a, _))) => a.minus(&b).is_some(),
            _ => true,
        }
    }

    /// Spread between best ask and best bid, if both sides are populated.
    pub fn spread(&self) -> (spread: Option<Decimal>)
        requires
            !self.spread_overflows(),
        ensures
            match spread {
                None => self.bids().len() == 0 || self.asks().len() == 0,
                Some(d) => {
                    let bid = self.bids().last().0;
                    let ask = self.asks().first().0;
                    &&& self.bids().len() > 0
                    &&& self.asks().len() > 0
                    &&& d == decimal_difference(ask, bid)
                    &&& difference_is_exact(ask, bid) ==> d.units() == ask.units() - bid.units()
                },
            },
    {
        match (self.best_bid(), self.best_ask()) {
            (Some((b, _)), Some((a, _))) => a.minus(&b),
            _ => None,
        }
    }

    /// Top `n` bids, highest price first.
    pub fn top_bids(&self, n: usize) -> (top: Vec<(Decimal, Decimal)>)
        ensures
            top@ == first_n(self.bids().reverse(), n as nat),
            ascending(self.bids()),
            top@.len() == smaller(self.bids().len(), n as nat),
            forall|i: int|
                0 <= i < top@.len() ==> #[trigger] top@[i] == self.bids()[self.bids().len() - 1
                    - i],
    {
        proof {
            use_type_invariant(&self.bids);
        }
        let mut top: Vec<(Decimal, Decimal)> = Vec::new();
        let len: usize = self.bids.entries.len();
        while top.len() < n && top.len() < len
            invariant
                len == self.bids().len(),
                top@.len() <= len,
                top@.len() <= n,
                top@ == self.bids().reverse().take(top@.len() as int),
            decreases len - top@.len(),
        {
            top.push(self.bids.entries[len - 1 - top.len()]);
            assert(top@ =~= self.bids().reverse().take(top@.len() as int));
        }
        assert(top@ =~= first_n(self.bids().reverse(), n as nat));
        top
    }

    /// Top `n` asks, lowest price first.
    pub fn top_asks(&self, n: usize) -> (top: Vec<(Decimal, Decimal)>)
        ensures
            top@ == first_n(self.asks(), n as nat),
            ascending(self.asks()),
            top@.len() == smaller(self.asks().len(), n as nat),
            forall|i: int| 0 <= i < top@.len() ==> #[trigger] top@[i] == self.asks()[i],
    {
        proof {
            use_type_invariant(&self.asks);
        }
        let mut top: Vec<(Decimal, Decimal)> = Vec::new();
        let len: usize = self.asks.entries.len();
        while top.len() < n && top.len() < len
            invariant
                len == self.asks().len(),
                top@.len() <= len,
                top@.len() <= n,
                top@ == self.asks().take(top@.len() as int),
            decreases len - top@.len(),
        {
            top.push(self.asks.entries[top.len()]);
            assert(top@ =~= self.asks().take(top@.len() as int));
        }
        assert(top@ =~= first_n(self.asks(), n as nat));
        top
    }

    /// The number of bid levels and of ask levels.
    pub fn depth(&self) -> (r: (usize, usize))
        ensures
            r.0 == self.bids().len(),
            r.1 == self.asks().len(),
    {
        (self.bids.entries.len(), self.asks.entries.len())
    }
}

/// A list by ascending price is settled by what it says of each price.
pub proof fn law_quotes_by_price_settle_the_list(
    a: Seq<(Decimal, Decimal)>,
    b: Seq<(Decimal, Decimal)>,
)
    requires
        ascending(a),
        ascending(b),
        by_price(a) == by_price(b),
    ensures
        a == b,
    decreases a.len(),
{
    lemma_by_price(a);
    lemma_by_price(b);
    if a.len() == 0 {
        if b.len() > 0 {
            assert(by_price(a).contains_key(b[0].0.units()));
        }
    } else {
        assert(by_price(b).contains_key(a.last().0.units()));
        assert(by_price(a).contains_key(b.last().0.units()));
        let i = choose|i: int|
            0 <= i < b.len() && (#[trigger] b[i]).0.units() == a.last().0.units();
        let j = choose|j: int|
            0 <= j < a.len() && (#[trigger] a[j]).0.units() == b.last().0.units();
        assert(a.last().0.units() == b.last().0.units());
        assert(a.last() == b.last());
        let x = a.drop_last();
        let y = b.drop_last();
        lemma_by_price(x);
        lemma_by_price(y);
        let top = a.last().0.units();
        assert forall|k: int| by_price(x).contains_key(k) <==> by_price(y).contains_key(k) by {
            if by_price(x).contains_key(k) {
                let p = choose|p: int| 0 <= p < x.len() && (#[trigger] x[p]).0.units() == k;
                assert(a[p].0.units() == k);
                assert(by_price(b).contains_key(k));
                let q = choose|q: int| 0 <= q < b.len() && (#[trigger] b[q]).0.units() == k;
                assert(a[p].0.units() < a[a.len() - 1].0.units());
                assert(y[q] == b[q]);
            }
            if by_price(y).contains_key(k) {
                let q = choose|q: int| 0 <= q < y.len() && (#[trigger] y[q]).0.units() == k;
                assert(b[q].0.units() == k);
                assert(by_price(a).contains_key(k));
                let p = choose|p: int| 0 <= p < a.len() && (#[trigger] a[p]).0.units() == k;
                assert(b[q].0.units() < b[b.len() - 1].0.units());
                assert(x[p] == a[p]);
            }
        }
        assert forall|k: int| by_price(x).contains_key(k) implies by_price(x)[k] == by_price(
            y,
        )[k] by {
            let p = choose|p: int| 0 <= p < x.len() && (#[trigger] x[p]).0.units() == k;
            let q = choose|q: int| 0 <= q < y.len() && (#[trigger] y[q]).0.units() == k;
            assert(x[p] == a[p]);
            assert(y[q] == b[q]);
        }
        assert(by_price(x) =~= by_price(y));
        law_quotes_by_price_settle_the_list(x, y);
        assert(a =~= x.push(a.last()));
        assert(b =~= y.push(b.last()));
    }
}

/// Every delta meets exactly one fate: it is applied, ignored as stale, or
/// reported as a gap.
pub proof fn law_delta_has_one_fate(book: BookView, first: u64, last: u64)
    ensures
        is_next(book, first, last) ==> !is_stale(book, last) && gap_before(
            book,
            first,
            last,
        ) is None,
        is_stale(book, last) ==> gap_before(book, first, last) is None,
        is_next(book, first, last) || is_stale(book, last) || gap_before(book, first, last) is Some,
{
}

/// The update id of a book never decreases under a delta, and a delta that is
/// not applied changes nothing.
pub proof fn law_update_id_never_decreases(
    book: BookView,
    bids: Seq<Level>,
    asks: Seq<Level>,
    first: u64,
    last: u64,
)
    ensures
        book.last_update_id <= delta_book(book, bids, asks, first, last).last_update_id,
        !is_next(book, first, last) ==> delta_book(book, bids, asks, first, last) == book,
{
}

/// Delivering a delta twice is the same as delivering it once: the second time
/// it is stale.
pub proof fn law_redelivered_delta_is_stale(
    book: BookView,
    bids: Seq<Level>,
    asks: Seq<Level>,
    first: u64,
    last: u64,
)
    requires
        is_next(book, first, last),
    ensures
        ({
            let after = delta_book(book, bids, asks, first, last);
            &&& is_stale(after, last)
            &&& delta_book(after, bids, asks, first, last) == after
        }),
{
}

/// After a delta is applied, the one that starts at the following update id is
/// applied too.
pub proof fn law_contiguous_deltas_are_applied(
    book: BookView,
    bids: Seq<Level>,
    asks: Seq<Level>,
    first: u64,
    last: u64,
    next_first: u64,
    next_last: u64,
)
    requires
        is_next(book, first, last),
        next_first == last + 1,
        next_first <= next_last,
    ensures
        is_next(delta_book(book, bids, asks, first, last), next_first, next_last),
{
}

/// If a delta that was due is lost, the one that follows it is reported as a
/// gap: the update id that was due was expected, and not got.
pub proof fn law_lost_delta_is_a_gap(
    book: BookView,
    first: u64,
    last: u64,
    next_first: u64,
    next_last: u64,
)
    requires
        is_next(book, first, last),
        next_first == last + 1,
        next_first <= next_last,
    ensures
        gap_before(book, next_first, next_last) == Some(
            SequenceGap { expected: (book.last_update_id + 1) as u64, got: next_first },
        ),
{
}

/// Updating in one batch or in two, one after the other, gives the same side.
pub proof fn law_batching_levels(
    side: Map<int, (Decimal, Decimal)>,
    a: Seq<Level>,
    b: Seq<Level>,
)
    ensures
        with_levels(side, a + b) == with_levels(with_levels(side, a), b),
    decreases b.len(),
{
    if b.len() == 0 {
        assert(a + b =~= a);
    } else {
        assert((a + b).drop_last() =~= a + b.drop_last());
        assert((a + b).last() == b.last());
        law_batching_levels(side, a, b.drop_last());
    }
}

/// Two contiguous deltas leave the book that one delta with the levels of both
/// leaves.
pub proof fn law_batching_deltas(
    book: BookView,
    bids: Seq<Level>,
    asks: Seq<Level>,
    first: u64,
    last: u64,
    next_bids: Seq<Level>,
    next_asks: Seq<Level>,
    next_first: u64,
    next_last: u64,
)
    requires
        is_next(book, first, last),
        next_first == last + 1,
        next_first <= next_last,
    ensures
        delta_book(
            delta_book(book, bids, asks, first, last),
            next_bids,
            next_asks,
            next_first,
            next_last,
        ) == delta_book(book, bids + next_bids, asks + next_asks, first, next_last),
{
    law_batching_levels(book.bids, bids, next_bids);
    law_batching_levels(book.asks, asks, next_asks);
}

/// Updates of different prices do not depend on their order.
pub proof fn law_levels_at_different_prices_commute(
    side: Map<int, (Decimal, Decimal)>,
    a: Level,
    b: Level,
)
    requires
        a.price.units() != b.price.units(),
    ensures
        with_level(with_level(side, a), b) == with_level(with_level(side, b), a),
{
    assert(with_level(with_level(side, a), b) =~= with_level(with_level(side, b), a));
}

/// An update touches its own price only; there it leaves its quantity, or
/// nothing if that is zero.
pub proof fn law_level_sets_its_price(side: Map<int, (Decimal, Decimal)>, level: Level)
    ensures
        ({
            let after = with_level(side, level);
            let price = level.price.units();
            &&& level.qty.units() == 0 ==> !after.contains_key(price)
            &&& level.qty.units() != 0 ==> after.contains_key(price) && after[price].1 == level.qty
            &&& forall|other: int|
                other != price ==> {
                    &&& #[trigger] after.contains_key(other) == side.contains_key(other)
                    &&& side.contains_key(other) ==> after[other] == side[other]
                }
        }),
{
}

/// A price that no update mentions keeps its level.
pub proof fn law_unmentioned_prices_stay(
    side: Map<int, (Decimal, Decimal)>,
    levels: Seq<Level>,
    price: int,
)
    requires
        forall|i: int| 0 <= i < levels.len() ==> (#[trigger] levels[i]).price.units() != price,
    ensures
        with_levels(side, levels).contains_key(price) == side.contains_key(price),
        side.contains_key(price) ==> with_levels(side, levels)[price] == side[price],
    decreases levels.len(),
{
    if levels.len() > 0 {
        let front = levels.drop_last();
        assert forall|i: int| 0 <= i < front.len() implies (#[trigger] front[i]).price.units()
            != price by {
            assert(front[i] == levels[i]);
        }
        law_unmentioned_prices_stay(side, front, price);
        assert(levels[levels.len() - 1] == levels.last());
    }
}

/// Of several updates of a price the last one counts: it leaves its quantity, or
/// nothing if that is zero.
pub proof fn law_last_level_of_a_price_counts(
    side: Map<int, (Decimal, Decimal)>,
    levels: Seq<Level>,
    i: int,
)
    requires
        0 <= i < levels.len(),
        forall|j: int|
            i < j < levels.len() ==> (#[trigger] levels[j]).price.units()
                != levels[i].price.units(),
    ensures
        ({
            let after = with_levels(side, levels);
            let price = levels[i].price.units();
            &&& levels[i].qty.units() == 0 ==> !after.contains_key(price)
            &&& levels[i].qty.units() != 0 ==> after.contains_key(price) && after[price].1
                == levels[i].qty
        }),
    decreases levels.len(),
{
    let front = levels.drop_last();
    if i < front.len() {
        assert forall|j: int| i < j < front.len() implies (#[trigger] front[j]).price.units()
            != front[i].price.units() by {
            assert(front[j] == levels[j]);
        }
        law_last_level_of_a_price_counts(side, front, i);
        assert(levels[levels.len() - 1] == levels.last());
        assert(front[i] == levels[i]);
    }
}

/// Truncation keeps the best: no side is longer than the limit, what is
/// dropped is worse than everything that is kept, and with a limit of one or
/// more the best bid and the best ask stay.
pub proof fn law_truncation_keeps_the_best(
    bids: Seq<(Decimal, Decimal)>,
    asks: Seq<(Decimal, Decimal)>,
    limit: nat,
)
    requires
        ascending(bids),
        ascending(asks),
    ensures
        last_n(bids, limit).len() <= limit,
        first_n(asks, limit).len() <= limit,
        limit > 0 && bids.len() > 0 ==> last_n(bids, limit).len() > 0 && last_n(bids, limit).last()
            == bids.last(),
        limit > 0 && asks.len() > 0 ==> first_n(asks, limit).len() > 0 && first_n(
            asks,
            limit,
        ).first() == asks.first(),
        forall|i: int, j: int|
            0 <= i < bids.len() - last_n(bids, limit).len() && 0 <= j < last_n(bids, limit).len()
                ==> (#[trigger] bids[i]).0.units() < (#[trigger] last_n(bids, limit)[j]).0.units(),
        forall|i: int, j: int|
            first_n(asks, limit).len() <= i < asks.len() && 0 <= j < first_n(asks, limit).len()
                ==> (#[trigger] first_n(asks, limit)[j]).0.units() < (
            #[trigger] asks[i]).0.units(),
{
}

/// Truncating to the same depth again changes nothing.
pub proof fn law_truncation_is_idempotent(quotes: Seq<(Decimal, Decimal)>, limit: nat)
    ensures
        last_n(last_n(quotes, limit), limit) == last_n(quotes, limit),
        first_n(first_n(quotes, limit), limit) == first_n(quotes, limit),
{
}

/// What becomes of a delta, over the update ids. A book without a snapshot
/// reports every delta as a gap. Of a seeded book, a delta is applied exactly if
/// `first <= id + 1 <= last`, however far below the book's id it starts; it is
/// stale exactly if `last <= id`; and it is behind a gap exactly if it brings
/// news and `first > id + 1`. A gap names the id that was due and the one that
/// came.
pub proof fn law_update_ids_decide(
    book: BookView,
    bids: Seq<Level>,
    asks: Seq<Level>,
    first: u64,
    last: u64,
)
    ensures
        is_next(book, first, last) <==> book.initialized && first <= book.last_update_id + 1
            && book.last_update_id + 1 <= last,
        is_stale(book, last) <==> book.initialized && last <= book.last_update_id,
        gap_before(book, first, last) is Some <==> !book.initialized || (last
            > book.last_update_id && first > book.last_update_id + 1),
        gap_before(book, first, last) matches Some(gap) ==> gap.got == first && gap.expected
            == if book.initialized {
            book.last_update_id + 1
        } else {
            0
        },
        delta_book(book, bids, asks, first, last).last_update_id == if book.initialized && first
            <= book.last_update_id + 1 && book.last_update_id + 1 <= last {
            last
        } else {
            book.last_update_id
        },
        delta_book(book, bids, asks, first, last).initialized == book.initialized,
{
}

/// No later one of the levels has the price of level `i`.
pub open spec fn is_last_of_its_price(levels: Seq<Level>, i: int) -> bool {
    forall|j: int|
        i < j < levels.len() ==> (#[trigger] levels[j]).price.units() != levels[i].price.units()
}

/// One of the levels has the price.
pub open spec fn mentions(levels: Seq<Level>, price: int) -> bool {
    exists|i: int| 0 <= i < levels.len() && (#[trigger] levels[i]).price.units() == price
}

/// A snapshot fills the book with its levels and with nothing else, however many
/// there are: each level whose price no later one of its side repeats stands
/// under its price with its quantity, or is absent if that is zero, and the book
/// holds no price that the snapshot does not list.
pub proof fn law_snapshot_holds_its_levels(bids: Seq<Level>, asks: Seq<Level>, sequence: u64)
    ensures
        ({
            let book = snapshot_book(bids, asks, sequence);
            &&& book.initialized
            &&& book.last_update_id == sequence
            &&& forall|i: int|
                0 <= i < bids.len() && is_last_of_its_price(bids, i) ==> {
                    let price = (#[trigger] bids[i]).price.units();
                    &&& book.bids.contains_key(price) <==> bids[i].qty.units() != 0
                    &&& bids[i].qty.units() != 0 ==> book.bids[price].1 == bids[i].qty
                }
            &&& forall|i: int|
                0 <= i < asks.len() && is_last_of_its_price(asks, i) ==> {
                    let price = (#[trigger] asks[i]).price.units();
                    &&& book.asks.contains_key(price) <==> asks[i].qty.units() != 0
                    &&& asks[i].qty.units() != 0 ==> book.asks[price].1 == asks[i].qty
                }
            &&& forall|price: int| #[trigger] book.bids.contains_key(price) ==> mentions(bids, price)
            &&& forall|price: int| #[trigger] book.asks.contains_key(price) ==> mentions(asks, price)
        }),
{
    let nothing = Map::<int, (Decimal, Decimal)>::empty();
    lemma_levels_entered(nothing, bids);
    lemma_levels_entered(nothing, asks);
}

/// Levels that are entered set their prices, and leave all others alone.
proof fn lemma_levels_entered(side: Map<int, (Decimal, Decimal)>, levels: Seq<Level>)
    ensures
        ({
            let after = with_levels(side, levels);
            &&& forall|i: int|
                0 <= i < levels.len() && is_last_of_its_price(levels, i) ==> {
                    let price = (#[trigger] levels[i]).price.units();
                    &&& after.contains_key(price) <==> levels[i].qty.units() != 0
                    &&& levels[i].qty.units() != 0 ==> after[price].1 == levels[i].qty
                }
            &&& forall|price: int|
                !mentions(levels, price) ==> #[trigger] after.contains_key(price)
                    == side.contains_key(price) && (side.contains_key(price) ==> after[price]
                    == side[price])
        }),
{
    let after = with_levels(side, levels);
    assert forall|i: int| 0 <= i < levels.len() && is_last_of_its_price(levels, i) implies {
        let price = (#[trigger] levels[i]).price.units();
        &&& after.contains_key(price) <==> levels[i].qty.units() != 0
        &&& levels[i].qty.units() != 0 ==> after[price].1 == levels[i].qty
    } by {
        law_last_level_of_a_price_counts(side, levels, i);
    }
    assert forall|price: int| !mentions(levels, price) implies #[trigger] after.contains_key(price)
        == side.contains_key(price) && (side.contains_key(price) ==> after[price]
        == side[price]) by {
        law_unmentioned_prices_stay(side, levels, price);
    }
}

/// A delta whose ids line up sets the prices that it lists, on their side, and
/// leaves every other price as it was; any other delta leaves all of them.
pub proof fn law_delta_sets_its_levels(
    book: BookView,
    bids: Seq<Level>,
    asks: Seq<Level>,
    first: u64,
    last: u64,
)
    requires
        book.initialized,
    ensures
        ({
            let after = delta_book(book, bids, asks, first, last);
            if first <= book.last_update_id + 1 && book.last_update_id + 1 <= last {
                &&& forall|i: int|
                    0 <= i < bids.len() && is_last_of_its_price(bids, i) ==> {
                        let price = (#[trigger] bids[i]).price.units();
                        &&& after.bids.contains_key(price) <==> bids[i].qty.units() != 0
                        &&& bids[i].qty.units() != 0 ==> after.bids[price].1 == bids[i].qty
                    }
                &&& forall|i: int|
                    0 <= i < asks.len() && is_last_of_its_price(asks, i) ==> {
                        let price = (#[trigger] asks[i]).price.units();
                        &&& after.asks.contains_key(price) <==> asks[i].qty.units() != 0
                        &&& asks[i].qty.units() != 0 ==> after.asks[price].1 == asks[i].qty
                    }
                &&& forall|price: int|
                    !mentions(bids, price) ==> #[trigger] after.bids.contains_key(price)
                        == book.bids.contains_key(price) && (book.bids.contains_key(price)
                        ==> after.bids[price] == book.bids[price])
                &&& forall|price: int|
                    !mentions(asks, price) ==> #[trigger] after.asks.contains_key(price)
                        == book.asks.contains_key(price) && (book.asks.contains_key(price)
                        ==> after.asks[price] == book.asks[price])
            } else {
                after.bids == book.bids && after.asks == book.asks
            }
        }),
{
    lemma_levels_entered(book.bids, bids);
    lemma_levels_entered(book.asks, asks);
}

/// Every entry stands under its own price, and keeps to it under updates.
pub open spec fn is_keyed(side: Map<int, (Decimal, Decimal)>) -> bool {
    forall|price: int| #[trigger] side.contains_key(price) ==> side[price].0.units() == price
}

/// Entries stand under their own price. A price that is quoted keeps the form in
/// which it was entered; a new one is entered in the form of the update.
pub proof fn law_entries_keep_their_price(side: Map<int, (Decimal, Decimal)>, level: Level)
    requires
        is_keyed(side),
    ensures
        is_keyed(with_level(side, level)),
        level.qty.units() != 0 ==> with_level(side, level)[level.price.units()].0
            == if side.contains_key(level.price.units()) {
            side[level.price.units()].0
        } else {
            level.price
        },
{
}

/// The list of a side holds the quotes of the side, and no others: one for each
/// price, in its place.
pub proof fn law_list_holds_the_side(quotes: Seq<(Decimal, Decimal)>, i: int)
    requires
        ascending(quotes),
        0 <= i < quotes.len(),
    ensures
        by_price(quotes).contains_key(quotes[i].0.units()),
        by_price(quotes)[quotes[i].0.units()] == quotes[i],
        is_keyed(by_price(quotes)),
        forall|price: int| #[trigger]
            by_price(quotes).contains_key(price) ==> quotes.contains(by_price(quotes)[price]),
{
    lemma_by_price(quotes);
    assert forall|price: int| #[trigger] by_price(quotes).contains_key(price) implies quotes.contains(
        by_price(quotes)[price],
    ) && by_price(quotes)[price].0.units() == price by {
        let j = choose|j: int| 0 <= j < quotes.len() && (#[trigger] quotes[j]).0.units() == price;
        assert(by_price(quotes)[price] == quotes[j]);
    }
}

/// Truncation keeps as many levels as the limit allows, from the good end of the
/// list: the highest bids and the lowest asks, as they were.
pub proof fn law_truncation_keeps_the_good_end(quotes: Seq<(Decimal, Decimal)>, limit: nat)
    ensures
        last_n(quotes, limit).len() == smaller(quotes.len(), limit),
        first_n(quotes, limit).len() == smaller(quotes.len(), limit),
        forall|i: int|
            0 <= i < last_n(quotes, limit).len() ==> #[trigger] last_n(quotes, limit)[i]
                == quotes[quotes.len() - last_n(quotes, limit).len() + i],
        forall|i: int|
            0 <= i < first_n(quotes, limit).len() ==> #[trigger] first_n(quotes, limit)[i]
                == quotes[i],
{
}

/// The words of a gap name both ids, the one that was due first, each by its
/// numeral.
pub proof fn law_gap_names_both_ids(gap: SequenceGap)
    ensures
        exists|due: Seq<char>, came: Seq<char>|
            #![trigger is_numeral(due, gap.expected as nat), is_numeral(came, gap.got as nat)]
            {
                &&& is_numeral(due, gap.expected as nat)
                &&& is_numeral(came, gap.got as nat)
                &&& gap_text(gap) == "sequence gap: expected "@ + due + ", got "@ + came
            },
{
    law_notation_is_the_numeral(gap.expected as nat);
    law_notation_is_the_numeral(gap.got as nat);
}

/// The spread is out of range only if both sides are quoted, and then only if the
/// best prices lie further apart than the largest number there is.
pub proof fn law_spread_is_in_range(book: OrderBook)
    ensures
        book.bids().len() == 0 ==> !book.spread_overflows(),
        book.asks().len() == 0 ==> !book.spread_overflows(),
        book.bids().len() > 0 && book.asks().len() > 0 ==> {
            let ask = book.asks()[0].0.units();
            let bid = book.bids()[book.bids().len() - 1].0.units();
            let most = MAX_COEFFICIENT * pow10(28);
            -most <= ask - bid <= most ==> !book.spread_overflows()
        },
{
    let p = pow10(28) as int;
    lemma_pow10_positive(28);
    let c = MAX_COEFFICIENT as int;
    assert(2 * (c * p) < (2 * c + 1) * p) by (nonlinear_arith)
        requires
            p > 0,
    ;
}

/// An event says what it holds: nothing is added to its levels, ids, time and
/// checksum, and nothing is left out.
pub proof fn law_event_says_what_it_holds(
    bids: Vec<Level>,
    asks: Vec<Level>,
    first: u64,
    last: u64,
    event_time_ms: Option<u64>,
    checksum: Option<u32>,
)
    ensures
        (BookEvent::Snapshot { bids, asks, sequence: last })@ == (EventView::Snapshot {
            bids: bids@,
            asks: asks@,
            sequence: last,
        }),
        (BookEvent::Delta { bids, asks, first, last, event_time_ms, checksum })@ == (
        EventView::Delta { bids: bids@, asks: asks@, first, last, event_time_ms, checksum }),
{
}

/// A book says what its lists hold, and in a well-formed one prices strictly ascend
/// and no level is empty.
pub proof fn law_book_says_what_its_lists_hold(book: OrderBook, i: int, j: int)
    requires
        book.well_formed(),
    ensures
        book@.bids == by_price(book.bids()),
        book@.asks == by_price(book.asks()),
        0 <= i < j < book.bids().len() ==> book.bids()[i].0.units() < book.bids()[j].0.units(),
        0 <= i < j < book.asks().len() ==> book.asks()[i].0.units() < book.asks()[j].0.units(),
        0 <= i < book.bids().len() ==> book.bids()[i].1.units() != 0,
        0 <= i < book.asks().len() ==> book.asks()[i].1.units() != 0,
{
}

/// The best quotes head the lists of the top ones, nothing on their side beats
/// them, and a side has a best quote exactly if it has levels.
pub proof fn law_best_quotes_head_their_sides(
    book: OrderBook,
    n: usize,
    bid: Option<(Decimal, Decimal)>,
    ask: Option<(Decimal, Decimal)>,
    top_bids: Vec<(Decimal, Decimal)>,
    top_asks: Vec<(Decimal, Decimal)>,
    size: (usize, usize),
)
    requires
        n > 0,
        book.well_formed(),
        call_ensures(OrderBook::best_bid, (&book,), bid),
        call_ensures(OrderBook::best_ask, (&book,), ask),
        call_ensures(OrderBook::top_bids, (&book, n), top_bids),
        call_ensures(OrderBook::top_asks, (&book, n), top_asks),
        call_ensures(OrderBook::depth, (&book,), size),
    ensures
        bid is Some <==> size.0 > 0,
        ask is Some <==> size.1 > 0,
        top_bids@.len() == smaller(size.0 as nat, n as nat),
        top_asks@.len() == smaller(size.1 as nat, n as nat),
        bid matches Some(best) ==> top_bids@[0] == best && forall|i: int|
            0 < i < top_bids@.len() ==> (#[trigger] top_bids@[i]).0.units() < top_bids@[i
                - 1].0.units(),
        ask matches Some(best) ==> top_asks@[0] == best && forall|i: int|
            0 < i < top_asks@.len() ==> (#[trigger] top_asks@[i]).0.units() > top_asks@[i
                - 1].0.units(),
        bid matches Some(best) ==> forall|i: int|
            0 <= i < book.bids().len() ==> (#[trigger] book.bids()[i]).0.units()
                <= best.0.units(),
        ask matches Some(best) ==> forall|i: int|
            0 <= i < book.asks().len() ==> (#[trigger] book.asks()[i]).0.units()
                >= best.0.units(),
{
}

/// The spread is there exactly if both sides have a best quote, and it is their
/// difference wherever that is exact.
pub proof fn law_spread_is_between_the_best(
    book: OrderBook,
    bid: Option<(Decimal, Decimal)>,
    ask: Option<(Decimal, Decimal)>,
    spread: Option<Decimal>,
)
    requires
        call_ensures(OrderBook::best_bid, (&book,), bid),
        call_ensures(OrderBook::best_ask, (&book,), ask),
        call_ensures(OrderBook::spread, (&book,), spread),
    ensures
        spread is Some <==> bid is Some && ask is Some,
        bid is Some && ask is Some && difference_is_exact(ask->Some_0.0, bid->Some_0.0)
            ==> spread->Some_0.units() == ask->Some_0.0.units() - bid->Some_0.0.units(),
{
}

/// The report of a gap names both ids, the one that was due first.
pub proof fn law_report_of_a_gap_names_both_ids(gap: SequenceGap, text: String)
    requires
        call_ensures(SequenceGap::to_text, (&gap,), text),
    ensures
        exists|due: Seq<char>, came: Seq<char>|
            #![trigger is_numeral(due, gap.expected as nat), is_numeral(came, gap.got as nat)]
            {
                &&& is_numeral(due, gap.expected as nat)
                &&& is_numeral(came, gap.got as nat)
                &&& text@ == "sequence gap: expected "@ + due + ", got "@ + came
            },
{
    law_gap_names_both_ids(gap);
}

} // verus!
