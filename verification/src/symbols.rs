//! A table from market symbols to values.

use crate::text::same_text;
use vstd::prelude::*;

verus! {

/// Values by symbol. A feed tracks a handful of symbols, so they stand in a list.
pub struct SymbolTable<V> {
    entries: Vec<(String, V)>,
}

/// Every symbol stands in the list once.
spec fn distinct<V>(entries: Seq<(String, V)>) -> bool {
    forall|i: int, j: int|
        0 <= i < j < entries.len() ==> (#[trigger] entries[i]).0@ != (#[trigger] entries[j]).0@
}

spec fn listed<V>(entries: Seq<(String, V)>, symbol: Seq<char>) -> bool {
    exists|i: int| 0 <= i < entries.len() && (#[trigger] entries[i]).0@ == symbol
}

spec fn place<V>(entries: Seq<(String, V)>, symbol: Seq<char>) -> int {
    choose|i: int| 0 <= i < entries.len() && (#[trigger] entries[i]).0@ == symbol
}

spec fn by_symbol<V>(entries: Seq<(String, V)>) -> Map<Seq<char>, V> {
    Map::new(
        |symbol: Seq<char>| listed(entries, symbol),
        |symbol: Seq<char>| entries[place(entries, symbol)].1,
    )
}

proof fn lemma_by_symbol<V>(entries: Seq<(String, V)>)
    requires
        distinct(entries),
    ensures
        forall|i: int|
            0 <= i < entries.len() ==> {
                &&& by_symbol(entries).contains_key((#[trigger] entries[i]).0@)
                &&& by_symbol(entries)[entries[i].0@] == entries[i].1
            },
        forall|symbol: Seq<char>| #[trigger]
            by_symbol(entries).contains_key(symbol) ==> exists|i: int|
                0 <= i < entries.len() && (#[trigger] entries[i]).0@ == symbol,
{
    assert forall|i: int| 0 <= i < entries.len() implies {
        &&& by_symbol(entries).contains_key((#[trigger] entries[i]).0@)
        &&& by_symbol(entries)[entries[i].0@] == entries[i].1
    } by {
        let symbol = entries[i].0@;
        assert(listed(entries, symbol));
        let j = place(entries, symbol);
        assert(0 <= j < entries.len() && entries[j].0@ == symbol);
        assert(i == j);
    }
}

impl<V> View for SymbolTable<V> {
    type V = Map<Seq<char>, V>;

    closed spec fn view(&self) -> Map<Seq<char>, V> {
        by_symbol(self.entries@)
    }
}

impl<V> SymbolTable<V> {
    #[verifier::type_invariant]
    spec fn well_formed(self) -> bool {
        distinct(self.entries@)
    }

    /// An empty table.
    pub fn new() -> (table: Self)
        ensures
            table@ == Map::<Seq<char>, V>::empty(),
    {
        let table = SymbolTable { entries: Vec::new() };
        assert(table@ =~= Map::<Seq<char>, V>::empty());
        table
    }

    /// Where the symbol stands in the list, or the length of the list.
    fn position(&self, symbol: &str) -> (at: usize)
        ensures
            at <= self.entries@.len(),
            at < self.entries@.len() ==> self.entries@[at as int].0@ == symbol@,
            at < self.entries@.len() <==> self@.contains_key(symbol@),
    {
        proof {
            use_type_invariant(self);
            lemma_by_symbol(self.entries@);
        }
        let mut i: usize = 0;
        while i < self.entries.len()
            invariant
                i <= self.entries@.len(),
                distinct(self.entries@),
                forall|k: int| 0 <= k < i ==> (#[trigger] self.entries@[k]).0@ != symbol@,
            decreases self.entries@.len() - i,
        {
            if same_text(self.entries[i].0.as_str(), symbol) {
                proof {
                    lemma_by_symbol(self.entries@);
                }
                return i;
            }
            i = i + 1;
        }
        i
    }

    /// The value of `symbol`.
    pub fn get(&self, symbol: &str) -> (value: Option<&V>)
        ensures
            value == if self@.contains_key(symbol@) {
                Some(&self@[symbol@])
            } else {
                None
            },
    {
        proof {
            use_type_invariant(self);
            lemma_by_symbol(self.entries@);
        }
        let at: usize = self.position(symbol);
        if at < self.entries.len() {
            Some(&self.entries[at].1)
        } else {
            None
        }
    }

    /// Takes the value of `symbol` out of the table.
    pub fn remove(&mut self, symbol: &str) -> (value: Option<V>)
        ensures
            value == if old(self)@.contains_key(symbol@) {
                Some(old(self)@[symbol@])
            } else {
                None
            },
            final(self)@ == old(self)@.remove(symbol@),
    {
        let at: usize = self.position(symbol);
        proof {
            use_type_invariant(&*self);
            lemma_by_symbol(self.entries@);
        }
        if at == self.entries.len() {
            assert(self@ =~= old(self)@.remove(symbol@));
            return None;
        }
        let mut entries: Vec<(String, V)> = Vec::new();
        std::mem::swap(&mut entries, &mut self.entries);
        let ghost before = entries@;
        let (_, value) = entries.remove(at);
        proof {
            lemma_removed(before, at as int);
        }
        self.entries = entries;
        Some(value)
    }

    /// Enters `value` under `symbol`, in place of what stood there.
    pub fn insert(&mut self, symbol: String, value: V)
        ensures
            final(self)@ == old(self)@.insert(symbol@, value),
    {
        let _ = self.remove(symbol.as_str());
        proof {
            use_type_invariant(&*self);
            lemma_by_symbol(self.entries@);
        }
        let ghost removed = self@;
        let mut entries: Vec<(String, V)> = Vec::new();
        std::mem::swap(&mut entries, &mut self.entries);
        let ghost before = entries@;
        let ghost entry = (symbol, value);
        entries.push((symbol, value));
        proof {
            lemma_pushed(before, entry);
            assert(by_symbol(entries@) =~= old(self)@.insert(symbol@, value));
        }
        self.entries = entries;
    }
}

proof fn lemma_removed<V>(before: Seq<(String, V)>, at: int)
    requires
        distinct(before),
        0 <= at < before.len(),
    ensures
        distinct(before.remove(at)),
        by_symbol(before.remove(at)) == by_symbol(before).remove(before[at].0@),
{
    let after = before.remove(at);
    let symbol = before[at].0@;
    assert(distinct(after));
    lemma_by_symbol(before);
    lemma_by_symbol(after);
    assert forall|k: Seq<char>| by_symbol(after).contains_key(k) implies by_symbol(
        before,
    ).contains_key(k) && k != symbol && by_symbol(after)[k] == by_symbol(before)[k] by {
        let i = choose|i: int| 0 <= i < after.len() && (#[trigger] after[i]).0@ == k;
        let j = if i < at {
            i
        } else {
            i + 1
        };
        assert(after[i] == before[j]);
        assert(before[j].0@ == k);
    }
    assert forall|k: Seq<char>| by_symbol(before).contains_key(k) && k != symbol implies by_symbol(
        after,
    ).contains_key(k) by {
        let j = choose|j: int| 0 <= j < before.len() && (#[trigger] before[j]).0@ == k;
        let i = if j < at {
            j
        } else {
            j - 1
        };
        assert(after[i] == before[j]);
    }
    assert(by_symbol(after) =~= by_symbol(before).remove(symbol));
}

proof fn lemma_pushed<V>(before: Seq<(String, V)>, entry: (String, V))
    requires
        distinct(before),
        !by_symbol(before).contains_key(entry.0@),
    ensures
        distinct(before.push(entry)),
        by_symbol(before.push(entry)) == by_symbol(before).insert(entry.0@, entry.1),
{
    let after = before.push(entry);
    lemma_by_symbol(before);
    assert(distinct(after)) by {
        assert forall|i: int, j: int| 0 <= i < j < after.len() implies (#[trigger] after[i]).0@ != (
        #[trigger] after[j]).0@ by {
            assert(after[i] == before[i]);
            if j < before.len() {
                assert(after[j] == before[j]);
            }
        }
    }
    lemma_by_symbol(after);
    assert(after[before.len() as int] == entry);
    assert forall|k: Seq<char>| by_symbol(after).contains_key(k) implies by_symbol(before).insert(
        entry.0@,
        entry.1,
    ).contains_key(k) && by_symbol(after)[k] == by_symbol(before).insert(entry.0@, entry.1)[k] by {
        let i = choose|i: int| 0 <= i < after.len() && (#[trigger] after[i]).0@ == k;
        if i < before.len() {
            assert(after[i] == before[i]);
        }
    }
    assert forall|k: Seq<char>| by_symbol(before).insert(entry.0@, entry.1).contains_key(
        k,
    ) implies by_symbol(after).contains_key(k) by {
        if k != entry.0@ {
            let i = choose|i: int| 0 <= i < before.len() && (#[trigger] before[i]).0@ == k;
            assert(after[i] == before[i]);
        }
    }
    assert(by_symbol(after) =~= by_symbol(before).insert(entry.0@, entry.1));
}

} // verus!
