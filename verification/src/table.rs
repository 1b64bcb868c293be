//! Maps whose keys are texts, kept in the order of the keys.

use crate::text;
use crate::text::{text_order, Order};
use vstd::prelude::*;

verus! {

/// Every text comes before those after it.
pub open spec fn strictly_sorted(keys: Seq<Seq<char>>) -> bool {
    forall|i: int, j: int|
        0 <= i < j < keys.len() ==> text::text_before(#[trigger] keys[i], #[trigger] keys[j])
}

/// The elements of a finite set of texts, in order.
pub open spec fn sorted_keys(keys: Set<Seq<char>>) -> Seq<Seq<char>> {
    choose|sorted: Seq<Seq<char>>| strictly_sorted(sorted) && #[trigger] sorted.to_set() == keys
}

/// A set of texts has only one sorted listing.
pub proof fn lemma_sorted_listing_unique(a: Seq<Seq<char>>, b: Seq<Seq<char>>)
    requires
        strictly_sorted(a),
        strictly_sorted(b),
        a.to_set() == b.to_set(),
    ensures
        a == b,
    decreases a.len(),
{
    if a.len() == 0 {
        if b.len() > 0 {
            assert(b.to_set().contains(b[0]));
            assert(a.contains(b[0]));
        }
        assert(a =~= b);
    } else {
        assert(a.to_set().contains(a.last()));
        assert(b.contains(a.last()));
        let i = choose|i: int| 0 <= i < b.len() && b[i] == a.last();
        assert(b.to_set().contains(b.last()));
        assert(a.contains(b.last()));
        let j = choose|j: int| 0 <= j < a.len() && a[j] == b.last();
        if a.last() != b.last() {
            assert(text::text_before(b[i], b[b.len() - 1]));
            assert(text::text_before(a[j], a[a.len() - 1]));
            text::lemma_before_transitive(a.last(), b.last(), a.last());
            text::lemma_before_irreflexive(a.last());
        }
        let (x, y) = (a.drop_last(), b.drop_last());
        assert forall|k: Seq<char>| x.to_set().contains(k) == y.to_set().contains(k) by {
            lemma_without_last(a, k);
            lemma_without_last(b, k);
            assert(a.contains(k) == a.to_set().contains(k));
            assert(b.contains(k) == b.to_set().contains(k));
        }
        assert(x.to_set() =~= y.to_set());
        lemma_sorted_listing_unique(x, y);
        assert(a =~= x.push(a.last()));
        assert(b =~= y.push(b.last()));
    }
}

/// Dropping the last of a sorted listing leaves exactly the other elements.
proof fn lemma_without_last(a: Seq<Seq<char>>, k: Seq<char>)
    requires
        strictly_sorted(a),
        a.len() > 0,
    ensures
        a.drop_last().contains(k) == (a.contains(k) && k != a.last()),
        a.drop_last().to_set().contains(k) == a.drop_last().contains(k),
{
    let x = a.drop_last();
    if x.contains(k) {
        let i = choose|i: int| 0 <= i < x.len() && x[i] == k;
        assert(a[i] == k);
        assert(text::text_before(a[i], a[a.len() - 1]));
        text::lemma_before_irreflexive(k);
    }
    if a.contains(k) && k != a.last() {
        let i = choose|i: int| 0 <= i < a.len() && a[i] == k;
        assert(x[i] == k);
    }
}

/// A sorted listing is the sorted listing of its elements.
pub proof fn lemma_sorted_keys(keys: Seq<Seq<char>>)
    requires
        strictly_sorted(keys),
    ensures
        sorted_keys(keys.to_set()) == keys,
{
    lemma_sorted_listing_unique(sorted_keys(keys.to_set()), keys);
}

/// The place of a text in a sorted listing that does not hold it.
proof fn lemma_place(keys: Seq<Seq<char>>, key: Seq<char>) -> (i: int)
    requires
        strictly_sorted(keys),
        !keys.contains(key),
    ensures
        0 <= i <= keys.len(),
        forall|j: int| 0 <= j < i ==> text::text_before(#[trigger] keys[j], key),
        forall|j: int| i <= j < keys.len() ==> text::text_before(key, #[trigger] keys[j]),
    decreases keys.len(),
{
    if keys.len() == 0 {
        0
    } else {
        let last = keys.last();
        assert(keys.contains(keys[keys.len() - 1]));
        if text::text_before(last, key) {
            assert forall|j: int| 0 <= j < keys.len() implies text::text_before(
                #[trigger] keys[j],
                key,
            ) by {
                if j < keys.len() - 1 {
                    assert(text::text_before(keys[j], keys[keys.len() - 1]));
                    text::lemma_before_transitive(keys[j], last, key);
                }
            }
            keys.len() as int
        } else {
            text::lemma_before_total(last, key);
            let rest = keys.drop_last();
            assert(!rest.contains(key)) by {
                if rest.contains(key) {
                    let j = choose|j: int| 0 <= j < rest.len() && rest[j] == key;
                    assert(keys[j] == key);
                }
            }
            let i = lemma_place(rest, key);
            assert forall|j: int| 0 <= j < i implies text::text_before(#[trigger] keys[j], key) by {
                assert(text::text_before(rest[j], key));
            }
            assert forall|j: int| i <= j < keys.len() implies text::text_before(
                key,
                #[trigger] keys[j],
            ) by {
                if j < rest.len() {
                    assert(text::text_before(key, rest[j]));
                }
            }
            i
        }
    }
}

/// A finite set of texts has a sorted listing.
proof fn lemma_sorted_listing_exists(keys: Set<Seq<char>>) -> (sorted: Seq<Seq<char>>)
    requires
        keys.finite(),
    ensures
        strictly_sorted(sorted),
        sorted.to_set() == keys,
    decreases keys.len(),
{
    if keys.len() == 0 {
        assert(Seq::<Seq<char>>::empty().to_set() =~= keys);
        Seq::empty()
    } else {
        let key = keys.choose();
        let rest = keys.remove(key);
        let listing = lemma_sorted_listing_exists(rest);
        assert(listing.to_set().contains(key) == listing.contains(key));
        let i = lemma_place(listing, key);
        let sorted = listing.insert(i, key);
        assert forall|k: Seq<char>| sorted.to_set().contains(k) == keys.contains(k) by {
            assert(listing.to_set().contains(k) == listing.contains(k));
            if listing.contains(k) {
                let j = choose|j: int| 0 <= j < listing.len() && listing[j] == k;
                assert(sorted[if j < i { j } else { j + 1 }] == k);
            }
            if sorted.contains(k) && k != key {
                let j = choose|j: int| 0 <= j < sorted.len() && sorted[j] == k;
                assert(listing[if j < i { j } else { j - 1 }] == k);
            }
            assert(sorted[i] == key);
        }
        assert(sorted.to_set() =~= keys);
        sorted
    }
}

/// The sorted listing of a finite set of texts holds exactly its elements, each once.
pub proof fn law_sorted_keys(keys: Set<Seq<char>>)
    requires
        keys.finite(),
    ensures
        strictly_sorted(sorted_keys(keys)),
        sorted_keys(keys).no_duplicates(),
        sorted_keys(keys).to_set() == keys,
        sorted_keys(keys).len() == keys.len(),
{
    let sorted = lemma_sorted_listing_exists(keys);
    lemma_sorted_keys(sorted);
    lemma_sorted_distinct(sorted);
}

/// A sorted listing names nothing twice.
pub proof fn lemma_sorted_distinct(keys: Seq<Seq<char>>)
    requires
        strictly_sorted(keys),
    ensures
        keys.no_duplicates(),
        keys.to_set().finite(),
        keys.to_set().len() == keys.len(),
{
    assert forall|i: int, j: int| 0 <= i < j < keys.len() implies keys[i] != keys[j] by {
        text::lemma_before_irreflexive(keys[i]);
    }
    keys.unique_seq_to_set();
}

/// Taking one more element adds it to the set.
pub proof fn lemma_take_set(keys: Seq<Seq<char>>, n: int)
    requires
        0 <= n < keys.len(),
    ensures
        keys.take(n + 1).to_set() == keys.take(n).to_set().insert(keys[n]),
{
    let (a, b) = (keys.take(n), keys.take(n + 1));
    assert(b =~= a.push(keys[n]));
    assert(b[n] == keys[n]);
    assert forall|k: Seq<char>| b.to_set().contains(k) == a.to_set().insert(keys[n]).contains(k) by {
        if a.contains(k) {
            let i = choose|i: int| 0 <= i < a.len() && a[i] == k;
            assert(b[i] == k);
        }
    }
    assert(b.to_set() =~= a.to_set().insert(keys[n]));
}

/// The keys of a list of entries.
pub open spec fn keys_of<V>(entries: Seq<(&str, V)>) -> Seq<Seq<char>> {
    entries.map_values(|e: (&str, V)| e.0@)
}

/// A map from texts to values. Its entries are sorted by key, no key occurring twice.
pub struct Table<'a, V> {
    entries: Vec<(&'a str, V)>,
}

impl<'a, V> View for Table<'a, V> {
    type V = Map<Seq<char>, V>;

    closed spec fn view(&self) -> Map<Seq<char>, V> {
        Map::new(
            |k: Seq<char>| keys_of(self.entries@).contains(k),
            |k: Seq<char>| self.entries@[keys_of(self.entries@).index_of(k)].1,
        )
    }
}

impl<'a, V> Table<'a, V> {
    #[verifier::type_invariant]
    spec fn sorted(self) -> bool {
        strictly_sorted(keys_of(self.entries@))
    }

    /// The keys in order.
    pub closed spec fn keys(&self) -> Seq<Seq<char>> {
        keys_of(self.entries@)
    }

    /// The map without any entry.
    pub fn new() -> (table: Self)
        ensures
            table@ == Map::<Seq<char>, V>::empty(),
    {
        let table = Table { entries: Vec::new() };
        assert(table@ =~= Map::<Seq<char>, V>::empty());
        table
    }

    /// What the listing of the entries has to do with the map.
    proof fn lemma_listing(&self)
        requires
            self.sorted(),
        ensures
            self.keys().len() == self.entries@.len(),
            strictly_sorted(self.keys()),
            self.keys().no_duplicates(),
            self.keys().to_set() == self@.dom(),
            self@.dom().finite(),
            self@.len() == self.keys().len(),
            sorted_keys(self@.dom()) == self.keys(),
            forall|i: int|
                0 <= i < self.entries@.len() ==> {
                    &&& #[trigger] self.keys()[i] == self.entries@[i].0@
                    &&& self@.contains_key(self.keys()[i])
                    &&& self@[self.keys()[i]] == self.entries@[i].1
                },
    {
        let keys = self.keys();
        lemma_sorted_distinct(keys);
        lemma_sorted_keys(keys);
        assert(keys.to_set() =~= self@.dom());
        assert forall|i: int| 0 <= i < self.entries@.len() implies {
            &&& #[trigger] self.keys()[i] == self.entries@[i].0@
            &&& self@.contains_key(self.keys()[i])
            &&& self@[self.keys()[i]] == self.entries@[i].1
        } by {
            assert(keys.contains(keys[i]));
            let j = keys.index_of(keys[i]);
            assert(keys[j] == keys[i]);
        }
    }

    /// How many entries there are.
    pub fn len(&self) -> (n: usize)
        ensures
            n == self@.len(),
            n == self.keys().len(),
            self.keys() == sorted_keys(self@.dom()),
            strictly_sorted(self.keys()),
            self.keys().to_set() == self@.dom(),
            self@.dom().finite(),
    {
        proof {
            use_type_invariant(self);
            self.lemma_listing();
        }
        self.entries.len()
    }

    /// The entry at a position in the order of the keys.
    pub fn entry(&self, i: usize) -> (entry: (&'a str, &V))
        requires
            i < self.keys().len(),
        ensures
            entry.0@ == self.keys()[i as int],
            self@.contains_key(entry.0@),
            *entry.1 == self@[entry.0@],
    {
        proof {
            use_type_invariant(self);
            self.lemma_listing();
        }
        (self.entries[i].0, &self.entries[i].1)
    }

    /// The position of a key, or the position at which it would have to be entered.
    fn position(&self, key: &str) -> (place: Result<usize, usize>)
        ensures
            match place {
                Ok(i) => i < self.entries@.len() && self.entries@[i as int].0@ == key@,
                Err(i) => {
                    &&& i <= self.entries@.len()
                    &&& forall|j: int|
                        0 <= j < i ==> text::text_before(#[trigger] self.keys()[j], key@)
                    &&& forall|j: int|
                        i <= j < self.entries@.len() ==> text::text_before(
                            key@,
                            #[trigger] self.keys()[j],
                        )
                },
            },
    {
        proof {
            use_type_invariant(self);
            self.lemma_listing();
        }
        let mut low: usize = 0;
        let mut high: usize = self.entries.len();
        while low < high
            invariant
                low <= high <= self.entries@.len(),
                self.keys().len() == self.entries@.len(),
                strictly_sorted(self.keys()),
                forall|j: int| 0 <= j < low ==> text::text_before(#[trigger] self.keys()[j], key@),
                forall|j: int|
                    high <= j < self.entries@.len() ==> text::text_before(
                        key@,
                        #[trigger] self.keys()[j],
                    ),
            decreases high - low,
        {
            let mid: usize = low + (high - low) / 2;
            assert(self.keys()[mid as int] == self.entries@[mid as int].0@);
            match text_order(self.entries[mid].0, key) {
                Order::Same => {
                    return Ok(mid);
                },
                Order::Before => {
                    assert forall|j: int| 0 <= j < mid + 1 implies text::text_before(
                        #[trigger] self.keys()[j],
                        key@,
                    ) by {
                        if j < mid {
                            text::lemma_before_transitive(
                                self.keys()[j],
                                self.keys()[mid as int],
                                key@,
                            );
                        }
                    }
                    low = mid + 1;
                },
                Order::After => {
                    assert forall|j: int| mid <= j < self.entries@.len() implies text::text_before(
                        key@,
                        #[trigger] self.keys()[j],
                    ) by {
                        if mid < j {
                            text::lemma_before_transitive(
                                key@,
                                self.keys()[mid as int],
                                self.keys()[j],
                            );
                        }
                    }
                    high = mid;
                },
            }
        }
        Err(low)
    }

    /// A key that has a place between its neighbours is not among the keys.
    proof fn lemma_absent(&self, key: Seq<char>, i: int)
        requires
            0 <= i <= self.keys().len(),
            forall|j: int| 0 <= j < i ==> text::text_before(#[trigger] self.keys()[j], key),
            forall|j: int|
                i <= j < self.keys().len() ==> text::text_before(key, #[trigger] self.keys()[j]),
        ensures
            !self@.contains_key(key),
    {
        text::lemma_before_irreflexive(key);
        if self.keys().contains(key) {
            let j = choose|j: int| 0 <= j < self.keys().len() && self.keys()[j] == key;
            assert(self.keys()[j] == key);
        }
    }

    /// Looks up a key.
    pub fn get(&self, key: &str) -> (value: Option<&V>)
        ensures
            match value {
                Some(value) => self@.contains_key(key@) && *value == self@[key@],
                None => !self@.contains_key(key@),
            },
    {
        proof {
            use_type_invariant(self);
            self.lemma_listing();
        }
        match self.position(key) {
            Ok(i) => {
                assert(self.keys()[i as int] == key@);
                Some(&self.entries[i].1)
            },
            Err(i) => {
                proof {
                    self.lemma_absent(key@, i as int);
                }
                None
            },
        }
    }

    /// Enters a value under a key, in place of the one that was there.
    pub fn insert(&mut self, key: &'a str, value: V)
        ensures
            final(self)@ == old(self)@.insert(key@, value),
    {
        proof {
            use_type_invariant(&*self);
            self.lemma_listing();
        }
        let place = self.position(key);
        let ghost before = *self;
        let mut entries: Vec<(&'a str, V)> = Vec::new();
        std::mem::swap(&mut entries, &mut self.entries);
        match place {
            Ok(i) => {
                entries.set(i, (key, value));
                assert(keys_of(entries@) =~= before.keys());
            },
            Err(i) => {
                proof {
                    before.lemma_absent(key@, i as int);
                }
                entries.insert(i, (key, value));
                assert(keys_of(entries@) =~= before.keys().insert(i as int, key@));
            },
        }
        assert(strictly_sorted(keys_of(entries@)));
        self.entries = entries;
        proof {
            self.lemma_listing();
            let i = match place {
                Ok(i) => i as int,
                Err(i) => i as int,
            };
            let shift: int = if place is Ok {
                0
            } else {
                1
            };
            let new = before@.insert(key@, value);
            assert(self.keys()[i] == key@);
            assert forall|k: Seq<char>| self@.contains_key(k) implies new.contains_key(k) && self@[k]
                == new[k] by {
                let j = choose|j: int| 0 <= j < self.keys().len() && self.keys()[j] == k;
                assert(self.keys()[j] == k);
                if j < i {
                    assert(before.keys()[j] == k);
                } else if j > i {
                    assert(before.keys()[j - shift] == k);
                }
            }
            assert forall|k: Seq<char>| new.contains_key(k) implies self@.contains_key(k) by {
                if k != key@ {
                    let j = choose|j: int| 0 <= j < before.keys().len() && before.keys()[j] == k;
                    assert(before.keys()[j] == k);
                    if j < i {
                        assert(self.keys()[j] == k);
                    } else {
                        assert(self.keys()[j + shift] == k);
                    }
                }
            }
            assert(self@ =~= new);
        }
    }
}

impl<'a, T> Table<'a, Vec<T>> {
    /// The items entered under a key; none if the key is unknown.
    pub open spec fn items(&self, key: Seq<char>) -> Seq<T> {
        if self@.contains_key(key) {
            self@[key]@
        } else {
            Seq::empty()
        }
    }

    /// Enters one more item under a key, after those already there.
    pub fn add(&mut self, key: &'a str, item: T)
        ensures
            final(self)@.dom() == old(self)@.dom().insert(key@),
            final(self).items(key@) == old(self).items(key@).push(item),
            forall|k: Seq<char>| k != key@ ==> #[trigger] final(self).items(k) == old(self).items(k),
    {
        proof {
            use_type_invariant(&*self);
            self.lemma_listing();
        }
        let place = self.position(key);
        match place {
            Ok(i) => {
                let ghost before = *self;
                let mut entries: Vec<(&'a str, Vec<T>)> = Vec::new();
                std::mem::swap(&mut entries, &mut self.entries);
                entries[i].1.push(item);
                assert(keys_of(entries@) =~= before.keys());
                self.entries = entries;
                proof {
                    self.lemma_listing();
                    assert(self.keys() == before.keys());
                    assert(self.keys()[i as int] == key@);
                    assert forall|k: Seq<char>| k != key@ implies #[trigger] self.items(k)
                        == before.items(k) by {
                        if self.keys().contains(k) {
                            let j = choose|j: int| 0 <= j < self.keys().len() && self.keys()[j] == k;
                            assert(self.keys()[j] == k);
                        }
                    }
                    assert(self@.dom() =~= before@.dom().insert(key@));
                }
            },
            Err(i) => {
                proof {
                    self.lemma_absent(key@, i as int);
                }
                let mut items: Vec<T> = Vec::new();
                items.push(item);
                self.insert(key, items);
            },
        }
    }
}

} // verus!
