//! A cache of byte strings under string keys that holds at most a fixed
//! number of bytes. When a new value does not fit, the entries that were used
//! least recently leave first.

use crate::list::{Link, List, Node};
use vstd::hash_map::StringHashMap;
use vstd::prelude::*;

verus! {

/// The bytes that the values of `entries` hold together.
pub open spec fn total_len(entries: Seq<(Seq<char>, Seq<u8>)>) -> nat
    decreases entries.len(),
{
    if entries.len() == 0 {
        0
    } else {
        total_len(entries.drop_last()) + entries.last().1.len()
    }
}

/// The keys of `entries`, in the same order.
pub open spec fn keys(entries: Seq<(Seq<char>, Seq<u8>)>) -> Seq<Seq<char>> {
    entries.map_values(|e: (Seq<char>, Seq<u8>)| e.0)
}

/// The value that `entries` holds under `key`, if there is one.
pub open spec fn lookup(entries: Seq<(Seq<char>, Seq<u8>)>, key: Seq<char>) -> Option<Seq<u8>> {
    if keys(entries).contains(key) {
        Some(entries[keys(entries).index_of(key)].1)
    } else {
        None
    }
}

/// `entries` with the entry of `key` taken out, if there is one.
pub open spec fn without(entries: Seq<(Seq<char>, Seq<u8>)>, key: Seq<char>) -> Seq<
    (Seq<char>, Seq<u8>),
> {
    if keys(entries).contains(key) {
        entries.remove(keys(entries).index_of(key))
    } else {
        entries
    }
}

/// `entries` after as many entries have left from the tail as it takes for
/// the rest to hold no more than `budget` bytes.
pub open spec fn fit(entries: Seq<(Seq<char>, Seq<u8>)>, budget: int) -> Seq<(Seq<char>, Seq<u8>)>
    decreases entries.len(),
{
    if entries.len() == 0 || total_len(entries) <= budget {
        entries
    } else {
        fit(entries.drop_last(), budget)
    }
}

/// What a cache of `capacity` bytes that holds `entries`, most recently used
/// first, holds after `value` was put under `key`. A value larger than the
/// capacity changes nothing. Otherwise the key's former entry goes, entries
/// leave from the tail until the new value fits, and the new entry becomes
/// the head.
pub open spec fn after_put(
    entries: Seq<(Seq<char>, Seq<u8>)>,
    capacity: nat,
    key: Seq<char>,
    value: Seq<u8>,
) -> Seq<(Seq<char>, Seq<u8>)> {
    if value.len() > capacity {
        entries
    } else {
        seq![(key, value)] + fit(without(entries, key), capacity - value.len())
    }
}

/// What a cache that holds `entries`, most recently used first, holds after
/// `key` was looked up: a key that is there moves to the head, and nothing
/// else changes.
pub open spec fn after_get(entries: Seq<(Seq<char>, Seq<u8>)>, key: Seq<char>) -> Seq<
    (Seq<char>, Seq<u8>),
> {
    if keys(entries).contains(key) {
        seq![entries[keys(entries).index_of(key)]] + without(entries, key)
    } else {
        entries
    }
}

/// Taking an entry out takes the length of its value off the total.
pub proof fn lemma_total_len_remove(entries: Seq<(Seq<char>, Seq<u8>)>, i: int)
    requires
        0 <= i < entries.len(),
    ensures
        total_len(entries.remove(i)) + entries[i].1.len() == total_len(entries),
    decreases entries.len(),
{
    if i == entries.len() - 1 {
    } else {
        lemma_total_len_remove(entries.drop_last(), i);
        assert(entries.remove(i).drop_last() =~= entries.drop_last().remove(i));
    }
}

/// A new head adds the length of its value to the total.
pub proof fn lemma_total_len_cons(entry: (Seq<char>, Seq<u8>), entries: Seq<(Seq<char>, Seq<u8>)>)
    ensures
        total_len(seq![entry] + entries) == entry.1.len() + total_len(entries),
    decreases entries.len(),
{
    let all = seq![entry] + entries;
    if entries.len() == 0 {
        assert(total_len(all.drop_last()) == 0);
    } else {
        lemma_total_len_cons(entry, entries.drop_last());
        assert(all.drop_last() =~= seq![entry] + entries.drop_last());
    }
}

/// What the cache keeps for a key: the value, and the handle of the key's
/// node in the order of use.
struct Entry {
    value: Vec<u8>,
    link: Link,
}

/// The cache: the byte budget, the bytes in use, each key's value and its
/// place in the order of use.
pub struct LruCache {
    capacity: u64,
    size: u64,
    cache: StringHashMap<Entry>,
    history: List<String>,
}

impl View for LruCache {
    type V = Seq<(Seq<char>, Seq<u8>)>;

    /// The entries of the cache, each a key with its value, from the one
    /// used most recently to the one used least recently.
    closed spec fn view(&self) -> Seq<(Seq<char>, Seq<u8>)> {
        Seq::new(
            self.history@.len(),
            |i: int| (self.history@[i]@, self.cache@[self.history@[i]@].value@),
        )
    }
}

impl LruCache {
    /// The number of bytes that the cache may hold.
    pub closed spec fn budget(&self) -> nat {
        self.capacity as nat
    }

    spec fn key_seq(&self) -> Seq<Seq<char>> {
        Seq::new(self.history@.len(), |i: int| self.history@[i]@)
    }

    /// The cache is sound: the order of use and the stored values speak of the
    /// same keys, each once, and the bytes in use are counted rightly and
    /// within the budget.
    pub closed spec fn wf(&self) -> bool {
        &&& self.history.wf()
        &&& self.key_seq().no_duplicates()
        &&& forall|i: int|
            0 <= i < self.history@.len() ==> self.cache@.contains_key(
                #[trigger] self.key_seq()[i],
            ) && self.cache@[self.key_seq()[i]].link == self.history.links()[i]
        &&& forall|k: Seq<char>| #[trigger]
            self.cache@.contains_key(k) ==> self.key_seq().contains(k)
        &&& self.size == total_len(self@)
        &&& self.size <= self.capacity
    }

    /// In a sound cache no key occurs twice and the values fit the budget.
    pub proof fn lemma_within_budget(&self)
        requires
            self.wf(),
        ensures
            keys(self@).no_duplicates(),
            total_len(self@) <= self.budget(),
    {
        assert(keys(self@) =~= self.key_seq());
    }

    /// An empty cache that may hold `size` bytes.
    pub fn new(size: u64) -> (cache: Self)
        ensures
            cache.wf(),
            cache.budget() == size,
            cache@ == Seq::<(Seq<char>, Seq<u8>)>::empty(),
    {
        LruCache { capacity: size, size: 0, cache: StringHashMap::new(), history: List::new() }
    }

    proof fn lemma_view_keys(&self)
        ensures
            keys(self@) == self.key_seq(),
            self@.len() == self.history@.len(),
    {
    }

    /// Takes the entry of `key` out, if there is one.
    fn discard(&mut self, key: &String)
        requires
            old(self).wf(),
        ensures
            final(self).wf(),
            final(self).budget() == old(self).budget(),
            final(self)@ == without(old(self)@, key@),
    {
        proof {
            self.lemma_view_keys();
            self.history.lemma_links_distinct();
        }
        let found = match self.cache.get(key.as_str()) {
            Some(entry) => Some((entry.link, entry.value.len() as u64)),
            None => None,
        };
        match found {
            Some((link, len)) => {
                let ghost i = self.key_seq().index_of(key@);
                proof {
                    lemma_total_len_remove(self@, i);
                }
                self.history.remove(&link);
                self.cache.remove(key.as_str());
                self.size = self.size - len;
                proof {
                    assert forall|j: int|
                        0 <= j < self.history@.len() implies self.cache@.contains_key(
                        #[trigger] self.key_seq()[j],
                    ) && self.cache@[self.key_seq()[j]].link == self.history.links()[j] by {
                        let k = if j < i { j } else { j + 1 };
                        assert(old(self).key_seq()[k] != old(self).key_seq()[i]);
                    }
                    assert forall|k: Seq<char>| #[trigger]
                        self.cache@.contains_key(k) implies self.key_seq().contains(k) by {
                        let m = old(self).key_seq().index_of(k);
                        let n = if m < i { m } else { m - 1 };
                        assert(self.key_seq()[n] == k);
                    }
                    assert forall|j: int| 0 <= j < self@.len() implies self@[j] == old(
                        self)@.remove(i)[j] by {
                        let k = if j < i { j } else { j + 1 };
                        assert(old(self).key_seq()[k] != old(self).key_seq()[i]);
                    }
                    assert(self@ =~= old(self)@.remove(i));
                }
            },
            None => {},
        }
    }

    /// Takes out the entry that was used least recently.
    fn evict(&mut self)
        requires
            old(self).wf(),
            old(self)@.len() > 0,
        ensures
            final(self).wf(),
            final(self).budget() == old(self).budget(),
            final(self)@ == old(self)@.drop_last(),
    {
        proof {
            self.history.lemma_links_distinct();
        }
        let ghost last = self.history@.len() - 1;
        let node = self.history.pop().unwrap();
        let key = node.into_elem();
        let len = match self.cache.get(key.as_str()) {
            Some(entry) => entry.value.len() as u64,
            None => 0,
        };
        self.cache.remove(key.as_str());
        self.size = self.size - len;
        proof {
            assert forall|j: int| 0 <= j < self.history@.len() implies self.cache@.contains_key(
                #[trigger] self.key_seq()[j],
            ) && self.cache@[self.key_seq()[j]].link == self.history.links()[j] by {
                assert(old(self).key_seq()[j] != old(self).key_seq()[last]);
            }
            assert forall|k: Seq<char>| #[trigger]
                self.cache@.contains_key(k) implies self.key_seq().contains(k) by {
                let m = old(self).key_seq().index_of(k);
                assert(self.key_seq()[m] == k);
            }
            assert forall|j: int| 0 <= j < self@.len() implies self@[j] == old(
                self)@.drop_last()[j] by {
                assert(old(self).key_seq()[j] != old(self).key_seq()[last]);
            }
            assert(self@ =~= old(self)@.drop_last());
        }
    }

    /// Makes `value` under `key` the entry that was used most recently.
    fn install(&mut self, key: String, value: Vec<u8>)
        requires
            old(self).wf(),
            !keys(old(self)@).contains(key@),
            total_len(old(self)@) + value@.len() <= old(self).budget(),
        ensures
            final(self).wf(),
            final(self).budget() == old(self).budget(),
            final(self)@ == seq![(key@, value@)] + old(self)@,
    {
        proof {
            self.lemma_view_keys();
            self.history.lemma_links_distinct();
            lemma_total_len_cons((key@, value@), self@);
        }
        let len = value.len() as u64;
        let link = self.history.unshift(Node::new(key.clone()));
        self.cache.insert(key, Entry { value: value, link: link });
        self.size = self.size + len;
        proof {
            assert forall|j: int| 0 <= j < self.history@.len() implies self.cache@.contains_key(
                #[trigger] self.key_seq()[j],
            ) && self.cache@[self.key_seq()[j]].link == self.history.links()[j] by {
                if j > 0 {
                    assert(self.key_seq()[j] == old(self).key_seq()[j - 1]);
                }
            }
            assert forall|k: Seq<char>| #[trigger]
                self.cache@.contains_key(k) implies self.key_seq().contains(k) by {
                if k == key@ {
                    assert(self.key_seq()[0] == k);
                } else {
                    let m = old(self).key_seq().index_of(k);
                    assert(self.key_seq()[m + 1] == k);
                }
            }
            assert forall|j: int| 0 <= j < self@.len() implies self@[j] == (seq![(key@, value@)]
                + old(self)@)[j] by {
                if j > 0 {
                    assert(self.key_seq()[j] == old(self).key_seq()[j - 1]);
                }
            }
            assert(self@ =~= seq![(key@, value@)] + old(self)@);
        }
    }

    /// Stores `value` under `key` and makes the entry the most recently used
    /// one. A value larger than the whole budget is not stored and leaves the
    /// cache as it was. Otherwise the value that the key had before is
    /// replaced, and the least recently used entries leave, one by one, until
    /// the new value fits.
    pub fn put(&mut self, key: String, value: Vec<u8>)
        requires
            old(self).wf(),
        ensures
            final(self).wf(),
            final(self).budget() == old(self).budget(),
            final(self)@ == after_put(old(self)@, old(self).budget(), key@, value@),
    {
        let incoming = value.len() as u64;
        if incoming > self.capacity {
            return;
        }
        proof {
            self.lemma_within_budget();
            lemma_without_drops_key(self@, key@);
        }
        self.discard(&key);
        let budget = self.capacity - incoming;
        let ghost rest = self@;
        while self.size > budget
            invariant
                self.wf(),
                self.budget() == old(self).budget(),
                budget == self.capacity - incoming,
                incoming == value@.len(),
                fit(self@, budget as int) == fit(rest, budget as int),
                !keys(self@).contains(key@),
            decreases self@.len(),
        {
            proof {
                let all = self@;
                if keys(all.drop_last()).contains(key@) {
                    let m = keys(all.drop_last()).index_of(key@);
                    assert(keys(all)[m] == key@);
                }
            }
            self.evict();
        }
        self.install(key, value);
    }

    /// Looks `key` up. A key that is there becomes the most recently used
    /// one and its value is returned; nothing else changes, and nothing ever
    /// leaves the cache.
    pub fn get(&mut self, key: &String) -> (r: Option<&Vec<u8>>)
        requires
            old(self).wf(),
        ensures
            final(self).wf(),
            final(self).budget() == old(self).budget(),
            final(self)@ == after_get(old(self)@, key@),
            total_len(final(self)@) == total_len(old(self)@),
            match r {
                Some(value) => lookup(old(self)@, key@) == Some(value@),
                None => lookup(old(self)@, key@) is None,
            },
    {
        proof {
            self.lemma_view_keys();
            self.history.lemma_links_distinct();
        }
        let found = match self.cache.get(key.as_str()) {
            Some(entry) => Some(entry.link),
            None => None,
        };
        match found {
            Some(link) => {
                let ghost i = self.key_seq().index_of(key@);
                proof {
                    lemma_total_len_remove(self@, i);
                    lemma_total_len_cons(self@[i], self@.remove(i));
                }
                self.history.promote(link);
                proof {
                    let before = old(self).key_seq();
                    assert forall|j: int| 0 < j < self.key_seq().len() implies self.key_seq()[j]
                        == before[if j - 1 < i { j - 1 } else { j }] by {}
                    assert forall|k: Seq<char>| #[trigger]
                        self.cache@.contains_key(k) implies self.key_seq().contains(k) by {
                        let m = before.index_of(k);
                        let n = if m == i { 0 } else if m < i { m + 1 } else { m };
                        assert(self.key_seq()[n] == k);
                    }
                    assert(self@ =~= seq![old(self)@[i]] + old(self)@.remove(i));
                }
                match self.cache.get(key.as_str()) {
                    Some(entry) => Some(&entry.value),
                    None => None,
                }
            },
            None => None,
        }
    }

    /// The number of bytes that the cache may hold.
    pub fn capacity(&self) -> (r: u64)
        ensures
            r == self.budget(),
    {
        self.capacity
    }

    /// The number of bytes that the stored values hold together.
    pub fn total_bytes(&self) -> (r: u64)
        requires
            self.wf(),
        ensures
            r == total_len(self@),
    {
        self.size
    }
}

/// Where no key occurs twice, taking the entry of a key out leaves no entry
/// of that key.
pub proof fn lemma_without_drops_key(entries: Seq<(Seq<char>, Seq<u8>)>, key: Seq<char>)
    requires
        keys(entries).no_duplicates(),
    ensures
        !keys(without(entries, key)).contains(key),
        keys(without(entries, key)).no_duplicates(),
{
    let rest = without(entries, key);
    if keys(entries).contains(key) {
        let i = keys(entries).index_of(key);
        if keys(rest).contains(key) {
            let m = keys(rest).index_of(key);
            let n = if m < i { m } else { m + 1 };
            assert(keys(entries)[n] == key);
        }
        assert forall|j: int, k: int|
            0 <= j < keys(rest).len() && 0 <= k < keys(rest).len() && j != k implies keys(rest)[j]
            != keys(rest)[k] by {
            let jj = if j < i { j } else { j + 1 };
            let kk = if k < i { k } else { k + 1 };
            assert(keys(rest)[j] == keys(entries)[jj]);
            assert(keys(rest)[k] == keys(entries)[kk]);
        }
    }
}

/// What `fit` keeps is the head part of what it was given, it holds no more
/// than the budget, and it is the longest head part that does so: one entry
/// more would be too much.
pub proof fn lemma_fit(entries: Seq<(Seq<char>, Seq<u8>)>, budget: int)
    requires
        0 <= budget,
    ensures
        fit(entries, budget).len() <= entries.len(),
        fit(entries, budget) == entries.subrange(0, fit(entries, budget).len() as int),
        total_len(fit(entries, budget)) <= budget,
        fit(entries, budget).len() < entries.len() ==> total_len(
            entries.subrange(0, fit(entries, budget).len() as int + 1),
        ) > budget,
    decreases entries.len(),
{
    if entries.len() != 0 && total_len(entries) > budget {
        let shorter = entries.drop_last();
        lemma_fit(shorter, budget);
        let n = fit(shorter, budget).len() as int;
        if n < shorter.len() {
            assert(shorter.subrange(0, n + 1) =~= entries.subrange(0, n + 1));
        } else {
            assert(entries.subrange(0, n + 1) =~= entries);
        }
    }
}

/// A cache that is within its budget stays within it through every put, and
/// no key comes to stand in it twice.
pub proof fn lemma_put_within_budget(
    entries: Seq<(Seq<char>, Seq<u8>)>,
    capacity: nat,
    key: Seq<char>,
    value: Seq<u8>,
)
    requires
        keys(entries).no_duplicates(),
        total_len(entries) <= capacity,
    ensures
        keys(after_put(entries, capacity, key, value)).no_duplicates(),
        total_len(after_put(entries, capacity, key, value)) <= capacity,
{
    lemma_put_keeps_keys_apart(entries, capacity, key, value);
    if value.len() <= capacity {
        let kept = fit(without(entries, key), capacity - value.len());
        lemma_fit(without(entries, key), capacity - value.len());
        lemma_total_len_cons((key, value), kept);
    }
}

/// A value that fits the budget is found under its key right after it was
/// put there.
pub proof fn lemma_put_then_get(
    entries: Seq<(Seq<char>, Seq<u8>)>,
    capacity: nat,
    key: Seq<char>,
    value: Seq<u8>,
)
    requires
        keys(entries).no_duplicates(),
        value.len() <= capacity,
    ensures
        lookup(after_put(entries, capacity, key, value), key) == Some(value),
{
    let after = after_put(entries, capacity, key, value);
    lemma_put_keeps_keys_apart(entries, capacity, key, value);
    assert(keys(after)[0] == key);
}

/// After a put no key stands in the cache twice, whatever it held in bytes
/// before.
pub proof fn lemma_put_keeps_keys_apart(
    entries: Seq<(Seq<char>, Seq<u8>)>,
    capacity: nat,
    key: Seq<char>,
    value: Seq<u8>,
)
    requires
        keys(entries).no_duplicates(),
    ensures
        keys(after_put(entries, capacity, key, value)).no_duplicates(),
{
    if value.len() <= capacity {
        let rest = without(entries, key);
        let budget = capacity - value.len();
        let after = after_put(entries, capacity, key, value);
        lemma_without_drops_key(entries, key);
        lemma_fit(rest, budget);
        assert forall|j: int, k: int|
            0 <= j < keys(after).len() && 0 <= k < keys(after).len() && j != k implies keys(
            after,
        )[j] != keys(after)[k] by {
            if j > 0 {
                assert(keys(after)[j] == keys(rest)[j - 1]);
            }
            if k > 0 {
                assert(keys(after)[k] == keys(rest)[k - 1]);
            }
        }
    }
}

/// The number of entries of `entries` that are still there after `value`
/// was put under `key`.
pub open spec fn survivors(
    entries: Seq<(Seq<char>, Seq<u8>)>,
    capacity: nat,
    key: Seq<char>,
    value: Seq<u8>,
) -> int {
    if keys(entries).contains(key) {
        after_put(entries, capacity, key, value).len() as int
    } else {
        after_put(entries, capacity, key, value).len() - 1
    }
}

/// The entries that a put drives out are those that were used least
/// recently: the keys that stay are the first `survivors` of the former
/// order, and the keys that leave are all that follow. This is stated for a
/// key that is new, or that stood among those first ones.
pub proof fn lemma_put_evicts_tail(
    entries: Seq<(Seq<char>, Seq<u8>)>,
    capacity: nat,
    key: Seq<char>,
    value: Seq<u8>,
)
    requires
        keys(entries).no_duplicates(),
        value.len() <= capacity,
        keys(entries).contains(key) ==> keys(entries).index_of(key) < after_put(
            entries,
            capacity,
            key,
            value,
        ).len(),
    ensures
        0 <= survivors(entries, capacity, key, value) <= entries.len(),
        forall|j: int|
            0 <= j < entries.len() ==> (keys(after_put(entries, capacity, key, value)).contains(
                #[trigger] keys(entries)[j],
            ) <==> j < survivors(entries, capacity, key, value)),
{
    let rest = without(entries, key);
    let budget = capacity - value.len();
    let kept = fit(rest, budget);
    let after = after_put(entries, capacity, key, value);
    let m = kept.len() as int;
    lemma_fit(rest, budget);
    lemma_without_drops_key(entries, key);
    if keys(entries).contains(key) {
        let i = keys(entries).index_of(key);
        assert forall|j: int| 0 <= j < entries.len() implies (keys(after).contains(
            #[trigger] keys(entries)[j],
        ) <==> j < m + 1) by {
            if j == i {
                assert(keys(after)[0] == key);
            } else {
                let r = if j < i { j } else { j - 1 };
                assert(keys(rest)[r] == keys(entries)[j]);
                if j < m + 1 {
                    assert(keys(after)[r + 1] == keys(entries)[j]);
                } else {
                    if keys(after).contains(keys(entries)[j]) {
                        let a = keys(after).index_of(keys(entries)[j]);
                        assert(keys(after)[a] == keys(rest)[a - 1]);
                    }
                }
            }
        }
    } else {
        assert forall|j: int| 0 <= j < entries.len() implies (keys(after).contains(
            #[trigger] keys(entries)[j],
        ) <==> j < m) by {
            if j < m {
                assert(keys(after)[j + 1] == keys(entries)[j]);
            } else {
                if keys(after).contains(keys(entries)[j]) {
                    let a = keys(after).index_of(keys(entries)[j]);
                    assert(keys(after)[a] == keys(rest)[a - 1]);
                }
            }
        }
    }
}

} // verus!
