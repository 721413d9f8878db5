//! The cache seen over time: what a run of puts and gets leaves in it, and
//! why the order of its entries is the order of their last use.

use crate::cache::{
    after_get, after_put, keys, lemma_fit, lemma_put_within_budget,
    lemma_total_len_cons, lemma_total_len_remove, lemma_without_drops_key, total_len, without,
};
use vstd::prelude::*;

verus! {

/// One use of the cache.
pub enum Access {
    Put { key: Seq<char>, value: Seq<u8> },
    Get { key: Seq<char> },
}

/// What the cache holds after one use.
pub open spec fn apply(entries: Seq<(Seq<char>, Seq<u8>)>, capacity: nat, access: Access) -> Seq<
    (Seq<char>, Seq<u8>),
> {
    match access {
        Access::Put { key, value } => after_put(entries, capacity, key, value),
        Access::Get { key } => after_get(entries, key),
    }
}

/// What a cache that started empty holds after the uses of `trace`, in
/// their order.
pub open spec fn replay(capacity: nat, trace: Seq<Access>) -> Seq<(Seq<char>, Seq<u8>)>
    decreases trace.len(),
{
    if trace.len() == 0 {
        Seq::empty()
    } else {
        apply(replay(capacity, trace.drop_last()), capacity, trace.last())
    }
}

/// Whether `access`, made on a cache that holds `entries`, is a use of
/// `key`: a put of a value that fits, or a get that finds the key.
pub open spec fn touches(
    entries: Seq<(Seq<char>, Seq<u8>)>,
    capacity: nat,
    access: Access,
    key: Seq<char>,
) -> bool {
    match access {
        Access::Put { key: k, value } => k == key && value.len() <= capacity,
        Access::Get { key: k } => k == key && keys(entries).contains(key),
    }
}

/// The place in `trace` of the last use of `key`, or -1 if it was never
/// used.
pub open spec fn last_access(capacity: nat, trace: Seq<Access>, key: Seq<char>) -> int
    decreases trace.len(),
{
    if trace.len() == 0 {
        -1
    } else if touches(replay(capacity, trace.drop_last()), capacity, trace.last(), key) {
        trace.len() - 1
    } else {
        last_access(capacity, trace.drop_last(), key)
    }
}

/// The last use of a key lies within the trace.
pub proof fn lemma_last_access_bound(capacity: nat, trace: Seq<Access>, key: Seq<char>)
    ensures
        -1 <= last_access(capacity, trace, key) < trace.len(),
    decreases trace.len(),
{
    if trace.len() > 0 {
        lemma_last_access_bound(capacity, trace.drop_last(), key);
    }
}

/// A get changes neither the keys that are there nor the bytes they hold.
pub proof fn lemma_get_keeps_entries(entries: Seq<(Seq<char>, Seq<u8>)>, key: Seq<char>)
    requires
        keys(entries).no_duplicates(),
    ensures
        keys(after_get(entries, key)).no_duplicates(),
        total_len(after_get(entries, key)) == total_len(entries),
        after_get(entries, key).len() == entries.len(),
{
    if keys(entries).contains(key) {
        let i = keys(entries).index_of(key);
        let rest = without(entries, key);
        let after = after_get(entries, key);
        lemma_without_drops_key(entries, key);
        lemma_total_len_remove(entries, i);
        lemma_total_len_cons(entries[i], rest);
        assert forall|j: int, k: int|
            0 <= j < keys(after).len() && 0 <= k < keys(after).len() && j != k implies keys(
            after,
        )[j] != keys(after)[k] by {
            if j > 0 {
                assert(keys(rest).contains(keys(rest)[j - 1]));
            }
            if k > 0 {
                assert(keys(rest).contains(keys(rest)[k - 1]));
            }
        }
    }
}

/// Whatever the uses were, the cache holds no key twice and no more bytes
/// than its capacity.
pub proof fn lemma_replay_within_budget(capacity: nat, trace: Seq<Access>)
    ensures
        keys(replay(capacity, trace)).no_duplicates(),
        total_len(replay(capacity, trace)) <= capacity,
    decreases trace.len(),
{
    if trace.len() > 0 {
        let before = replay(capacity, trace.drop_last());
        lemma_replay_within_budget(capacity, trace.drop_last());
        match trace.last() {
            Access::Put { key, value } => {
                lemma_put_within_budget(before, capacity, key, value);
            },
            Access::Get { key } => {
                lemma_get_keeps_entries(before, key);
            },
        }
    }
}

/// The entries that follow the head after a use of `key` are entries that
/// were there before, under other keys and in the order they had.
proof fn lemma_tail_keeps_order(
    before: Seq<(Seq<char>, Seq<u8>)>,
    capacity: nat,
    access: Access,
    key: Seq<char>,
    j: int,
) -> (b: int)
    requires
        keys(before).no_duplicates(),
        touches(before, capacity, access, key),
        0 < j < apply(before, capacity, access).len(),
    ensures
        0 <= b < before.len(),
        apply(before, capacity, access)[j] == before[b],
        keys(before)[b] != key,
        keys(apply(before, capacity, access))[0] == key,
        keys(before).contains(key) && j - 1 >= keys(before).index_of(key) ==> b == j,
        !(keys(before).contains(key) && j - 1 >= keys(before).index_of(key)) ==> b == j - 1,
{
    let rest = without(before, key);
    if let Access::Put { key: k, value } = access {
        lemma_fit(rest, capacity - value.len());
    }
    if keys(before).contains(key) {
        let i = keys(before).index_of(key);
        if j - 1 >= i {
            j
        } else {
            j - 1
        }
    } else {
        j - 1
    }
}

/// The order of the cache is the order of last use: every key that is there
/// was used, and of two keys the one that stands nearer the head was used
/// later.
pub proof fn lemma_order_is_recency(capacity: nat, trace: Seq<Access>)
    ensures
        forall|i: int|
            0 <= i < replay(capacity, trace).len() ==> 0 <= last_access(
                capacity,
                trace,
                #[trigger] keys(replay(capacity, trace))[i],
            ),
        forall|i: int, j: int|
            0 <= i < j < replay(capacity, trace).len() ==> last_access(
                capacity,
                trace,
                #[trigger] keys(replay(capacity, trace))[i],
            ) > last_access(capacity, trace, #[trigger] keys(replay(capacity, trace))[j]),
    decreases trace.len(),
{
    if trace.len() > 0 {
        let earlier = trace.drop_last();
        let access = trace.last();
        let before = replay(capacity, earlier);
        let after = replay(capacity, trace);
        lemma_order_is_recency(capacity, earlier);
        let used = match access {
            Access::Put { key, value } => key,
            Access::Get { key } => key,
        };
        if touches(before, capacity, access, used) {
            assert forall|i: int| 0 <= i < after.len() implies 0 <= last_access(
                capacity,
                trace,
                #[trigger] keys(after)[i],
            ) by {
                if i > 0 {
                    lemma_tail_keeps_order(before, capacity, access, used, i);
                }
            }
            assert forall|i: int, j: int| 0 <= i < j < after.len() implies last_access(
                capacity,
                trace,
                #[trigger] keys(after)[i],
            ) > last_access(capacity, trace, #[trigger] keys(after)[j]) by {
                lemma_tail_keeps_order(before, capacity, access, used, j);
                lemma_last_access_bound(capacity, earlier, keys(after)[j]);
                if i > 0 {
                    lemma_tail_keeps_order(before, capacity, access, used, i);
                }
            }
        }
    }
}

} // verus!
