use vstd::prelude::*;
use crate::counters::{bump, counter_of};

verus! {

// Every update to the store happens under its lock, so whatever the
// interleaving of callers, the updates that succeed form one sequence: an
// `(key, up)` pair per call, `up` for an increment. These functions describe
// the store after such a sequence.

/// The counters after applying `ops` in order to an empty store.
pub open spec fn replay(ops: Seq<(Seq<char>, bool)>) -> Map<Seq<char>, int>
    decreases ops.len(),
{
    if ops.len() == 0 {
        Map::empty()
    } else {
        bump(replay(ops.drop_last()), ops.last().0, ops.last().1)
    }
}

/// How many of `ops` are updates of `key` in direction `up`.
pub open spec fn count(ops: Seq<(Seq<char>, bool)>, key: Seq<char>, up: bool) -> nat
    decreases ops.len(),
{
    if ops.len() == 0 {
        0
    } else {
        count(ops.drop_last(), key, up) + if ops.last() == (key, up) {
            1nat
        } else {
            0nat
        }
    }
}

/// A successful `Counters::inc` or `Counters::dec` on a table holding
/// `replay(ops)` leaves it holding the replay of `ops` followed by that update.
pub proof fn lemma_update_extends_replay(ops: Seq<(Seq<char>, bool)>, key: Seq<char>, up: bool)
    ensures
        bump(replay(ops), key, up) == replay(ops.push((key, up))),
{
    assert(ops.push((key, up)).drop_last() == ops);
}

/// No update is lost: after any sequence of updates, a key holds its number of
/// increments minus its number of decrements, and it is present exactly when
/// some update touched it.
pub proof fn lemma_no_lost_updates(ops: Seq<(Seq<char>, bool)>, key: Seq<char>)
    ensures
        counter_of(replay(ops), key) == count(ops, key, true) - count(ops, key, false),
        replay(ops).contains_key(key) <==> count(ops, key, true) + count(ops, key, false) > 0,
    decreases ops.len(),
{
    if ops.len() > 0 {
        lemma_no_lost_updates(ops.drop_last(), key);
    }
}

/// Counting over a prefix never gives more than counting over the whole.
pub proof fn lemma_count_prefix(ops: Seq<(Seq<char>, bool)>, n: int, key: Seq<char>, up: bool)
    requires
        0 <= n <= ops.len(),
    ensures
        count(ops.take(n), key, up) <= count(ops, key, up),
    decreases ops.len(),
{
    if n < ops.len() {
        assert(ops.drop_last().take(n) == ops.take(n));
        lemma_count_prefix(ops.drop_last(), n, key, up);
    } else {
        assert(ops.take(n) == ops);
    }
}

/// No torn read: a copy taken after any prefix of the updates shows each key
/// at `a' - b'`, its increments and decrements within that prefix, which are
/// at most those of the whole sequence.
pub proof fn lemma_no_torn_reads(ops: Seq<(Seq<char>, bool)>, n: int, key: Seq<char>)
    requires
        0 <= n <= ops.len(),
    ensures
        counter_of(replay(ops.take(n)), key) == count(ops.take(n), key, true) - count(
            ops.take(n),
            key,
            false,
        ),
        count(ops.take(n), key, true) <= count(ops, key, true),
        count(ops.take(n), key, false) <= count(ops, key, false),
{
    lemma_no_lost_updates(ops.take(n), key);
    lemma_count_prefix(ops, n, key, true);
    lemma_count_prefix(ops, n, key, false);
}

/// Keys are created on first use: one increment of a key in an empty store
/// gives it 1, one decrement gives it -1, and nothing else appears.
pub proof fn lemma_lazy_key_creation(key: Seq<char>)
    ensures
        bump(Map::empty(), key, true) == Map::<Seq<char>, int>::empty().insert(key, 1),
        bump(Map::empty(), key, false) == Map::<Seq<char>, int>::empty().insert(key, -1),
{
}

} // verus!
