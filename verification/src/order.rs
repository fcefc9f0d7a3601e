//! Putting things in the order of their times, newest first.

use vstd::prelude::*;

use crate::timestamp::Timestamp;

verus! {

/// The instants of a sequence of timestamps.
pub open spec fn instants(times: Seq<Timestamp>) -> Seq<int> {
    times.map_values(|t: Timestamp| t.instant())
}

/// Whether the thing at place `a` stands before the thing at place `b`: the
/// later one first, and of two of the same instant the one that came first.
pub open spec fn stands_before(keys: Seq<int>, a: int, b: int) -> bool {
    keys[a] > keys[b] || (keys[a] == keys[b] && a < b)
}

/// Whether `order` lists places of `keys`, each before all that it stands before.
pub open spec fn is_newest_first(keys: Seq<int>, order: Seq<usize>) -> bool {
    &&& order.len() == keys.len()
    &&& forall|j: int| 0 <= j < order.len() ==> #[trigger] order[j] < keys.len()
    &&& forall|a: int, b: int|
        0 <= a < b < order.len() ==> stands_before(keys, order[a] as int, order[b] as int)
}

/// Where a thing of the instant `key` goes among things that stand newest
/// first: behind all that are not older than it.
pub open spec fn place_of(keys: Seq<int>, order: Seq<usize>, key: int) -> int
    decreases order.len(),
{
    if order.len() == 0 {
        0
    } else if keys[order[0] as int] < key {
        0
    } else {
        1 + place_of(keys, order.drop_first(), key)
    }
}

/// The places of the things, newest first; things of the same instant keep the
/// order they came in. Each thing in turn is put where `place_of` says.
pub open spec fn newest_first_order(keys: Seq<int>) -> Seq<usize>
    decreases keys.len(),
{
    if keys.len() == 0 {
        Seq::empty()
    } else {
        let before = newest_first_order(keys.drop_last());
        before.insert(place_of(keys, before, keys.last()), (keys.len() - 1) as usize)
    }
}

/// `place_of` gives the first place that holds something older than `key`, or
/// the end.
pub proof fn lemma_place_of(keys: Seq<int>, order: Seq<usize>, key: int)
    ensures
        0 <= place_of(keys, order, key) <= order.len(),
        forall|j: int|
            0 <= j < place_of(keys, order, key) ==> keys[(#[trigger] order[j]) as int] >= key,
        place_of(keys, order, key) < order.len() ==> keys[order[place_of(keys, order, key)] as int]
            < key,
    decreases order.len(),
{
    if order.len() > 0 && !(keys[order[0] as int] < key) {
        let rest = order.drop_first();
        lemma_place_of(keys, rest, key);
        let p = place_of(keys, rest, key);
        assert forall|j: int| 0 <= j < p + 1 implies keys[(#[trigger] order[j]) as int] >= key by {
            if j > 0 {
                assert(rest[j - 1] == order[j]);
            }
        }
        if p < rest.len() {
            assert(rest[p] == order[p + 1]);
        }
    }
}

/// A place that is the first to hold something older than `key`, or the end,
/// is the one that `place_of` gives.
pub proof fn lemma_place_of_unique(keys: Seq<int>, order: Seq<usize>, key: int, p: int)
    requires
        0 <= p <= order.len(),
        forall|j: int| 0 <= j < p ==> keys[(#[trigger] order[j]) as int] >= key,
        p < order.len() ==> keys[order[p] as int] < key,
    ensures
        place_of(keys, order, key) == p,
{
    lemma_place_of(keys, order, key);
    let q = place_of(keys, order, key);
    if q < p {
        assert(keys[order[q] as int] >= key);
    } else if p < q {
        assert(keys[order[p] as int] >= key);
    }
}

/// The order of a longer sequence of keys, cut to the places of a shorter one,
/// does not look at the keys beyond.
proof fn lemma_order_of_prefix(keys: Seq<int>, n: int)
    requires
        0 <= n <= keys.len(),
        n <= usize::MAX,
    ensures
        forall|j: int|
            0 <= j < newest_first_order(keys.take(n)).len() ==> (#[trigger] newest_first_order(
                keys.take(n),
            )[j]) < n,
        newest_first_order(keys.take(n)).len() == n,
    decreases n,
{
    if n > 0 {
        let k = keys.take(n);
        assert(k.drop_last() =~= keys.take(n - 1));
        lemma_order_of_prefix(keys, n - 1);
        let before = newest_first_order(k.drop_last());
        lemma_place_of(k, before, k.last());
    }
}

/// `newest_first_order` lists every place once, newest first, and things of the
/// same instant in the order they came in.
pub proof fn lemma_newest_first(keys: Seq<int>)
    requires
        keys.len() <= usize::MAX,
    ensures
        is_newest_first(keys, newest_first_order(keys)),
    decreases keys.len(),
{
    if keys.len() > 0 {
        let init = keys.drop_last();
        let before = newest_first_order(init);
        lemma_newest_first(init);
        let key = keys.last();
        lemma_place_of(keys, before, key);
        let p = place_of(keys, before, key);
        let i = (keys.len() - 1) as usize;
        let after = before.insert(p, i);
        assert forall|a: int, b: int| 0 <= a < b < after.len() implies stands_before(
            keys,
            after[a] as int,
            after[b] as int,
        ) by {
            if b == p {
                assert(after[a] == before[a]);
                assert(keys[before[a] as int] == init[before[a] as int]);
            } else if a == p {
                assert(after[b] == before[b - 1]);
                if b - 1 > p {
                    assert(stands_before(init, before[p] as int, before[b - 1] as int));
                }
                assert(keys[before[p] as int] == init[before[p] as int]);
                assert(keys[before[b - 1] as int] == init[before[b - 1] as int]);
            } else {
                let a0 = if a < p {
                    a
                } else {
                    a - 1
                };
                let b0 = if b < p {
                    b
                } else {
                    b - 1
                };
                assert(after[a] == before[a0]);
                assert(after[b] == before[b0]);
                assert(stands_before(init, before[a0] as int, before[b0] as int));
                assert(keys[before[a0] as int] == init[before[a0] as int]);
                assert(keys[before[b0] as int] == init[before[b0] as int]);
            }
        }
        assert forall|j: int| 0 <= j < after.len() implies #[trigger] after[j] < keys.len() by {
            if j < p {
                assert(after[j] == before[j]);
            } else if j > p {
                assert(after[j] == before[j - 1]);
            }
        }
    }
}

/// The places of the timestamps, newest first; timestamps of the same instant
/// keep the order they came in.
pub fn newest_first(times: &Vec<Timestamp>) -> (order: Vec<usize>)
    ensures
        order@ == newest_first_order(instants(times@)),
        is_newest_first(instants(times@), order@),
{
    let ghost keys = instants(times@);
    let mut order: Vec<usize> = Vec::new();
    let mut i: usize = 0;
    while i < times.len()
        invariant
            i <= times@.len(),
            keys == instants(times@),
            order@ == newest_first_order(keys.take(i as int)),
            order@.len() == i,
            forall|j: int| 0 <= j < order@.len() ==> #[trigger] order@[j] < i,
        decreases times@.len() - i,
    {
        let at = times[i];
        let mut p: usize = 0;
        let mut stop = false;
        while p < order.len() && !stop
            invariant
                p <= order@.len(),
                i < times@.len(),
                keys == instants(times@),
                at == times@[i as int],
                forall|j: int| 0 <= j < order@.len() ==> #[trigger] order@[j] < i,
                forall|j: int| 0 <= j < p ==> keys[(#[trigger] order@[j]) as int] >= keys[i as int],
                stop ==> p < order@.len() && keys[order@[p as int] as int] < keys[i as int],
            decreases order@.len() - p + (if stop { 0int } else { 1int }),
        {
            let there = times[order[p]];
            if there.is_before(&at) {
                stop = true;
            } else {
                p = p + 1;
            }
        }
        proof {
            let k = keys.take(i as int + 1);
            assert(k.drop_last() =~= keys.take(i as int));
            assert(k.last() == keys[i as int]);
            assert forall|j: int| 0 <= j < p implies k[(#[trigger] order@[j]) as int] >= k.last() by {
                assert(k[order@[j] as int] == keys[order@[j] as int]);
            }
            if p < order@.len() {
                assert(k[order@[p as int] as int] == keys[order@[p as int] as int]);
            }
            lemma_place_of_unique(k, order@, k.last(), p as int);
            lemma_order_of_prefix(keys, i as int + 1);
        }
        order.insert(p, i);
        i = i + 1;
    }
    proof {
        assert(keys.take(times@.len() as int) =~= keys);
        lemma_newest_first(keys);
    }
    order
}

} // verus!
