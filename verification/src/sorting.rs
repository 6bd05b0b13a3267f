//! A stable sort, largest key first.

use vstd::prelude::*;

verus! {

/// Where an item with this key goes among the first `n` of `sorted`: behind
/// everything whose key is at least as large.
pub open spec fn slot<T>(sorted: Seq<(u64, T)>, key: u64, n: int) -> int
    decreases n,
{
    if n <= 0 {
        0
    } else if sorted[n - 1].0 < key {
        slot(sorted, key, n - 1)
    } else {
        n
    }
}

/// `sorted` with one more item, behind its equals.
pub open spec fn insert_descending<T>(sorted: Seq<(u64, T)>, item: (u64, T)) -> Seq<(u64, T)> {
    sorted.insert(slot(sorted, item.0, sorted.len() as int), item)
}

/// The items by descending key, equal keys in their given order.
pub open spec fn descending<T>(items: Seq<(u64, T)>) -> Seq<(u64, T)>
    decreases items.len(),
{
    if items.len() == 0 {
        Seq::empty()
    } else {
        insert_descending(descending(items.drop_last()), items.last())
    }
}

/// The keys never rise from one item to a later one.
pub open spec fn is_descending<T>(items: Seq<(u64, T)>) -> bool {
    forall|i: int, j: int| 0 <= i <= j < items.len() ==> items[i].0 >= items[j].0
}

proof fn lemma_slot<T>(sorted: Seq<(u64, T)>, key: u64, n: int)
    requires
        0 <= n <= sorted.len(),
    ensures
        0 <= slot(sorted, key, n) <= n,
        forall|i: int| slot(sorted, key, n) <= i < n ==> (#[trigger] sorted[i]).0 < key,
        slot(sorted, key, n) > 0 ==> sorted[slot(sorted, key, n) - 1].0 >= key,
    decreases n,
{
    if n > 0 && sorted[n - 1].0 < key {
        lemma_slot(sorted, key, n - 1);
    }
}

/// Sorting keeps every item, and only those, and puts larger keys first.
pub proof fn law_descending_sorts<T>(items: Seq<(u64, T)>)
    ensures
        is_descending(descending(items)),
        descending(items).to_multiset() == items.to_multiset(),
        descending(items).len() == items.len(),
    decreases items.len(),
{
    broadcast use vstd::seq_lib::group_to_multiset_ensures;

    if items.len() > 0 {
        let rest = items.drop_last();
        let sorted = descending(rest);
        let last = items.last();
        law_descending_sorts(rest);
        lemma_slot(sorted, last.0, sorted.len() as int);
        let at = slot(sorted, last.0, sorted.len() as int);
        let all = descending(items);
        assert(all == sorted.insert(at, last));
        assert forall|i: int, j: int| 0 <= i <= j < all.len() implies all[i].0 >= all[j].0 by {
            assert(all[i] == if i < at {
                sorted[i]
            } else if i == at {
                last
            } else {
                sorted[i - 1]
            });
            assert(all[j] == if j < at {
                sorted[j]
            } else if j == at {
                last
            } else {
                sorted[j - 1]
            });
            if i < at && j == at {
                assert(sorted[i].0 >= sorted[at - 1].0);
            }
            if i < at && j > at {
                assert(sorted[i].0 >= sorted[j - 1].0);
            }
        }
        vstd::seq_lib::to_multiset_insert(sorted, at, last);
        assert(items == rest.push(last));
        assert(all.to_multiset() =~= items.to_multiset());
    } else {
        assert(descending(items) =~= items);
    }
}

/// Sorts by descending key, equal keys in their given order.
pub fn sort_descending<T: Copy>(items: &Vec<(u64, T)>) -> (sorted: Vec<(u64, T)>)
    ensures
        sorted@ == descending(items@),
{
    let mut sorted: Vec<(u64, T)> = Vec::new();
    let mut i: usize = 0;
    assert(items@.take(0) =~= Seq::empty());
    while i < items.len()
        invariant
            i <= items.len(),
            sorted@.len() == i,
            sorted@ == descending(items@.take(i as int)),
        decreases items.len() - i,
    {
        let item = items[i];
        let mut at: usize = sorted.len();
        while at > 0 && sorted[at - 1].0 < item.0
            invariant
                at <= sorted@.len(),
                slot(sorted@, item.0, sorted@.len() as int) == slot(sorted@, item.0, at as int),
            decreases at,
        {
            at = at - 1;
        }
        assert(slot(sorted@, item.0, at as int) == at);
        assert(items@.take(i + 1).drop_last() =~= items@.take(i as int));
        sorted.insert(at, item);
        i = i + 1;
    }
    assert(items@.take(i as int) =~= items@);
    sorted
}

/// `from` says of every sorted item where it stood: each place once, and of
/// equal keys the earlier place first.
pub open spec fn is_stable_order<T>(
    items: Seq<(u64, T)>,
    sorted: Seq<(u64, T)>,
    from: Seq<int>,
) -> bool {
    &&& from.len() == items.len()
    &&& sorted.len() == items.len()
    &&& forall|i: int|
        0 <= i < from.len() ==> 0 <= #[trigger] from[i] < items.len() && sorted[i]
            == items[from[i]]
    &&& forall|i: int, j: int| 0 <= i < j < from.len() ==> from[i] != from[j]
    &&& forall|k: int| 0 <= k < items.len() ==> #[trigger] from.contains(k)
    &&& forall|i: int, j: int|
        0 <= i < j < from.len() ==> sorted[i].0 > sorted[j].0 || sorted[i].0 == sorted[j].0
            && from[i] < from[j]
}

/// Sorting puts every item in one place, larger keys first, and leaves items
/// with equal keys in the order they had.
pub proof fn law_equal_keys_keep_their_order<T>(items: Seq<(u64, T)>) -> (from: Seq<int>)
    ensures
        is_stable_order(items, descending(items), from),
    decreases items.len(),
{
    if items.len() == 0 {
        Seq::empty()
    } else {
        let rest = items.drop_last();
        let last = items.last();
        let n = rest.len() as int;
        let before = law_equal_keys_keep_their_order(rest);
        let sorted = descending(rest);
        let at = slot(sorted, last.0, n);
        law_descending_sorts(rest);
        lemma_slot(sorted, last.0, n);
        let from = before.insert(at, n);
        let all = descending(items);
        assert(all == sorted.insert(at, last));
        assert forall|i: int| 0 <= i < from.len() implies 0 <= #[trigger] from[i] < items.len()
            && all[i] == items[from[i]] by {
            if i < at {
                assert(from[i] == before[i]);
            } else if i > at {
                assert(from[i] == before[i - 1]);
            }
        }
        assert forall|k: int| 0 <= k < items.len() implies #[trigger] from.contains(k) by {
            if k == n {
                assert(from[at] == k);
            } else {
                assert(before.contains(k));
                let i = choose|i: int| 0 <= i < before.len() && before[i] == k;
                if i < at {
                    assert(from[i] == k);
                } else {
                    assert(from[i + 1] == k);
                }
            }
        }
        assert forall|i: int, j: int| 0 <= i < j < from.len() implies from[i] != from[j] && (
        all[i].0 > all[j].0 || all[i].0 == all[j].0 && from[i] < from[j]) by {
            let (a, b) = (
                if i > at {
                    i - 1
                } else {
                    i
                },
                if j > at {
                    j - 1
                } else {
                    j
                },
            );
            if i != at && j != at {
                assert(before[a] != before[b]);
                assert(sorted[a].0 > sorted[b].0 || sorted[a].0 == sorted[b].0 && before[a]
                    < before[b]);
            } else if j == at {
                assert(0 <= before[a] < n);
                if a < at - 1 {
                    assert(sorted[a].0 >= sorted[at - 1].0);
                }
            } else {
                assert(0 <= before[b] < n);
                assert(sorted[b].0 < last.0);
            }
        }
        from
    }
}

} // verus!
