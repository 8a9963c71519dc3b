//! Stable ordering by an integer key.
//!
//! To bring items into ascending order of their keys without disturbing the
//! order of items whose keys are equal, the library computes the order as a
//! sequence of positions: the item to put first, the item to put second, and
//! so on.

use vstd::prelude::*;

verus! {

/// The keys of a vector as mathematical integers.
pub open spec fn as_ints(keys: Seq<i64>) -> Seq<int> {
    keys.map_values(|k: i64| k as int)
}

/// The positions of a vector as mathematical integers.
pub open spec fn as_positions(order: Seq<usize>) -> Seq<int> {
    order.map_values(|i: usize| i as int)
}

/// Where, in an order of positions, a new item with key `key` goes: behind
/// the last position whose key is not greater than `key`.
pub open spec fn insertion_point(keys: Seq<int>, order: Seq<int>, key: int) -> int
    decreases order.len(),
{
    if order.len() == 0 || keys[order.last()] <= key {
        order.len() as int
    } else {
        insertion_point(keys, order.drop_last(), key)
    }
}

/// The stable ascending order of the first `n` keys: the order of the first
/// `n - 1`, with position `n - 1` put in behind every position whose key is
/// not greater than its own.
pub open spec fn stable_order_upto(keys: Seq<int>, n: nat) -> Seq<int>
    decreases n,
{
    if n == 0 {
        Seq::empty()
    } else {
        let rest = stable_order_upto(keys, (n - 1) as nat);
        rest.insert(insertion_point(keys, rest, keys[n - 1]), n - 1)
    }
}

/// The stable ascending order of `keys`, as a sequence of positions.
pub open spec fn stable_order(keys: Seq<int>) -> Seq<int> {
    stable_order_upto(keys, keys.len())
}

/// The items of `items` in the order that `order` gives.
pub open spec fn in_order<T>(items: Seq<T>, order: Seq<int>) -> Seq<T> {
    Seq::new(order.len(), |i: int| items[order[i]])
}

/// What makes `order` the stable ascending order of the first `n` keys: it
/// names each of the first `n` positions once, the keys do not descend along
/// it, and positions with equal keys come in their original order.
pub open spec fn is_stable_order(keys: Seq<int>, n: nat, order: Seq<int>) -> bool {
    &&& order.len() == n
    &&& forall|i: int| 0 <= i < n ==> 0 <= #[trigger] order[i] < n
    &&& forall|k: int| 0 <= k < n ==> #[trigger] order.contains(k)
    &&& forall|i: int, j: int|
        0 <= i < j < n ==> keys[#[trigger] order[i]] <= keys[#[trigger] order[j]]
    &&& forall|i: int, j: int|
        0 <= i < j < n && keys[#[trigger] order[i]] == keys[#[trigger] order[j]] ==> order[i]
            < order[j]
}

/// An insertion point lies inside the order, every position behind it has a
/// greater key, and the position just before it has not.
pub proof fn lemma_insertion_point(keys: Seq<int>, order: Seq<int>, key: int)
    ensures
        0 <= insertion_point(keys, order, key) <= order.len(),
        forall|j: int|
            insertion_point(keys, order, key) <= j < order.len() ==> keys[#[trigger] order[j]]
                > key,
        insertion_point(keys, order, key) > 0 ==> keys[order[insertion_point(keys, order, key)
            - 1]] <= key,
    decreases order.len(),
{
    if order.len() == 0 || keys[order.last()] <= key {
    } else {
        let rest = order.drop_last();
        lemma_insertion_point(keys, rest, key);
        assert forall|j: int|
            insertion_point(keys, order, key) <= j < order.len() implies keys[#[trigger] order[j]]
            > key by {
            if j < rest.len() {
                assert(rest[j] == order[j]);
            }
        }
        if insertion_point(keys, order, key) > 0 {
            assert(rest[insertion_point(keys, order, key) - 1] == order[insertion_point(
                keys,
                order,
                key,
            ) - 1]);
        }
    }
}

/// The order that [`stable_order_upto`] builds is the stable ascending
/// order.
pub proof fn lemma_stable_order_upto(keys: Seq<int>, n: nat)
    requires
        n <= keys.len(),
    ensures
        is_stable_order(keys, n, stable_order_upto(keys, n)),
    decreases n,
{
    if n > 0 {
        let rest = stable_order_upto(keys, (n - 1) as nat);
        let key = keys[n - 1];
        let p = insertion_point(keys, rest, key);
        let order = stable_order_upto(keys, n);
        lemma_stable_order_upto(keys, (n - 1) as nat);
        lemma_insertion_point(keys, rest, key);
        assert(order == rest.insert(p, n - 1));
        assert(order.len() == n);
        assert forall|i: int| 0 <= i < n implies 0 <= #[trigger] order[i] < n by {
            if i < p {
                assert(order[i] == rest[i]);
            } else if i > p {
                assert(order[i] == rest[i - 1]);
            }
        }
        assert forall|k: int| 0 <= k < n implies #[trigger] order.contains(k) by {
            if k == n - 1 {
                assert(order[p] == k);
            } else {
                assert(rest.contains(k));
                let at = choose|at: int| 0 <= at < rest.len() && rest[at] == k;
                if at < p {
                    assert(order[at] == k);
                } else {
                    assert(order[at + 1] == k);
                }
            }
        }
        assert forall|i: int, j: int| 0 <= i < j < n implies keys[#[trigger] order[i]]
            <= keys[#[trigger] order[j]] by {
            let a = if i < p { i } else { i - 1 };
            let b = if j < p { j } else { j - 1 };
            if i != p && j != p {
                assert(order[i] == rest[a] && order[j] == rest[b]);
            } else if j == p {
                assert(order[i] == rest[i]);
                if i < p - 1 {
                    assert(keys[rest[i]] <= keys[rest[p - 1]]);
                }
            } else {
                assert(order[j] == rest[j - 1]);
            }
        }
        assert forall|i: int, j: int|
            0 <= i < j < n && keys[#[trigger] order[i]] == keys[#[trigger] order[j]] implies order[i]
            < order[j] by {
            let a = if i < p { i } else { i - 1 };
            let b = if j < p { j } else { j - 1 };
            if i != p && j != p {
                assert(order[i] == rest[a] && order[j] == rest[b]);
            } else if j == p {
                assert(order[i] == rest[i]);
            } else {
                assert(order[j] == rest[j - 1]);
            }
        }
    }
}

/// The stable order of a sequence of keys names every position once, in
/// ascending order of the keys, and leaves equal keys in their original
/// order.
pub proof fn lemma_stable_order(keys: Seq<int>)
    ensures
        is_stable_order(keys, keys.len(), stable_order(keys)),
{
    lemma_stable_order_upto(keys, keys.len());
}

/// Computes the stable ascending order of `keys`: the position of the item
/// to put first, then that of the item to put second, and so on.
pub fn stable_order_of(keys: &Vec<i64>) -> (order: Vec<usize>)
    ensures
        as_positions(order@) == stable_order(as_ints(keys@)),
        is_stable_order(as_ints(keys@), keys@.len(), as_positions(order@)),
        order@.len() == keys@.len(),
        forall|i: int| 0 <= i < order@.len() ==> order@[i] < keys@.len(),
{
    let ghost all = as_ints(keys@);
    let mut order: Vec<usize> = Vec::new();
    let mut n: usize = 0;
    assert(as_positions(order@) =~= stable_order_upto(all, 0));
    while n < keys.len()
        invariant
            n <= keys.len(),
            all == as_ints(keys@),
            as_positions(order@) == stable_order_upto(all, n as nat),
            order@.len() == n,
            forall|i: int| 0 <= i < order@.len() ==> order@[i] < n,
        decreases keys.len() - n,
    {
        let key: i64 = keys[n];
        let ghost before = as_positions(order@);
        let mut p: usize = order.len();
        assert(before.take(p as int) == before);
        while p > 0 && keys[order[p - 1]] > key
            invariant
                p <= order.len(),
                n < keys.len(),
                all == as_ints(keys@),
                before == as_positions(order@),
                key == keys@[n as int],
                forall|i: int| 0 <= i < order@.len() ==> order@[i] < n,
                insertion_point(all, before, key as int) == insertion_point(
                    all,
                    before.take(p as int),
                    key as int,
                ),
            decreases p,
        {
            assert(before.take(p as int).drop_last() == before.take(p - 1));
            assert(before.take(p as int).last() == order@[p - 1]);
            p -= 1;
        }
        proof {
            if p > 0 {
                assert(before.take(p as int).last() == order@[p - 1]);
            }
            assert(insertion_point(all, before, key as int) == p);
        }
        order.insert(p, n);
        proof {
            assert(as_positions(order@) =~= before.insert(p as int, n as int));
            assert(all[n as int] == key);
        }
        n += 1;
    }
    proof {
        lemma_stable_order(all);
    }
    order
}

} // verus!
