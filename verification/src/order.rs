//! Stable sorting: which positions a list's items take when they are ordered by a key.

use vstd::prelude::*;

verus! {

/// The order with position `x` added: behind every position whose key is not greater.
pub open spec fn order_with(keys: Seq<usize>, order: Seq<int>, x: int) -> Seq<int>
    decreases order.len(),
{
    if order.len() == 0 || keys[order.last()] <= keys[x] {
        order.push(x)
    } else {
        order_with(keys, order.drop_last(), x).push(order.last())
    }
}

/// The first `n` positions, ordered by their keys; equal keys keep their order.
pub open spec fn order_of_first(keys: Seq<usize>, n: nat) -> Seq<int>
    decreases n,
{
    if n == 0 {
        Seq::empty()
    } else {
        order_with(keys, order_of_first(keys, (n - 1) as nat), n - 1)
    }
}

/// All positions, ordered by their keys; equal keys keep their order.
pub open spec fn stable_order(keys: Seq<usize>) -> Seq<int> {
    order_of_first(keys, keys.len())
}

/// Whether position `a` comes before position `b`: by a smaller key or, with equal keys, by
/// standing earlier.
pub open spec fn comes_before(keys: Seq<usize>, a: int, b: int) -> bool {
    keys[a] < keys[b] || (keys[a] == keys[b] && a < b)
}

pub open spec fn in_order(keys: Seq<usize>, order: Seq<int>) -> bool {
    forall|i: int, j: int|
        0 <= i < j < order.len() ==> comes_before(keys, #[trigger] order[i], #[trigger] order[j])
}

proof fn lemma_order_with(keys: Seq<usize>, order: Seq<int>, x: int)
    requires
        in_order(keys, order),
        forall|i: int| 0 <= i < order.len() ==> 0 <= #[trigger] order[i] < x,
        0 <= x < keys.len(),
    ensures
        in_order(keys, order_with(keys, order, x)),
        order_with(keys, order, x).len() == order.len() + 1,
        forall|i: int|
            0 <= i <= order.len() ==> (#[trigger] order_with(keys, order, x)[i] == x || order.contains(
                order_with(keys, order, x)[i],
            )),
        order_with(keys, order, x).contains(x),
        forall|v: int| order.contains(v) ==> order_with(keys, order, x).contains(v),
    decreases order.len(),
{
    let r = order_with(keys, order, x);
    if order.len() == 0 || keys[order.last()] <= keys[x] {
        assert(r[order.len() as int] == x);
        assert forall|i: int, j: int| 0 <= i < j < r.len() implies comes_before(
            keys,
            #[trigger] r[i],
            #[trigger] r[j],
        ) by {
            if j == order.len() {
                assert(order[i] < x);
                if i < order.len() - 1 {
                    assert(comes_before(keys, order[i], order[order.len() - 1]));
                }
            }
        }
        assert forall|v: int| order.contains(v) implies r.contains(v) by {
            let k = choose|k: int| 0 <= k < order.len() && order[k] == v;
            assert(r[k] == v);
        }
    } else {
        let init = order.drop_last();
        lemma_order_with(keys, init, x);
        let s = order_with(keys, init, x);
        assert forall|i: int, j: int| 0 <= i < j < r.len() implies comes_before(
            keys,
            #[trigger] r[i],
            #[trigger] r[j],
        ) by {
            if j == s.len() {
                if s[i] == x {
                } else {
                    assert(init.contains(s[i]));
                    let k = choose|k: int| 0 <= k < init.len() && init[k] == s[i];
                    assert(comes_before(keys, order[k], order[order.len() - 1]));
                }
            } else {
                assert(r[i] == s[i] && r[j] == s[j]);
            }
        }
        assert forall|i: int| 0 <= i <= order.len() implies (#[trigger] r[i] == x || order.contains(r[i])) by {
            if i == order.len() {
                assert(order.contains(order.last()));
            } else {
                assert(r[i] == s[i]);
                if s[i] != x {
                    let k = choose|k: int| 0 <= k < init.len() && init[k] == s[i];
                    assert(order[k] == s[i]);
                }
            }
        }
        let k = choose|k: int| 0 <= k < s.len() && s[k] == x;
        assert(r[k] == x);
        assert forall|v: int| order.contains(v) implies r.contains(v) by {
            let k = choose|k: int| 0 <= k < order.len() && order[k] == v;
            if k == order.len() - 1 {
                assert(r[order.len() as int] == v);
            } else {
                assert(init[k] == v);
                assert(init.contains(v));
                assert(s.contains(v));
                let m = choose|m: int| 0 <= m < s.len() && s[m] == v;
                assert(r[m] == v);
            }
        }
    }
}

proof fn lemma_order_of_first(keys: Seq<usize>, n: nat)
    requires
        n <= keys.len(),
    ensures
        in_order(keys, order_of_first(keys, n)),
        order_of_first(keys, n).len() == n,
        forall|i: int| 0 <= i < n ==> 0 <= #[trigger] order_of_first(keys, n)[i] < n,
        forall|v: int| 0 <= v < n ==> order_of_first(keys, n).contains(v),
    decreases n,
{
    if n > 0 {
        let before = order_of_first(keys, (n - 1) as nat);
        lemma_order_of_first(keys, (n - 1) as nat);
        lemma_order_with(keys, before, n - 1);
        let r = order_of_first(keys, n);
        assert forall|i: int| 0 <= i < n implies 0 <= #[trigger] r[i] < n by {
            if r[i] != n - 1 {
                assert(before.contains(r[i]));
            }
        }
        assert forall|v: int| 0 <= v < n implies r.contains(v) by {
            if v < n - 1 {
                assert(before.contains(v));
            }
        }
    }
}

/// The stable order holds every position once, and orders them by key and then by position.
pub proof fn lemma_stable_order(keys: Seq<usize>)
    ensures
        in_order(keys, stable_order(keys)),
        stable_order(keys).len() == keys.len(),
        forall|i: int| 0 <= i < keys.len() ==> 0 <= #[trigger] stable_order(keys)[i] < keys.len(),
        forall|v: int| 0 <= v < keys.len() ==> stable_order(keys).contains(v),
{
    lemma_order_of_first(keys, keys.len());
}

/// The positions of the keys in stable order.
pub fn sort_positions(keys: &Vec<usize>) -> (r: Vec<usize>)
    ensures
        r@.map_values(|p: usize| p as int) == stable_order(keys@),
        r@.len() == keys@.len(),
        forall|i: int| 0 <= i < r@.len() ==> #[trigger] r@[i] < keys@.len(),
{
    let mut order: Vec<usize> = Vec::new();
    let mut n: usize = 0;
    let ghost to_int = |p: usize| p as int;
    assert(order@.map_values(to_int) =~= Seq::<int>::empty());
    while n < keys.len()
        invariant
            n <= keys@.len(),
            to_int == (|p: usize| p as int),
            order@.map_values(to_int) == order_of_first(keys@, n as nat),
            order@.len() == n,
            forall|i: int| 0 <= i < n ==> #[trigger] order@[i] < n,
        decreases keys@.len() - n,
    {
        let ghost before = order@;
        let mut at: usize = order.len();
        // Everything from `at` on has a greater key than the new position.
        assert(before.take(at as int) =~= before);
        assert(before.skip(at as int).map_values(to_int) =~= Seq::<int>::empty());
        assert(order_with(keys@, before.take(at as int).map_values(to_int), n as int)
            + before.skip(at as int).map_values(to_int) =~= order_with(
            keys@,
            before.map_values(to_int),
            n as int,
        ));
        while at > 0 && keys[order[at - 1]] > keys[n]
            invariant
                n < keys@.len(),
                at <= n,
                order@ == before,
                before.len() == n,
                to_int == (|p: usize| p as int),
                forall|i: int| 0 <= i < n ==> #[trigger] order@[i] < n,
                order_with(keys@, before.take(at as int).map_values(to_int), n as int)
                    + before.skip(at as int).map_values(to_int) == order_with(
                    keys@,
                    before.map_values(to_int),
                    n as int,
                ),
            decreases at,
        {
            proof {
                let s = before.take(at as int).map_values(to_int);
                assert(s.last() == before[at - 1] as int);
                assert(s.drop_last() =~= before.take(at - 1).map_values(to_int));
                assert(order_with(keys@, before.take(at - 1).map_values(to_int), n as int)
                    + before.skip(at - 1).map_values(to_int) =~= order_with(keys@, s, n as int)
                    + before.skip(at as int).map_values(to_int));
            }
            at -= 1;
        }
        proof {
            let s = before.take(at as int).map_values(to_int);
            if at > 0 {
                assert(s.last() == before[at - 1] as int);
            }
            assert(order_with(keys@, s, n as int) == s.push(n as int));
        }
        order.insert(at, n);
        proof {
            assert(order@.map_values(to_int) =~= before.take(at as int).map_values(to_int).push(n as int)
                + before.skip(at as int).map_values(to_int));
            assert forall|i: int| 0 <= i < n + 1 implies #[trigger] order@[i] < n + 1 by {
                if i < at {
                    assert(order@[i] == before[i]);
                } else if i > at {
                    assert(order@[i] == before[i - 1]);
                }
            }
        }
        n += 1;
    }
    order
}

} // verus!
