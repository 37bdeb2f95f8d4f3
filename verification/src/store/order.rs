//! putting items in the order of a key that tells them apart

use vstd::prelude::*;

verus! {

/// the positions `0..n` in the order of `key`, which tells them all apart, `before` comparing two positions by it
pub(crate) fn order_by<F: Fn(usize, usize) -> bool>(
    n: usize,
    before: F,
    Ghost(key): Ghost<spec_fn(int) -> int>,
) -> (order: Vec<usize>)
    requires
        forall|i: usize, j: usize| i < n && j < n ==> #[trigger] before.requires((i, j)),
        forall|i: usize, j: usize, r: bool|
            i < n && j < n && #[trigger] before.ensures((i, j), r) ==> r == (key(i as int) < key(
                j as int,
            )),
        forall|i: int, j: int| 0 <= i < n && 0 <= j < n && i != j ==> #[trigger] key(i) != #[trigger] key(j),
    ensures
        order@.len() == n,
        forall|p: int| 0 <= p < n ==> #[trigger] order@[p] < n,
        forall|j: usize| j < n ==> #[trigger] order@.contains(j),
        forall|p: int, q: int|
            0 <= p < q < n ==> key(#[trigger] order@[p] as int) < key(#[trigger] order@[q] as int),
{
    let mut order: Vec<usize> = Vec::new();
    let mut i: usize = 0;
    while i < n
        invariant
            i <= n,
            order@.len() == i,
            forall|i: usize, j: usize| i < n && j < n ==> #[trigger] before.requires((i, j)),
            forall|i: usize, j: usize, r: bool|
                i < n && j < n && #[trigger] before.ensures((i, j), r) ==> r == (key(i as int)
                    < key(j as int)),
            forall|i: int, j: int| 0 <= i < n && 0 <= j < n && i != j ==> #[trigger] key(i) != #[trigger] key(j),
            forall|p: int| 0 <= p < i ==> #[trigger] order@[p] < i,
            forall|j: usize| j < i ==> #[trigger] order@.contains(j),
            forall|p: int, q: int|
                0 <= p < q < i ==> key(#[trigger] order@[p] as int) < key(
                    #[trigger] order@[q] as int,
                ),
        decreases n - i,
    {
        let mut p: usize = 0;
        while p < order.len() && before(order[p], i)
            invariant
                p <= order@.len(),
                order@.len() == i,
                i < n,
                forall|i: usize, j: usize| i < n && j < n ==> #[trigger] before.requires((i, j)),
                forall|i: usize, j: usize, r: bool|
                    i < n && j < n && #[trigger] before.ensures((i, j), r) ==> r == (key(i as int)
                        < key(j as int)),
                forall|p: int| 0 <= p < i ==> #[trigger] order@[p] < i,
                forall|q: int| 0 <= q < p ==> key(#[trigger] order@[q] as int) < key(i as int),
            decreases order@.len() - p,
        {
            p += 1;
        }
        let ghost old_order = order@;
        proof {
            if p < old_order.len() {
                // the one at `p` is not before `i`, and no two keys are the same
                assert(key(old_order[p as int] as int) != key(i as int));
            }
        }
        order.insert(p, i);
        proof {
            assert(order@ == old_order.insert(p as int, i));
            old_order.insert_ensures(p as int, i);
            assert forall|j: usize| j < i + 1 implies #[trigger] order@.contains(j) by {
                if j == i {
                    assert(order@[p as int] == i);
                } else {
                    assert(old_order.contains(j));
                    let w = choose|w: int| 0 <= w < old_order.len() && old_order[w] == j;
                    if w < p {
                        assert(order@[w] == j);
                    } else {
                        assert(order@[w + 1] == j);
                    }
                }
            }
            assert forall|a: int, b: int| 0 <= a < b < i + 1 implies key(
                #[trigger] order@[a] as int,
            ) < key(#[trigger] order@[b] as int) by {
                if b < p {
                } else if b == p {
                } else if a < p {
                    assert(order@[b] == old_order[b - 1]);
                    if p < old_order.len() {
                        assert(key(i as int) < key(old_order[p as int] as int));
                    }
                } else if a == p {
                    assert(order@[b] == old_order[b - 1]);
                    assert(key(i as int) < key(old_order[p as int] as int));
                } else {
                    assert(order@[a] == old_order[a - 1]);
                    assert(order@[b] == old_order[b - 1]);
                }
            }
        }
        i += 1;
    }
    order
}

} // verus!
