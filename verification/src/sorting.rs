//! Stable ordering of a list by a ranking of its items.

use vstd::prelude::*;

verus! {

/// Items with a ranking: a total preorder that says which of two items may
/// stand first.
pub trait Ranked: Sized {
    /// `self` may stand before `other`.
    spec fn precedes(&self, other: &Self) -> bool;

    /// Of two items one may stand before the other.
    proof fn lemma_total(a: &Self, b: &Self)
        ensures
            a.precedes(b) || b.precedes(a),
    ;

    /// The ranking passes along a chain.
    proof fn lemma_transitive(a: &Self, b: &Self, c: &Self)
        requires
            a.precedes(b),
            b.precedes(c),
        ensures
            a.precedes(c),
    ;

    /// Decides the ranking.
    fn comes_before(&self, other: &Self) -> (before: bool)
        ensures
            before == self.precedes(other),
    ;
}

/// A ranking of the positions of a list: `rank(i, j)` says that the item
/// at `i` may stand before the item at `j`.
pub type Rank = spec_fn(int, int) -> bool;

/// The ranking that the items of a list give to its positions.
pub open spec fn rank_of<T: Ranked>(items: Seq<T>) -> Rank {
    |i: int, j: int| items[i].precedes(&items[j])
}

/// Position `i` must stand before position `j`: it ranks first, or the two
/// tie and `i` is the earlier one.
pub open spec fn stands_before(rank: Rank, i: int, j: int) -> bool {
    may_precede(rank, i, j) && (may_precede(rank, j, i) ==> i < j)
}

/// The ranking lets position `i` stand before position `j`.
pub open spec fn may_precede(rank: Rank, i: int, j: int) -> bool {
    rank(i, j)
}

/// `order` holds the position somewhere.
pub open spec fn names(order: Seq<usize>, position: int) -> bool {
    exists|k: int| 0 <= k < order.len() && #[trigger] order[k] == position
}

/// `order` lists every position from `lo` up to `hi` once, each before all
/// that must stand after it.
pub open spec fn orders_range(rank: Rank, order: Seq<usize>, lo: int, hi: int) -> bool {
    &&& order.len() == hi - lo
    &&& forall|k: int| 0 <= k < order.len() ==> lo <= #[trigger] order[k] < hi
    &&& forall|i: int| lo <= i < hi ==> #[trigger] names(order, i)
    &&& forall|a: int, b: int|
        0 <= a < b < order.len() ==> stands_before(
            rank,
            #[trigger] order[a] as int,
            #[trigger] order[b] as int,
        )
}

/// `order` is the stable sort of the positions below `n`: every position
/// once, by rank, ties in list order.
pub open spec fn is_stable_order(rank: Rank, order: Seq<usize>, n: int) -> bool {
    orders_range(rank, order, 0, n)
}

/// A stable order under one ranking is one under every ranking that agrees
/// with it on the positions below `n`.
pub proof fn lemma_same_rank(first: Rank, second: Rank, order: Seq<usize>, n: int)
    requires
        is_stable_order(first, order, n),
        forall|i: int, j: int|
            0 <= i < n && 0 <= j < n ==> #[trigger] may_precede(first, i, j) == may_precede(
                second,
                i,
                j,
            ),
    ensures
        is_stable_order(second, order, n),
{
    assert forall|a: int, b: int| 0 <= a < b < order.len() implies stands_before(
        second,
        #[trigger] order[a] as int,
        #[trigger] order[b] as int,
    ) by {
        assert(stands_before(first, order[a] as int, order[b] as int));
    }
}

/// "Must stand before" passes along a chain.
proof fn lemma_stands_before_transitive<T: Ranked>(items: Seq<T>, i: int, j: int, k: int)
    requires
        stands_before(rank_of(items), i, j),
        stands_before(rank_of(items), j, k),
    ensures
        stands_before(rank_of(items), i, k),
{
    T::lemma_transitive(&items[i], &items[j], &items[k]);
    if items[k].precedes(&items[i]) {
        T::lemma_transitive(&items[k], &items[i], &items[j]);
        T::lemma_transitive(&items[j], &items[k], &items[i]);
    }
}

/// Two stable orders of one list agree up to any position.
proof fn lemma_orders_agree(rank: Rank, total: int, first: Seq<usize>, second: Seq<usize>, n: int)
    requires
        is_stable_order(rank, first, total),
        is_stable_order(rank, second, total),
        0 <= n <= total,
    ensures
        first.take(n) == second.take(n),
    decreases n,
{
    if n == 0 {
        assert(first.take(0) =~= second.take(0));
    } else {
        lemma_orders_agree(rank, total, first, second, n - 1);
        let k = n - 1;
        let x = first[k];
        let y = second[k];
        if x != y {
            assert(names(second, x as int));
            let m = choose|m: int| 0 <= m < second.len() && #[trigger] second[m] == x as int;
            assert(names(first, y as int));
            let w = choose|w: int| 0 <= w < first.len() && #[trigger] first[w] == y as int;
            if m < k {
                assert(second.take(k)[m] == first.take(k)[m]);
                assert(stands_before(rank, first[m] as int, first[k] as int));
            }
            if w < k {
                assert(first.take(k)[w] == second.take(k)[w]);
                assert(stands_before(rank, second[w] as int, second[k] as int));
            }
            assert(stands_before(rank, second[k] as int, second[m] as int));
            assert(stands_before(rank, first[k] as int, first[w] as int));
        }
        assert(first.take(n) =~= first.take(k).push(x));
        assert(second.take(n) =~= second.take(k).push(y));
    }
}

/// A ranking has one stable order only.
pub proof fn lemma_stable_order_unique(
    rank: Rank,
    total: int,
    first: Seq<usize>,
    second: Seq<usize>,
)
    requires
        is_stable_order(rank, first, total),
        is_stable_order(rank, second, total),
    ensures
        first == second,
{
    lemma_orders_agree(rank, total, first, second, total);
    assert(first.take(total) =~= first);
    assert(second.take(total) =~= second);
}

/// `order` names every position below `n` exactly once.
pub open spec fn is_permutation(order: Seq<usize>, n: int) -> bool {
    &&& order.len() == n
    &&& forall|k: int| 0 <= k < n ==> #[trigger] order[k] < n
    &&& forall|i: int| 0 <= i < n ==> #[trigger] names(order, i)
    &&& forall|a: int, b: int| 0 <= a < b < n ==> #[trigger] order[a] != #[trigger] order[b]
}

/// A stable order names every position exactly once.
pub proof fn lemma_stable_order_permutes(rank: Rank, order: Seq<usize>, n: int)
    requires
        is_stable_order(rank, order, n),
    ensures
        is_permutation(order, n),
{
    assert forall|a: int, b: int| 0 <= a < b < n implies #[trigger] order[a] != #[trigger] order[b] by {
        assert(stands_before(rank, order[a] as int, order[b] as int));
    }
}

/// Items arranged by a permutation of their positions are the same items,
/// each as often as before.
pub proof fn lemma_arranged_same_items<A>(items: Seq<A>, order: Seq<usize>, arranged: Seq<A>)
    requires
        is_permutation(order, items.len() as int),
        arranged.len() == items.len(),
        forall|k: int| 0 <= k < arranged.len() ==> #[trigger] arranged[k] == items[order[k] as int],
    ensures
        arranged.to_multiset() == items.to_multiset(),
    decreases items.len(),
{
    broadcast use vstd::multiset::group_multiset_axioms;
    broadcast use vstd::seq_lib::group_to_multiset_ensures;

    let n = items.len() as int;
    if n == 0 {
        assert(arranged =~= items);
    } else {
        let j = order[n - 1] as int;
        let fewer = items.remove(j);
        let shorter = arranged.drop_last();
        let shifted = Seq::new(
            (n - 1) as nat,
            |k: int|
                if order[k] > j {
                    (order[k] - 1) as usize
                } else {
                    order[k]
                },
        );
        assert forall|k: int| 0 <= k < n - 1 implies #[trigger] shifted[k] < n - 1 by {
            assert(order[k] != order[n - 1]);
        }
        assert forall|i: int| 0 <= i < n - 1 implies #[trigger] names(shifted, i) by {
            let up = if i >= j {
                i + 1
            } else {
                i
            };
            assert(names(order, up));
            let k = choose|k: int| 0 <= k < order.len() && #[trigger] order[k] == up;
            assert(k != n - 1);
            assert(shifted[k] == i);
        }
        assert forall|a: int, b: int| 0 <= a < b < n - 1 implies #[trigger] shifted[a]
            != #[trigger] shifted[b] by {
            assert(order[a] != order[b]);
            assert(order[a] != order[n - 1]);
            assert(order[b] != order[n - 1]);
        }
        assert forall|k: int| 0 <= k < shorter.len() implies #[trigger] shorter[k] == fewer[shifted[k] as int] by {
            assert(arranged[k] == items[order[k] as int]);
            assert(order[k] != order[n - 1]);
        }
        lemma_arranged_same_items(fewer, shifted, shorter);
        assert(arranged =~= shorter.push(items[j]));
        assert(arranged.to_multiset() =~= items.to_multiset());
    }
}

/// Merges the orders of two adjoining ranges into the order of both.
fn merge_orders<T: Ranked>(
    items: &Vec<T>,
    left: Vec<usize>,
    right: Vec<usize>,
    Ghost(lo): Ghost<int>,
    Ghost(mid): Ghost<int>,
    Ghost(hi): Ghost<int>,
) -> (merged: Vec<usize>)
    requires
        0 <= lo <= mid <= hi <= items@.len(),
        orders_range(rank_of(items@), left@, lo, mid),
        orders_range(rank_of(items@), right@, mid, hi),
    ensures
        orders_range(rank_of(items@), merged@, lo, hi),
{
    let mut merged: Vec<usize> = Vec::new();
    let mut i: usize = 0;
    let mut j: usize = 0;
    while i < left.len() || j < right.len()
        invariant
            0 <= lo <= mid <= hi <= items@.len(),
            orders_range(rank_of(items@), left@, lo, mid),
            orders_range(rank_of(items@), right@, mid, hi),
            i <= left@.len(),
            j <= right@.len(),
            merged@.len() == i + j,
            forall|k: int| 0 <= k < merged@.len() ==> lo <= #[trigger] merged@[k] < hi,
            forall|k: int| 0 <= k < i ==> merged@.contains(#[trigger] left@[k]),
            forall|k: int| 0 <= k < j ==> merged@.contains(#[trigger] right@[k]),
            forall|a: int, b: int|
                0 <= a < b < merged@.len() ==> stands_before(
                    rank_of(items@),
                    #[trigger] merged@[a] as int,
                    #[trigger] merged@[b] as int,
                ),
            forall|a: int, b: int|
                0 <= a < merged@.len() && i <= b < left@.len() ==> stands_before(
                    rank_of(items@),
                    #[trigger] merged@[a] as int,
                    #[trigger] left@[b] as int,
                ),
            forall|a: int, b: int|
                0 <= a < merged@.len() && j <= b < right@.len() ==> stands_before(
                    rank_of(items@),
                    #[trigger] merged@[a] as int,
                    #[trigger] right@[b] as int,
                ),
        decreases left@.len() - i + right@.len() - j,
    {
        let ghost before = merged@;
        let take_left = if i >= left.len() {
            false
        } else if j >= right.len() {
            true
        } else {
            items[left[i]].comes_before(&items[right[j]])
        };
        if take_left {
            let x = left[i];
            proof {
                if j < right@.len() {
                    let r = right@[j as int];
                    assert(stands_before(rank_of(items@), x as int, r as int));
                    assert forall|b: int| j <= b < right@.len() implies stands_before(
                        rank_of(items@),
                        x as int,
                        #[trigger] right@[b] as int,
                    ) by {
                        if b > j {
                            assert(stands_before(rank_of(items@), right@[j as int] as int, right@[b] as int));
                            lemma_stands_before_transitive(items@, x as int, r as int, right@[b] as int);
                        }
                    }
                }
                assert forall|b: int| i < b < left@.len() implies stands_before(
                    rank_of(items@),
                    x as int,
                    #[trigger] left@[b] as int,
                ) by {
                    assert(stands_before(rank_of(items@), left@[i as int] as int, left@[b] as int));
                }
            }
            merged.push(x);
            i = i + 1;
        } else {
            let x = right[j];
            proof {
                if i < left@.len() {
                    let l = left@[i as int];
                    T::lemma_total(&items@[l as int], &items@[x as int]);
                    assert(stands_before(rank_of(items@), x as int, l as int));
                    assert forall|b: int| i <= b < left@.len() implies stands_before(
                        rank_of(items@),
                        x as int,
                        #[trigger] left@[b] as int,
                    ) by {
                        if b > i {
                            assert(stands_before(rank_of(items@), left@[i as int] as int, left@[b] as int));
                            lemma_stands_before_transitive(items@, x as int, l as int, left@[b] as int);
                        }
                    }
                }
                assert forall|b: int| j < b < right@.len() implies stands_before(
                    rank_of(items@),
                    x as int,
                    #[trigger] right@[b] as int,
                ) by {
                    assert(stands_before(rank_of(items@), right@[j as int] as int, right@[b] as int));
                }
            }
            merged.push(x);
            j = j + 1;
        }
        proof {
            let added = merged@.last();
            assert(merged@ == before.push(added));
            assert forall|k: int| 0 <= k < i implies merged@.contains(#[trigger] left@[k]) by {
                if before.contains(left@[k]) {
                    let w = choose|w: int| 0 <= w < before.len() && before[w] == left@[k];
                    assert(merged@[w] == left@[k]);
                } else {
                    assert(merged@[merged@.len() - 1] == left@[k]);
                }
            }
            assert forall|k: int| 0 <= k < j implies merged@.contains(#[trigger] right@[k]) by {
                if before.contains(right@[k]) {
                    let w = choose|w: int| 0 <= w < before.len() && before[w] == right@[k];
                    assert(merged@[w] == right@[k]);
                } else {
                    assert(merged@[merged@.len() - 1] == right@[k]);
                }
            }
        }
    }
    proof {
        assert forall|p: int| lo <= p < hi implies #[trigger] names(merged@, p) by {
            if p < mid {
                assert(names(left@, p));
                let k = choose|k: int| 0 <= k < left@.len() && #[trigger] left@[k] == p;
                assert(merged@.contains(left@[k]));
                let w = choose|w: int| 0 <= w < merged@.len() && merged@[w] == left@[k];
                assert(merged@[w] == p);
            } else {
                assert(names(right@, p));
                let k = choose|k: int| 0 <= k < right@.len() && #[trigger] right@[k] == p;
                assert(merged@.contains(right@[k]));
                let w = choose|w: int| 0 <= w < merged@.len() && merged@[w] == right@[k];
                assert(merged@[w] == p);
            }
        }
    }
    merged
}

/// The stable order of the positions from `lo` up to `hi`.
fn order_range<T: Ranked>(items: &Vec<T>, lo: usize, hi: usize) -> (order: Vec<usize>)
    requires
        lo <= hi <= items@.len(),
    ensures
        orders_range(rank_of(items@), order@, lo as int, hi as int),
    decreases hi - lo,
{
    if hi - lo == 0 {
        Vec::new()
    } else if hi - lo == 1 {
        let mut order: Vec<usize> = Vec::new();
        order.push(lo);
        assert(order@[0] == lo);
        order
    } else {
        let mid = lo + (hi - lo) / 2;
        let left = order_range(items, lo, mid);
        let right = order_range(items, mid, hi);
        merge_orders(items, left, right, Ghost(lo as int), Ghost(mid as int), Ghost(hi as int))
    }
}

/// Sorts the positions of `items` by rank, ties in list order.
pub fn stable_order<T: Ranked>(items: &Vec<T>) -> (order: Vec<usize>)
    ensures
        is_stable_order(rank_of(items@), order@, items@.len() as int),
{
    order_range(items, 0, items.len())
}

} // verus!
