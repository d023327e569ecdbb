//! Stable orders by keys of several numbers.

use vstd::prelude::*;

verus! {

/// What an item is sorted by: the first number, then the second where the first are equal, and
/// so on.
#[derive(Debug, Clone, Copy, PartialEq, Eq)]
pub struct SortKey {
    pub first: i128,
    pub second: i128,
    pub third: i128,
    pub fourth: i128,
    pub fifth: i128,
}

impl SortKey {
    /// `self` comes before `other`.
    pub open spec fn precedes(self, other: SortKey) -> bool {
        if self.first != other.first {
            self.first < other.first
        } else if self.second != other.second {
            self.second < other.second
        } else if self.third != other.third {
            self.third < other.third
        } else if self.fourth != other.fourth {
            self.fourth < other.fourth
        } else {
            self.fifth < other.fifth
        }
    }

    /// Whether `self` comes before `other`.
    pub fn is_before(&self, other: &SortKey) -> (r: bool)
        ensures
            r == self.precedes(*other),
    {
        if self.first != other.first {
            self.first < other.first
        } else if self.second != other.second {
            self.second < other.second
        } else if self.third != other.third {
            self.third < other.third
        } else if self.fourth != other.fourth {
            self.fourth < other.fourth
        } else {
            self.fifth < other.fifth
        }
    }
}

/// The item at `a` comes before the one at `b`: by its key, or by its place where the keys are
/// equal.
pub open spec fn comes_first(keys: Seq<SortKey>, a: usize, b: usize) -> bool {
    keys[a as int].precedes(keys[b as int]) || keys[a as int] == keys[b as int] && a < b
}

/// `order` names every place once, in the order of the keys, equal keys in the order of places.
pub open spec fn is_stable_order(keys: Seq<SortKey>, order: Seq<usize>) -> bool {
    &&& order.len() == keys.len()
    &&& forall|i: int| 0 <= i < order.len() ==> (#[trigger] order[i]) < keys.len()
    &&& forall|i: int, j: int|
        0 <= i < j < order.len() ==> comes_first(keys, #[trigger] order[i], #[trigger] order[j])
    &&& forall|a: usize| a < keys.len() ==> #[trigger] order.contains(a)
}

/// The order of some keys.
pub open spec fn stable_order(keys: Seq<SortKey>) -> Seq<usize> {
    choose|order: Seq<usize>| is_stable_order(keys, order)
}

/// The items in an order.
pub open spec fn arranged<T>(items: Seq<T>, order: Seq<usize>) -> Seq<T> {
    order.map_values(|i: usize| items[i as int])
}

/// Keys are compared number by number: the first two that differ decide, the smaller goes first.
pub proof fn law_keys_compare_in_order(a: SortKey, b: SortKey)
    ensures
        a.first < b.first ==> a.precedes(b),
        a.first == b.first && a.second < b.second ==> a.precedes(b),
        a.first == b.first && a.second == b.second && a.third < b.third ==> a.precedes(b),
        a.first == b.first && a.second == b.second && a.third == b.third && a.fourth < b.fourth
            ==> a.precedes(b),
        a.first == b.first && a.second == b.second && a.third == b.third && a.fourth == b.fourth
            && a.fifth < b.fifth ==> a.precedes(b),
        a == b ==> !a.precedes(b),
        a.precedes(b) ==> !b.precedes(a),
{
}

proof fn lemma_orders_agree(keys: Seq<SortKey>, a: Seq<usize>, b: Seq<usize>, n: int)
    requires
        is_stable_order(keys, a),
        is_stable_order(keys, b),
        0 <= n <= keys.len(),
    ensures
        forall|i: int| 0 <= i < n ==> a[i] == b[i],
    decreases n,
{
    if n > 0 {
        lemma_orders_agree(keys, a, b, n - 1);
        let k = n - 1;
        if a[k] != b[k] {
            assert(a.contains(b[k]));
            let p = choose|p: int| 0 <= p < a.len() && a[p] == b[k];
            assert(b.contains(a[k]));
            let q = choose|q: int| 0 <= q < b.len() && b[q] == a[k];
            if p < k {
                assert(a[p] == b[p]);
                assert(comes_first(keys, b[p], b[k]));
            }
            if q < k {
                assert(a[q] == b[q]);
                assert(comes_first(keys, a[q], a[k]));
            }
            assert(comes_first(keys, a[k], a[p]));
            assert(comes_first(keys, b[k], b[q]));
            assert(false);
        }
    }
}

/// There is only one stable order.
pub proof fn law_stable_order_unique(keys: Seq<SortKey>, order: Seq<usize>)
    requires
        is_stable_order(keys, order),
    ensures
        order == stable_order(keys),
{
    lemma_orders_agree(keys, order, stable_order(keys), keys.len() as int);
    assert(order =~= stable_order(keys));
}

/// Where a place belongs in an order of others.
spec fn slot(keys: Seq<SortKey>, order: Seq<usize>, place: usize) -> int
    decreases order.len(),
{
    if order.len() == 0 || comes_first(keys, order.last(), place) {
        order.len() as int
    } else {
        slot(keys, order.drop_last(), place)
    }
}

proof fn lemma_slot(keys: Seq<SortKey>, order: Seq<usize>, place: usize)
    ensures
        0 <= slot(keys, order, place) <= order.len(),
        slot(keys, order, place) > 0 ==> comes_first(
            keys,
            order[slot(keys, order, place) - 1],
            place,
        ),
        forall|i: int|
            slot(keys, order, place) <= i < order.len() ==> !comes_first(
                keys,
                #[trigger] order[i],
                place,
            ),
    decreases order.len(),
{
    if order.len() > 0 && !comes_first(keys, order.last(), place) {
        lemma_slot(keys, order.drop_last(), place);
        assert forall|i: int| slot(keys, order, place) <= i < order.len() implies !comes_first(
            keys,
            #[trigger] order[i],
            place,
        ) by {
            if i < order.len() - 1 {
                assert(order.drop_last()[i] == order[i]);
            }
        }
    }
}

proof fn lemma_order_exists(keys: Seq<SortKey>) -> (order: Seq<usize>)
    requires
        keys.len() <= usize::MAX,
    ensures
        is_stable_order(keys, order),
    decreases keys.len(),
{
    if keys.len() == 0 {
        Seq::empty()
    } else {
        let before = keys.drop_last();
        let rest = lemma_order_exists(before);
        let place = (keys.len() - 1) as usize;
        lemma_slot(keys, rest, place);
        let at = slot(keys, rest, place);
        let order = rest.insert(at, place);
        assert forall|i: int, j: int| 0 <= i < j < rest.len() implies comes_first(
            keys,
            #[trigger] rest[i],
            #[trigger] rest[j],
        ) by {
            assert(comes_first(before, rest[i], rest[j]));
        }
        assert forall|i: int| 0 <= i < order.len() implies (#[trigger] order[i]) < keys.len() by {
            if i != at {
                let k = if i < at {
                    i
                } else {
                    i - 1
                };
                assert(order[i] == rest[k]);
            }
        }
        assert forall|i: int, j: int| 0 <= i < j < order.len() implies comes_first(
            keys,
            #[trigger] order[i],
            #[trigger] order[j],
        ) by {
            let a = if i < at {
                i
            } else {
                i - 1
            };
            let b = if j < at {
                j
            } else {
                j - 1
            };
            if i == at {
                assert(!comes_first(keys, rest[b], place));
            } else if j == at {
                assert(comes_first(keys, rest[at - 1], place));
                if a < at - 1 {
                    assert(comes_first(keys, rest[a], rest[at - 1]));
                }
            } else {
                assert(comes_first(keys, rest[a], rest[b]));
            }
        }
        assert forall|a: usize| a < keys.len() implies #[trigger] order.contains(a) by {
            if a == place {
                assert(order[at] == a);
            } else {
                assert(rest.contains(a));
                let k = choose|k: int| 0 <= k < rest.len() && rest[k] == a;
                if k < at {
                    assert(order[k] == a);
                } else {
                    assert(order[k + 1] == a);
                }
            }
        }
        order
    }
}

/// Keys that fit into memory have a stable order.
pub proof fn law_stable_order_exists(keys: Seq<SortKey>)
    requires
        keys.len() <= usize::MAX,
    ensures
        is_stable_order(keys, stable_order(keys)),
{
    let order = lemma_order_exists(keys);
}

/// To arrange items is to keep them: none is added, and none is lost.
pub proof fn law_arranging_keeps_items<T>(items: Seq<T>, keys: Seq<SortKey>, item: T)
    requires
        keys.len() == items.len() <= usize::MAX,
    ensures
        arranged(items, stable_order(keys)).len() == items.len(),
        arranged(items, stable_order(keys)).contains(item) <==> items.contains(item),
{
    law_stable_order_exists(keys);
    let order = stable_order(keys);
    let sorted = arranged(items, order);
    if sorted.contains(item) {
        let i = choose|i: int| 0 <= i < sorted.len() && sorted[i] == item;
        assert(items[order[i] as int] == item);
    }
    if items.contains(item) {
        let k = choose|k: int| 0 <= k < items.len() && items[k] == item;
        assert(order.contains(k as usize));
        let i = choose|i: int| 0 <= i < order.len() && order[i] == k as usize;
        assert(sorted[i] == item);
    }
}

/// The order of some keys.
pub fn sort_order(keys: &[SortKey]) -> (r: Vec<usize>)
    ensures
        r@ == stable_order(keys@),
        is_stable_order(keys@, r@),
{
    let mut order: Vec<usize> = Vec::new();
    let mut i: usize = 0;
    while i < keys.len()
        invariant
            i <= keys@.len(),
            order@.len() == i,
            forall|j: int| 0 <= j < i ==> (#[trigger] order@[j]) < i,
            forall|j: int, k: int|
                0 <= j < k < i ==> comes_first(
                    keys@,
                    #[trigger] order@[j],
                    #[trigger] order@[k],
                ),
            forall|a: usize| a < i ==> #[trigger] order@.contains(a),
        decreases keys@.len() - i,
    {
        let mut place: usize = i;
        while place > 0 && keys[i].is_before(&keys[order[place - 1]])
            invariant
                place <= i,
                i < keys@.len(),
                order@.len() == i,
                forall|j: int| 0 <= j < i ==> (#[trigger] order@[j]) < i,
                forall|j: int|
                    place <= j < i ==> keys@[i as int].precedes(
                        keys@[#[trigger] order@[j] as int],
                    ),
            decreases place,
        {
            place = place - 1;
        }
        let ghost before = order@;
        order.insert(place, i);
        proof {
            assert(order@ =~= before.insert(place as int, i));
            assert forall|j: int, k: int| 0 <= j < k < i + 1 implies comes_first(
                keys@,
                #[trigger] order@[j],
                #[trigger] order@[k],
            ) by {
                if k < place {
                    assert(comes_first(keys@, before[j], before[k]));
                } else if k == place {
                    assert(order@[j] == before[j]);
                    if j < place - 1 {
                        assert(comes_first(keys@, before[j], before[place - 1]));
                    }
                } else if j < place {
                    assert(comes_first(keys@, before[j], before[k - 1]));
                } else if j == place {
                    assert(order@[k] == before[k - 1]);
                } else {
                    assert(comes_first(keys@, before[j - 1], before[k - 1]));
                }
            }
            assert forall|a: usize| a < i + 1 implies #[trigger] order@.contains(a) by {
                if a < i {
                    assert(before.contains(a));
                    let j = choose|j: int| 0 <= j < before.len() && before[j] == a;
                    if j < place {
                        assert(order@[j] == a);
                    } else {
                        assert(order@[j + 1] == a);
                    }
                } else {
                    assert(order@[place as int] == i);
                }
            }
        }
        i = i + 1;
    }
    proof {
        law_stable_order_unique(keys@, order@);
    }
    order
}

} // verus!
