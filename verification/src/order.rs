//! Ordering records by a 16-bit key.
use vstd::prelude::*;

verus! {

/// `order` lists each index below `n` exactly once.
pub open spec fn is_permutation(order: Seq<usize>, n: int) -> bool {
    &&& order.len() == n
    &&& forall|i: int| 0 <= i < order.len() ==> #[trigger] order[i] < n
    &&& forall|i: int, j: int| 0 <= i < j < order.len() ==> order[i] != order[j]
}

/// `order` visits the keys in non-decreasing order.
pub open spec fn sorted_by_key(order: Seq<usize>, keys: Seq<u16>) -> bool {
    forall|i: int, j: int| 0 <= i < j < order.len() ==> keys[order[i] as int] <= keys[order[j] as int]
}

/// An order in which to visit `keys` so that they come in non-decreasing
/// order.
pub fn sort_order(keys: &Vec<u16>) -> (order: Vec<usize>)
    ensures
        is_permutation(order@, keys@.len() as int),
        sorted_by_key(order@, keys@),
{
    let mut order: Vec<usize> = Vec::with_capacity(keys.len());
    let mut i: usize = 0;
    while i < keys.len()
        invariant
            i <= keys@.len(),
            is_permutation(order@, i as int),
            sorted_by_key(order@, keys@),
        decreases keys@.len() - i,
    {
        let key = keys[i];
        let mut p: usize = 0;
        while p < order.len() && keys[order[p]] <= key
            invariant
                p <= order@.len(),
                is_permutation(order@, i as int),
                i < keys@.len(),
                forall|q: int| 0 <= q < p ==> keys@[order@[q] as int] <= key,
            decreases order@.len() - p,
        {
            p = p + 1;
        }
        let ghost before = order@;
        let ghost pos = p as int;
        order.insert(p, i);
        proof {
            before.insert_ensures(pos, i);
        }
        assert(order@ == before.insert(pos, i));
        assert forall|a: int| 0 <= a < order@.len() implies #[trigger] order@[a] == (if a < pos { before[a] } else if a == pos { i } else { before[a - 1] }) by {
            if a > pos {
                assert(before.insert(pos, i)[(a - 1) + 1] == before[a - 1]);
            }
        }
        assert forall|a: int| 0 <= a < order@.len() implies #[trigger] order@[a] < i + 1 by {
            assert(order@[a] == (if a < pos { before[a] } else if a == pos { i } else { before[a - 1] }));
        }
        assert forall|a: int, b: int| 0 <= a < b < order@.len() implies order@[a] != order@[b] by {
            assert(order@[a] == (if a < pos { before[a] } else if a == pos { i } else { before[a - 1] }));
            assert(order@[b] == (if b < pos { before[b] } else if b == pos { i } else { before[b - 1] }));
        }
        assert forall|a: int, b: int| 0 <= a < b < order@.len() implies keys@[order@[a] as int] <= keys@[order@[b] as int] by {
            assert(order@[a] == (if a < pos { before[a] } else if a == pos { i } else { before[a - 1] }));
            assert(order@[b] == (if b < pos { before[b] } else if b == pos { i } else { before[b - 1] }));
            if a == pos && pos < before.len() {
                assert(keys@[before[pos] as int] > key);
            }
        }
        i = i + 1;
    }
    order
}

} // verus!
