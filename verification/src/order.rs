//! Stable orderings: the order in which Rust's stable `sort_by` leaves
//! elements, computed as a sequence of indices.

use vstd::prelude::*;

verus! {

/// Whether index `a` (key `ka`) comes before index `b` (key `kb`) in a stable
/// sort by key, largest key first.
pub open spec fn before_desc(ka: int, a: int, kb: int, b: int) -> bool {
    ka > kb || (ka == kb && a < b)
}

/// Whether `order` lists each index of `0..n` exactly once.
pub open spec fn is_permutation_of_range(order: Seq<usize>, n: int) -> bool {
    &&& order.len() == n
    &&& forall|k: int| 0 <= k < order.len() ==> (#[trigger] order[k]) < n
    &&& forall|k: int, l: int| 0 <= k < l < order.len() ==> #[trigger] order[k] != #[trigger] order[l]
}

/// Whether `order` is the order of a stable sort of `keys`, largest key first:
/// a permutation of the indices in which, for equal keys, indices keep their
/// original order.
pub open spec fn is_stable_desc_order(keys: Seq<i64>, order: Seq<usize>) -> bool {
    &&& is_permutation_of_range(order, keys.len() as int)
    &&& forall|k: int, l: int|
        0 <= k < l < order.len() ==> before_desc(
            keys[#[trigger] order[k] as int] as int,
            order[k] as int,
            keys[#[trigger] order[l] as int] as int,
            order[l] as int,
        )
}

/// The indices of `keys` in the order a stable sort by key, largest first,
/// leaves them.
pub fn stable_order_desc(keys: &[i64]) -> (order: Vec<usize>)
    ensures
        is_stable_desc_order(keys@, order@),
{
    let mut order: Vec<usize> = Vec::new();
    let mut i: usize = 0;
    while i < keys.len()
        invariant
            0 <= i <= keys@.len(),
            order@.len() == i,
            forall|k: int| 0 <= k < order@.len() ==> (#[trigger] order@[k]) < i,
            forall|k: int, l: int| 0 <= k < l < order@.len() ==> #[trigger] order@[k] != #[trigger] order@[l],
            forall|k: int, l: int|
                0 <= k < l < order@.len() ==> before_desc(
                    keys@[#[trigger] order@[k] as int] as int,
                    order@[k] as int,
                    keys@[#[trigger] order@[l] as int] as int,
                    order@[l] as int,
                ),
        decreases keys.len() - i,
    {
        let key = keys[i];
        let mut p: usize = 0;
        while p < order.len() && keys[order[p]] >= key
            invariant
                0 <= p <= order@.len(),
                order@.len() == i,
                i < keys@.len(),
                key == keys@[i as int],
                forall|k: int| 0 <= k < order@.len() ==> (#[trigger] order@[k]) < i,
                forall|k: int| 0 <= k < p ==> keys@[(#[trigger] order@[k]) as int] >= key,
            decreases order.len() - p,
        {
            p = p + 1;
        }
        proof {
            // elements at and after p have a smaller key
            assert forall|k: int| p <= k < order@.len() implies keys@[(#[trigger] order@[k]) as int] < key by {
                if p < order@.len() {
                    assert(keys@[order@[p as int] as int] < key);
                    if k > p {
                        assert(before_desc(
                            keys@[order@[p as int] as int] as int,
                            order@[p as int] as int,
                            keys@[order@[k] as int] as int,
                            order@[k] as int,
                        ));
                    }
                }
            }
        }
        let ghost before = order@;
        order.insert(p, i);
        proof {
            assert forall|k: int| 0 <= k < order@.len() implies #[trigger] order@[k] == (if k < p {
                before[k]
            } else if k == p {
                i
            } else {
                before[k - 1]
            }) by {}
            assert forall|k: int, l: int| 0 <= k < l < order@.len() implies before_desc(
                keys@[#[trigger] order@[k] as int] as int,
                order@[k] as int,
                keys@[#[trigger] order@[l] as int] as int,
                order@[l] as int,
            ) by {
                if l < p {
                } else if l == p {
                    assert(keys@[before[k] as int] >= key);
                } else if k < p {
                    assert(before_desc(
                        keys@[before[k] as int] as int,
                        before[k] as int,
                        keys@[before[l - 1] as int] as int,
                        before[l - 1] as int,
                    ));
                } else if k == p {
                    assert(keys@[before[l - 1] as int] < key);
                } else {
                    assert(before_desc(
                        keys@[before[k - 1] as int] as int,
                        before[k - 1] as int,
                        keys@[before[l - 1] as int] as int,
                        before[l - 1] as int,
                    ));
                }
            }
            assert forall|k: int, l: int| 0 <= k < l < order@.len() implies #[trigger] order@[k]
                != #[trigger] order@[l] by {
                if k < p && l > p {
                    assert(before[k] != before[l - 1]);
                } else if k > p {
                    assert(before[k - 1] != before[l - 1]);
                } else if l < p {
                    assert(before[k] != before[l]);
                }
            }
        }
        i = i + 1;
    }
    order
}

/// Whether `a` comes before `b` in lexicographic order of characters (the
/// order of Rust's `String` comparison).
pub open spec fn chars_lt(a: Seq<char>, b: Seq<char>) -> bool
    decreases a.len(),
{
    if b.len() == 0 {
        false
    } else if a.len() == 0 {
        true
    } else if a[0] != b[0] {
        (a[0] as u32) < (b[0] as u32)
    } else {
        chars_lt(a.skip(1), b.skip(1))
    }
}

/// Compares two character sequences lexicographically (`a < b`).
pub fn chars_less(a: &[char], b: &[char]) -> (r: bool)
    ensures
        r == chars_lt(a@, b@),
{
    let mut i: usize = 0;
    assert(a@.skip(0) =~= a@);
    assert(b@.skip(0) =~= b@);
    while i < a.len() && i < b.len() && a[i] == b[i]
        invariant
            0 <= i <= a@.len(),
            i <= b@.len(),
            chars_lt(a@, b@) == chars_lt(a@.skip(i as int), b@.skip(i as int)),
        decreases a.len() - i,
    {
        assert(a@.skip(i as int).skip(1) =~= a@.skip(i + 1));
        assert(b@.skip(i as int).skip(1) =~= b@.skip(i + 1));
        i = i + 1;
    }
    if i < a.len() && i < b.len() {
        assert(a@.skip(i as int)[0] == a@[i as int]);
        assert(b@.skip(i as int)[0] == b@[i as int]);
    }
    if i == b.len() {
        false
    } else if i == a.len() {
        true
    } else {
        (a[i] as u32) < (b[i] as u32)
    }
}

} // verus!
