use vstd::prelude::*;

verus! {

/// Record `a` comes before record `b` in chronological order: earlier
/// timestamp first, and on equal timestamps the earlier record first.
pub open spec fn precedes(times: Seq<i64>, a: int, b: int) -> bool {
    times[a] < times[b] || (times[a] == times[b] && a < b)
}

/// `order` lists record indices below `n` in strictly increasing
/// chronological order.
pub open spec fn is_chronological(times: Seq<i64>, order: Seq<usize>) -> bool {
    &&& forall|k: int| 0 <= k < order.len() ==> (order[k] as int) < times.len()
    &&& forall|a: int, b: int|
        0 <= a < b < order.len() ==> #[trigger] precedes(times, order[a] as int, order[b] as int)
}

/// `order` is a stable chronological ordering of all records: a permutation
/// of `0..times.len()` sorted by timestamp, ties kept in input order.
pub open spec fn is_stable_time_order(times: Seq<i64>, order: Seq<usize>) -> bool {
    &&& order.len() == times.len()
    &&& is_chronological(times, order)
    &&& forall|j: int| 0 <= j < times.len() ==> #[trigger] order.contains(j as usize)
}

/// Returns the indices of `times` in stable chronological order, the order
/// in which a stable sort by timestamp would place the records. Scans each
/// new record from the back, so input that is already in order costs one
/// comparison per record.
pub fn stable_time_order(times: &Vec<i64>) -> (order: Vec<usize>)
    ensures
        is_stable_time_order(times@, order@),
{
    let n = times.len();
    let mut order: Vec<usize> = Vec::new();
    let mut i: usize = 0;
    while i < n
        invariant
            i <= n,
            n == times.len(),
            order.len() == i,
            is_chronological(times@, order@),
            forall|k: int| 0 <= k < order.len() ==> (order[k] as int) < i,
            forall|j: int| 0 <= j < i ==> #[trigger] order@.contains(j as usize),
        decreases n - i,
    {
        let t = times[i];
        let mut p: usize = order.len();
        while p > 0 && times[order[p - 1]] > t
            invariant
                p <= order.len(),
                order.len() == i,
                i < n,
                n == times.len(),
                t == times[i as int],
                forall|k: int| 0 <= k < order.len() ==> (order[k] as int) < i,
                forall|q: int| p <= q < order.len() ==> times[order[q] as int] > t,
            decreases p,
        {
            p = p - 1;
        }
        let ghost old_order = order@;
        proof {
            assert forall|q: int| 0 <= q < p implies times[old_order[q] as int] <= t by {
                if q < p - 1 {
                    assert(precedes(times@, old_order[q] as int, old_order[p - 1] as int));
                }
            }
        }
        order.insert(p, i);
        proof {
            assert(order@ == old_order.insert(p as int, i));
            assert forall|a: int, b: int|
                0 <= a < b < order.len() implies #[trigger] precedes(
                times@,
                order[a] as int,
                order[b] as int,
            ) by {
                if b < p {
                    assert(precedes(times@, old_order[a] as int, old_order[b] as int));
                } else if b == p {
                } else if a < p {
                    assert(times[old_order[a] as int] <= t);
                } else if a == p {
                } else {
                    assert(precedes(times@, old_order[a - 1] as int, old_order[b - 1] as int));
                }
            }
            assert forall|j: int| 0 <= j < i + 1 implies #[trigger] order@.contains(j as usize) by {
                if j < i {
                    assert(old_order.contains(j as usize));
                    let q = choose|q: int| 0 <= q < old_order.len() && old_order[q] == j as usize;
                    if q < p {
                        assert(order@[q] == j as usize);
                    } else {
                        assert(order@[q + 1] == j as usize);
                    }
                } else {
                    assert(order@[p as int] == i);
                }
            }
        }
        i = i + 1;
    }
    order
}

} // verus!
