use vstd::prelude::*;

verus! {

/// Entry `i` ranks before entry `j`: it carries more load, or as much and comes earlier.
pub open spec fn ranks_before(loads: Seq<u32>, i: int, j: int) -> bool {
    loads[i] > loads[j] || (loads[i] == loads[j] && i < j)
}

/// `r` lists entries strictly in rank order.
pub open spec fn in_rank_order(loads: Seq<u32>, r: Seq<usize>) -> bool {
    forall|a: int, b: int|
        0 <= a < b < r.len() ==> #[trigger] ranks_before(loads, r[a] as int, r[b] as int)
}

/// Positions of the `limit` busiest entries of `loads` (loads in thousandths of a percent),
/// busiest first; of equal loads the earlier entry comes first. Every entry left out ranks
/// after every entry listed.
pub fn rank_by_load(loads: &[u32], limit: usize) -> (r: Vec<usize>)
    ensures
        r.len() == if limit < loads.len() {
            limit
        } else {
            loads.len()
        },
        forall|a: int| 0 <= a < r.len() ==> #[trigger] r@[a] < loads.len(),
        in_rank_order(loads@, r@),
        forall|k: int, a: int|
            0 <= k < loads.len() && !r@.contains(k as usize) && 0 <= a < r.len() ==> #[trigger] ranks_before(
                loads@,
                r@[a] as int,
                k,
            ),
{
    let n = loads.len();
    let mut r: Vec<usize> = Vec::new();
    let mut i: usize = 0;
    while i < n
        invariant
            n == loads.len(),
            i <= n,
            r.len() == i,
            forall|a: int| 0 <= a < r.len() ==> #[trigger] r@[a] < i,
            in_rank_order(loads@, r@),
            forall|k: int| 0 <= k < i ==> #[trigger] r@.contains(k as usize),
        decreases n - i,
    {
        let mut p: usize = 0;
        while p < r.len() && !(loads[i] > loads[r[p]])
            invariant
                p <= r.len(),
                r.len() == i,
                i < n == loads.len(),
                forall|a: int| 0 <= a < r.len() ==> #[trigger] r@[a] < i,
                forall|q: int| 0 <= q < p ==> ranks_before(loads@, #[trigger] r@[q] as int, i as int),
            decreases r.len() - p,
        {
            p = p + 1;
        }
        let ghost old_r = r@;
        r.insert(p, i);
        assert forall|a: int, b: int| 0 <= a < b < r.len() implies #[trigger] ranks_before(
            loads@,
            r@[a] as int,
            r@[b] as int,
        ) by {
            if b < p {
                assert(ranks_before(loads@, old_r[a] as int, old_r[b] as int));
            } else if b == p {
                assert(ranks_before(loads@, old_r[a] as int, i as int));
            } else if a < p {
                assert(ranks_before(loads@, old_r[a] as int, old_r[b - 1] as int));
            } else if a == p {
                assert(loads[i as int] > loads[old_r[p as int] as int]);
                if b - 1 > p {
                    assert(ranks_before(loads@, old_r[p as int] as int, old_r[b - 1] as int));
                }
            } else {
                assert(ranks_before(loads@, old_r[a - 1] as int, old_r[b - 1] as int));
            }
        }
        assert forall|k: int| 0 <= k < i + 1 implies #[trigger] r@.contains(k as usize) by {
            if k == i {
                assert(r@[p as int] == k);
            } else {
                assert(old_r.contains(k as usize));
                let q = choose|q: int| 0 <= q < old_r.len() && old_r[q] == k as usize;
                if q < p {
                    assert(r@[q] == k as usize);
                } else {
                    assert(r@[q + 1] == k as usize);
                }
            }
        }
        i = i + 1;
    }
    let ghost full = r@;
    if limit < n {
        r.truncate(limit);
    }
    assert forall|k: int, a: int|
        0 <= k < loads.len() && !r@.contains(k as usize) && 0 <= a < r.len() implies #[trigger] ranks_before(
        loads@,
        r@[a] as int,
        k,
    ) by {
        assert(full.contains(k as usize));
        let q = choose|q: int| 0 <= q < full.len() && full[q] == k as usize;
        if q < r.len() {
            assert(r@[q] == k as usize);
        }
        assert(a < q);
        assert(ranks_before(loads@, full[a] as int, full[q] as int));
    }
    r
}

} // verus!
