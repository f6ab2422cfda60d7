use vstd::prelude::*;

verus! {

/// The pairs `(i, j)` visited by a two-pointer walk over signal times `s`
/// and price times `p` started at `(i, j)`: the side with the earlier
/// timestamp steps forward alone, and equal timestamps form a pair and
/// both sides step forward.
pub open spec fn aligned_from(s: Seq<i64>, p: Seq<i64>, i: nat, j: nat) -> Seq<(int, int)>
    decreases (s.len() - i) + (p.len() - j),
{
    if i >= s.len() || j >= p.len() {
        seq![]
    } else if s[i as int] < p[j as int] {
        aligned_from(s, p, i + 1, j)
    } else if p[j as int] < s[i as int] {
        aligned_from(s, p, i, j + 1)
    } else {
        seq![(i as int, j as int)] + aligned_from(s, p, i + 1, j + 1)
    }
}

/// The index pairs as integers.
pub open spec fn pair_view(v: Seq<(usize, usize)>) -> Seq<(int, int)> {
    v.map_values(|q: (usize, usize)| (q.0 as int, q.1 as int))
}

/// Every pair of the walk has equal timestamps, lies at or after the start,
/// and both indices strictly increase along the walk.
proof fn lemma_aligned_from_bounds(s: Seq<i64>, p: Seq<i64>, i: nat, j: nat)
    ensures
        forall|k: int|
            0 <= k < aligned_from(s, p, i, j).len() ==> {
                let q = #[trigger] aligned_from(s, p, i, j)[k];
                &&& i <= q.0 < s.len()
                &&& j <= q.1 < p.len()
                &&& s[q.0] == p[q.1]
            },
        forall|a: int, b: int|
            #![trigger aligned_from(s, p, i, j)[a], aligned_from(s, p, i, j)[b]]
            0 <= a < b < aligned_from(s, p, i, j).len() ==> aligned_from(s, p, i, j)[a].0
                < aligned_from(s, p, i, j)[b].0 && aligned_from(s, p, i, j)[a].1 < aligned_from(
                s,
                p,
                i,
                j,
            )[b].1,
    decreases (s.len() - i) + (p.len() - j),
{
    let w = aligned_from(s, p, i, j);
    if i >= s.len() || j >= p.len() {
        assert(w.len() == 0);
    } else if s[i as int] < p[j as int] {
        lemma_aligned_from_bounds(s, p, i + 1, j);
        assert(w == aligned_from(s, p, i + 1, j));
    } else if p[j as int] < s[i as int] {
        lemma_aligned_from_bounds(s, p, i, j + 1);
        assert(w == aligned_from(s, p, i, j + 1));
    } else {
        lemma_aligned_from_bounds(s, p, i + 1, j + 1);
        let rest = aligned_from(s, p, i + 1, j + 1);
        assert(w == seq![(i as int, j as int)] + rest);
        assert forall|k: int| 0 < k < w.len() implies w[k] == rest[k - 1] by {}
        assert forall|k: int| 0 <= k < w.len() implies i <= (#[trigger] w[k]).0 < s.len() && j
            <= w[k].1 < p.len() && s[w[k].0] == p[w[k].1] by {
            if k > 0 {
                assert(w[k] == rest[k - 1]);
            }
        }
        assert forall|a: int, b: int| 0 <= a < b < w.len() implies #[trigger] w[a].0 < #[trigger] w[b].0
            && w[a].1 < w[b].1 by {
            assert(w[b] == rest[b - 1]);
            if a > 0 {
                assert(w[a] == rest[a - 1]);
            }
        }
    }
}

/// Each timestamp is later than the one before it.
pub open spec fn strictly_increasing(t: Seq<i64>) -> bool {
    forall|a: int, b: int| 0 <= a < b < t.len() ==> t[a] < t[b]
}

proof fn lemma_walk_finds_match(s: Seq<i64>, p: Seq<i64>, a: nat, b: nat, i: int, j: int)
    requires
        strictly_increasing(s),
        strictly_increasing(p),
        a <= i < s.len(),
        b <= j < p.len(),
        s[i] == p[j],
    ensures
        aligned_from(s, p, a, b).contains((i, j)),
    decreases (s.len() - a) + (p.len() - b),
{
    let w = aligned_from(s, p, a, b);
    if s[a as int] < p[b as int] {
        if a as int == i {
            assert(p[b as int] <= p[j]);
        }
        lemma_walk_finds_match(s, p, a + 1, b, i, j);
    } else if p[b as int] < s[a as int] {
        if b as int == j {
            assert(s[a as int] <= s[i]);
        }
        lemma_walk_finds_match(s, p, a, b + 1, i, j);
    } else {
        let rest = aligned_from(s, p, a + 1, b + 1);
        assert(w == seq![(a as int, b as int)] + rest);
        if a as int == i {
            assert(b as int == j);
            assert(w[0] == (i, j));
        } else {
            assert(b as int != j);
            lemma_walk_finds_match(s, p, a + 1, b + 1, i, j);
            let k = choose|k: int| 0 <= k < rest.len() && rest[k] == (i, j);
            assert(w[k + 1] == (i, j));
        }
    }
}

/// On strictly increasing signal and price times, the walk pairs a signal
/// with a price exactly when their timestamps are equal.
pub proof fn lemma_sorted_alignment_is_exact(s: Seq<i64>, p: Seq<i64>, i: int, j: int)
    requires
        strictly_increasing(s),
        strictly_increasing(p),
        0 <= i < s.len(),
        0 <= j < p.len(),
    ensures
        aligned_from(s, p, 0, 0).contains((i, j)) <==> s[i] == p[j],
{
    lemma_aligned_from_bounds(s, p, 0, 0);
    if s[i] == p[j] {
        lemma_walk_finds_match(s, p, 0, 0, i, j);
    }
    if aligned_from(s, p, 0, 0).contains((i, j)) {
        let k = choose|k: int|
            0 <= k < aligned_from(s, p, 0, 0).len() && aligned_from(s, p, 0, 0)[k] == (i, j);
        assert(aligned_from(s, p, 0, 0)[k] == (i, j));
    }
}

/// Pairs signals with prices by timestamp: walks both sequences from the
/// start, stepping past the side whose timestamp is earlier and emitting
/// `(signal index, price index)` when the two timestamps are equal. Points
/// without a partner are skipped.
pub fn align_ticks(signal_times: &Vec<i64>, price_times: &Vec<i64>) -> (r: Vec<(usize, usize)>)
    ensures
        pair_view(r@) == aligned_from(signal_times@, price_times@, 0, 0),
        forall|k: int|
            0 <= k < r.len() ==> (#[trigger] r[k]).0 < signal_times.len() && r[k].1
                < price_times.len() && signal_times[r[k].0 as int] == price_times[r[k].1 as int],
        forall|a: int, b: int| 0 <= a < b < r.len() ==> r[a].0 < r[b].0 && r[a].1 < r[b].1,
        strictly_increasing(signal_times@) && strictly_increasing(price_times@) ==> forall|
            i: int,
            j: int,
        |
            0 <= i < signal_times.len() && 0 <= j < price_times.len() ==> (#[trigger] pair_view(
                r@,
            ).contains((i, j)) <==> signal_times[i] == price_times[j]),
{
    let s = signal_times;
    let p = price_times;
    let mut r: Vec<(usize, usize)> = Vec::new();
    let mut i: usize = 0;
    let mut j: usize = 0;
    while i < s.len() && j < p.len()
        invariant
            i <= s.len(),
            j <= p.len(),
            pair_view(r@) + aligned_from(s@, p@, i as nat, j as nat) == aligned_from(
                s@,
                p@,
                0,
                0,
            ),
        decreases (s.len() - i) + (p.len() - j),
    {
        let ghost before = pair_view(r@);
        if s[i] < p[j] {
            i = i + 1;
        } else if p[j] < s[i] {
            j = j + 1;
        } else {
            r.push((i, j));
            proof {
                let rest = aligned_from(s@, p@, (i + 1) as nat, (j + 1) as nat);
                assert(pair_view(r@) == before.push((i as int, j as int)));
                assert(before + (seq![(i as int, j as int)] + rest) == before.push(
                    (i as int, j as int),
                ) + rest);
            }
            i = i + 1;
            j = j + 1;
        }
    }
    proof {
        assert(aligned_from(s@, p@, i as nat, j as nat) == Seq::<(int, int)>::empty());
        assert(pair_view(r@) + Seq::<(int, int)>::empty() == pair_view(r@));
        lemma_aligned_from_bounds(s@, p@, 0, 0);
        assert forall|k: int| 0 <= k < r.len() implies (#[trigger] r[k]).0 < signal_times.len()
            && r[k].1 < price_times.len() && signal_times[r[k].0 as int] == price_times[r[k].1 as int] by {
            assert(pair_view(r@)[k] == (r[k].0 as int, r[k].1 as int));
        }
        assert forall|a: int, b: int| 0 <= a < b < r.len() implies r[a].0 < r[b].0 && r[a].1
            < r[b].1 by {
            assert(pair_view(r@)[a] == (r[a].0 as int, r[a].1 as int));
            assert(pair_view(r@)[b] == (r[b].0 as int, r[b].1 as int));
        }
        if strictly_increasing(signal_times@) && strictly_increasing(price_times@) {
            assert forall|i: int, j: int|
                0 <= i < signal_times.len() && 0 <= j < price_times.len() implies (
                #[trigger] pair_view(r@).contains((i, j)) <==> signal_times[i] == price_times[j]) by {
                lemma_sorted_alignment_is_exact(signal_times@, price_times@, i, j);
            }
        }
    }
    r
}

} // verus!
