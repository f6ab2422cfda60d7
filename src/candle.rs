use vstd::prelude::*;

verus! {

/// A candle closes strictly after it opens.
pub open spec fn well_timed(open_times: Seq<i64>, close_times: Seq<i64>, i: int) -> bool {
    open_times[i] < close_times[i]
}

/// The first candle that does not close strictly after it opens, if any;
/// such input is malformed and stops a rating computation.
pub fn first_malformed_candle(open_times: &Vec<i64>, close_times: &Vec<i64>) -> (r: Option<usize>)
    requires
        open_times.len() == close_times.len(),
    ensures
        r is None <==> forall|i: int|
            0 <= i < open_times.len() ==> #[trigger] well_timed(open_times@, close_times@, i),
        r is Some ==> {
            let i = r->Some_0 as int;
            &&& i < open_times.len()
            &&& !well_timed(open_times@, close_times@, i)
            &&& forall|k: int| 0 <= k < i ==> #[trigger] well_timed(open_times@, close_times@, k)
        },
{
    let mut i: usize = 0;
    while i < open_times.len()
        invariant
            i <= open_times.len(),
            open_times.len() == close_times.len(),
            forall|k: int| 0 <= k < i ==> #[trigger] well_timed(open_times@, close_times@, k),
        decreases open_times.len() - i,
    {
        if open_times[i] >= close_times[i] {
            assert(!well_timed(open_times@, close_times@, i as int));
            return Some(i);
        }
        i = i + 1;
    }
    None
}

} // verus!
