use vstd::prelude::*;

verus! {

/// Milliseconds in a month of 30 days.
pub const MONTH_MS: i64 = 2_592_000_000;

/// Window length in months when none is configured.
pub const DEFAULT_WINDOW_MONTHS: usize = 12;

/// A walk-forward window length that cannot be used.
#[derive(Clone, Copy, Debug, PartialEq, Eq, Structural)]
pub enum WindowError {
    /// A window of zero months would never advance.
    ZeroLength,
    /// The window's length in milliseconds does not fit in an `i64`.
    TooLong,
}

/// Number of windows of length `len`, started every `step` milliseconds from
/// `start`, that end at or before `end`.
pub open spec fn window_count(start: int, end: int, len: int, step: int) -> int {
    if start + len > end {
        0
    } else {
        (end - start - len) / step + 1
    }
}

/// The walk-forward windows of a backtest between `start` and `end`
/// (milliseconds): windows of `months` 30-day months (12 when unset), each
/// starting half a window after the previous one, the first at `start`,
/// as long as the window ends at or before `end`. Window `k` is
/// `(start + k * step, start + k * step + len)`, both ends inclusive.
pub fn walk_forward_windows(start: i64, end: i64, months: Option<usize>) -> (r: Result<
    Vec<(i64, i64)>,
    WindowError,
>)
    ensures
        ({
            let m = match months {
                Some(m) => m,
                None => DEFAULT_WINDOW_MONTHS,
            };
            let len = m * MONTH_MS;
            let step = len / 2;
            &&& (m == 0 <==> r == Err::<Vec<(i64, i64)>, WindowError>(WindowError::ZeroLength))
            &&& (m > 0 && len > i64::MAX <==> r == Err::<Vec<(i64, i64)>, WindowError>(
                WindowError::TooLong,
            ))
            &&& (m > 0 && len <= i64::MAX <==> r is Ok)
            &&& (r is Ok ==> {
                let w = r->Ok_0;
                &&& w.len() == window_count(start as int, end as int, len, step)
                &&& forall|k: int|
                    0 <= k < w.len() ==> (#[trigger] w[k]).0 == start + k * step && w[k].1 == start
                        + k * step + len
            })
        }),
{
    let m = match months {
        Some(m) => m,
        None => DEFAULT_WINDOW_MONTHS,
    };
    if m == 0 {
        return Err(WindowError::ZeroLength);
    }
    let limit: i64 = i64::MAX / MONTH_MS;
    if m as u64 > limit as u64 {
        proof {
            assert(m * MONTH_MS > i64::MAX) by (nonlinear_arith)
                requires
                    m > limit,
                    limit == i64::MAX / MONTH_MS,
                    MONTH_MS == 2_592_000_000,
            ;
        }
        return Err(WindowError::TooLong);
    }
    proof {
        assert(m * MONTH_MS <= i64::MAX) by (nonlinear_arith)
            requires
                m <= limit,
                limit == i64::MAX / MONTH_MS,
                MONTH_MS == 2_592_000_000,
        ;
    }
    let len: i64 = (m as i64) * MONTH_MS;
    let step: i64 = len / 2;
    assert(step > 0);
    let mut windows: Vec<(i64, i64)> = Vec::new();
    let mut cur: i128 = start as i128;
    assert(0 * step == 0);
    while cur + (len as i128) <= end as i128
        invariant
            len == m * MONTH_MS,
            step == len / 2,
            step > 0,
            cur == start + windows.len() * step,
            start <= cur,
            cur == start || cur <= end,
            windows.len() > 0 ==> start + (windows.len() - 1) * step + len <= end,
            forall|k: int|
                0 <= k < windows.len() ==> (#[trigger] windows[k]).0 == start + k * step
                    && windows[k].1 == start + k * step + len,
        decreases end - cur,
    {
        let lo = cur as i64;
        let hi = (cur + len as i128) as i64;
        windows.push((lo, hi));
        cur = cur + step as i128;
        proof {
            assert(start + windows.len() * step == start + (windows.len() - 1) * step + step) by (nonlinear_arith);
        }
    }
    proof {
        let k = windows.len() as int;
        let st = step as int;
        let x = end - start - len;
        if start + len <= end {
            assert(k > 0);
            assert((k - 1) * st <= x);
            assert(x < k * st);
            assert(x / st == k - 1) by (nonlinear_arith)
                requires
                    (k - 1) * st <= x,
                    x < k * st,
                    st > 0,
                    x >= 0,
            ;
        } else {
            if k > 0 {
                assert((k - 1) * step >= 0) by (nonlinear_arith)
                    requires
                        k > 0,
                        step > 0,
                ;
            }
        }
    }
    Ok(windows)
}

/// The indices of the records whose time lies in `lo ..= hi`, in input order.
pub fn select_in_window(times: &Vec<i64>, lo: i64, hi: i64) -> (r: Vec<usize>)
    ensures
        forall|k: int|
            0 <= k < r.len() ==> (#[trigger] r[k] as int) < times.len() && lo <= times[r[k] as int]
                <= hi,
        forall|a: int, b: int| 0 <= a < b < r.len() ==> #[trigger] r[a] < #[trigger] r[b],
        forall|j: int|
            0 <= j < times.len() && lo <= #[trigger] times[j] <= hi ==> r@.contains(j as usize),
{
    let mut r: Vec<usize> = Vec::new();
    let mut i: usize = 0;
    while i < times.len()
        invariant
            i <= times.len(),
            forall|k: int|
                0 <= k < r.len() ==> (#[trigger] r[k] as int) < i && lo <= times[r[k] as int] <= hi,
            forall|a: int, b: int| 0 <= a < b < r.len() ==> #[trigger] r[a] < #[trigger] r[b],
            forall|j: int| 0 <= j < i && lo <= #[trigger] times[j] <= hi ==> r@.contains(j as usize),
        decreases times.len() - i,
    {
        if lo <= times[i] && times[i] <= hi {
            let ghost before = r@;
            r.push(i);
            proof {
                assert forall|j: int| 0 <= j < i + 1 && lo <= #[trigger] times[j] <= hi implies r@.contains(
                    j as usize,
                ) by {
                    if j < i {
                        let q = choose|q: int| 0 <= q < before.len() && before[q] == j as usize;
                        assert(r@[q] == j as usize);
                    } else {
                        assert(r@[before.len() as int] == j as usize);
                    }
                }
            }
        }
        i = i + 1;
    }
    r
}

} // verus!
