use vstd::prelude::*;

verus! {

/// A trading signal derived from a z-score.
#[derive(Clone, Copy, Debug, PartialEq, Eq, Structural)]
pub enum Signal {
    Buy,
    Sell,
    Hold,
}

impl Signal {
    /// Classifies a z-score against a threshold band: above the upper bound
    /// (`z > threshold`) is `Buy`, otherwise below the lower bound
    /// (`z < -threshold`) is `Sell`, and inside the band is `Hold`.
    pub fn classify(above_band: bool, below_band: bool) -> (r: Signal)
        ensures
            above_band ==> r == Signal::Buy,
            !above_band && below_band ==> r == Signal::Sell,
            !above_band && !below_band ==> r == Signal::Hold,
    {
        if above_band {
            Signal::Buy
        } else if below_band {
            Signal::Sell
        } else {
            Signal::Hold
        }
    }

    /// The label of the signal.
    pub fn label(&self) -> (r: &'static str)
        ensures
            *self == Signal::Buy ==> r@ == "BUY"@,
            *self == Signal::Sell ==> r@ == "SELL"@,
            *self == Signal::Hold ==> r@ == "HOLD"@,
    {
        match self {
            Signal::Buy => "BUY",
            Signal::Sell => "SELL",
            Signal::Hold => "HOLD",
        }
    }
}

/// The positions of a symbol's chronological history that get a signal
/// with a rolling window of `period` observations: every position `i` with
/// `period <= i < len`, in order. The window of position `i` is the
/// `period` observations `i - period .. i` before it; the first `period`
/// observations only warm the window up and get no signal.
pub fn signal_points(len: usize, period: usize) -> (r: Vec<usize>)
    ensures
        r.len() == if period <= len { len - period } else { 0 },
        forall|k: int| 0 <= k < r.len() ==> #[trigger] r[k] == period + k,
        forall|k: int| 0 <= k < r.len() ==> period <= #[trigger] r[k] < len,
{
    let mut r: Vec<usize> = Vec::new();
    let mut i: usize = period;
    while i < len
        invariant
            period <= i,
            i < len ==> r.len() == i - period,
            i >= len ==> r.len() == if period <= len { len - period } else { 0 },
            forall|k: int| 0 <= k < r.len() ==> #[trigger] r[k] == period + k,
            forall|k: int| 0 <= k < r.len() ==> #[trigger] r[k] < len,
        decreases len - i,
    {
        r.push(i);
        i = i + 1;
    }
    r
}

} // verus!
