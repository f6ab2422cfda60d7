use vstd::prelude::*;

verus! {

/// How decisive a candle's performance score is.
#[derive(Clone, Copy, Debug, PartialEq, Eq, Structural)]
pub enum ScoreConfidence {
    High,
    Low,
    Neutral,
}

impl ScoreConfidence {
    /// Classifies a score by its distance from the draw value 0.5:
    /// inside the draw band the score is `Neutral`, otherwise inside the
    /// low band it is `Low`, and beyond both bands it is `High`.
    pub fn classify(within_draw_band: bool, within_low_band: bool) -> (r: ScoreConfidence)
        ensures
            within_draw_band ==> r == ScoreConfidence::Neutral,
            !within_draw_band && within_low_band ==> r == ScoreConfidence::Low,
            !within_draw_band && !within_low_band ==> r == ScoreConfidence::High,
    {
        if within_draw_band {
            ScoreConfidence::Neutral
        } else if within_low_band {
            ScoreConfidence::Low
        } else {
            ScoreConfidence::High
        }
    }
}

} // verus!
