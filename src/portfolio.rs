use vstd::prelude::*;
use crate::signal::Signal;

verus! {

/// The side of a ledger order.
#[derive(Clone, Copy, Debug, PartialEq, Eq, Structural)]
pub enum Side {
    Buy,
    Sell,
}

impl Side {
    /// The side's ledger label.
    pub fn label(&self) -> (r: &'static str)
        ensures
            *self == Side::Buy ==> r@ == "BUY"@,
            *self == Side::Sell ==> r@ == "SELL"@,
    {
        match self {
            Side::Buy => "BUY",
            Side::Sell => "SELL",
        }
    }
}

/// Why a position was closed.
#[derive(Clone, Copy, Debug, PartialEq, Eq, Structural)]
pub enum ExitReason {
    /// A `Sell` signal.
    ZScore,
    /// The price fell to the stop-loss level.
    Stop,
    /// The price rose to the take-profit level.
    Profit,
}

impl ExitReason {
    /// The reason code of the closing order.
    pub fn label(&self) -> (r: &'static str)
        ensures
            *self == ExitReason::ZScore ==> r@ == "EXIT_ZSCORE"@,
            *self == ExitReason::Stop ==> r@ == "EXIT_STOP"@,
            *self == ExitReason::Profit ==> r@ == "EXIT_PROFIT"@,
    {
        match self {
            ExitReason::ZScore => "EXIT_ZSCORE",
            ExitReason::Stop => "EXIT_STOP",
            ExitReason::Profit => "EXIT_PROFIT",
        }
    }
}

/// The reason code of an opening order.
pub fn entry_label() -> (r: &'static str)
    ensures
        r@ == "ENTRY"@,
{
    "ENTRY"
}

/// What one aligned (signal, price) tick does to a symbol's position.
#[derive(Clone, Copy, Debug, PartialEq, Eq, Structural)]
pub struct TickPlan {
    /// A position is opened at the tick's price.
    pub enter: bool,
    /// The position (held before, or opened on this tick) is closed.
    pub exit: Option<ExitReason>,
    /// A position is held after the tick.
    pub holding: bool,
}

/// A position is open once the tick's signal has been acted on.
pub open spec fn open_after_signal(holding: bool, signal: Signal, affordable: bool) -> bool {
    (holding && signal != Signal::Sell) || (!holding && signal == Signal::Buy && affordable)
}

/// One step of the position state machine of a symbol, Flat (`holding`
/// false) or Open (`holding` true), with One-Cancels-Other exits.
///
/// In order: a `Buy` signal opens a position when none is held and the
/// allocation is `affordable`; a `Sell` signal closes a held position;
/// then a position still open is closed at its stop-loss level when
/// `at_stop` (price at or below it), else at its take-profit level when
/// `at_target` (price at or above it). The levels are those of the position
/// open after the signal, including one opened on this very tick. The
/// stop-loss is checked first, so it wins when both levels are reached.
pub fn plan_tick(
    holding: bool,
    signal: Signal,
    affordable: bool,
    at_stop: bool,
    at_target: bool,
) -> (r: TickPlan)
    ensures
        r.enter == (!holding && signal == Signal::Buy && affordable),
        holding && signal == Signal::Sell ==> r.exit == Some(ExitReason::ZScore),
        open_after_signal(holding, signal, affordable) && at_stop ==> r.exit == Some(
            ExitReason::Stop,
        ),
        open_after_signal(holding, signal, affordable) && !at_stop && at_target ==> r.exit == Some(
            ExitReason::Profit,
        ),
        !(holding && signal == Signal::Sell) && !(open_after_signal(holding, signal, affordable) && (
        at_stop || at_target)) ==> r.exit.is_none(),
        r.holding == (open_after_signal(holding, signal, affordable) && !at_stop && !at_target),
        // the stop-loss wins a tie between the two exit levels
        open_after_signal(holding, signal, affordable) && at_stop && at_target ==> r.exit == Some(
            ExitReason::Stop,
        ),
{
    let mut open = holding;
    let mut enter = false;
    let mut exit: Option<ExitReason> = None;
    match signal {
        Signal::Buy => {
            if !open && affordable {
                enter = true;
                open = true;
            }
        },
        Signal::Sell => {
            if open {
                exit = Some(ExitReason::ZScore);
                open = false;
            }
        },
        Signal::Hold => {},
    }
    if open {
        if at_stop {
            exit = Some(ExitReason::Stop);
            open = false;
        } else if at_target {
            exit = Some(ExitReason::Profit);
            open = false;
        }
    }
    TickPlan { enter, exit, holding: open }
}

} // verus!
