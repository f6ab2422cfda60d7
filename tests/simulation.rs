use glicko_core::align::align_ticks;
use glicko_core::portfolio::{entry_label, plan_tick, ExitReason, Side, TickPlan};
use glicko_core::signal::Signal;

#[test]
fn buy_opens_when_flat_and_affordable() {
    let p = plan_tick(false, Signal::Buy, true, false, false);
    assert_eq!(p, TickPlan { enter: true, exit: None, holding: true });
}

#[test]
fn buy_rejected_when_unaffordable() {
    let p = plan_tick(false, Signal::Buy, false, true, true);
    assert_eq!(p, TickPlan { enter: false, exit: None, holding: false });
}

#[test]
fn buy_ignored_when_already_holding() {
    let p = plan_tick(true, Signal::Buy, true, false, false);
    assert_eq!(p, TickPlan { enter: false, exit: None, holding: true });
}

#[test]
fn sell_closes_by_zscore() {
    let p = plan_tick(true, Signal::Sell, true, true, true);
    assert_eq!(p, TickPlan { enter: false, exit: Some(ExitReason::ZScore), holding: false });
}

#[test]
fn sell_when_flat_does_nothing() {
    let p = plan_tick(false, Signal::Sell, true, true, true);
    assert_eq!(p, TickPlan { enter: false, exit: None, holding: false });
}

#[test]
fn stop_loss_wins_a_tie() {
    let p = plan_tick(true, Signal::Hold, false, true, true);
    assert_eq!(p.exit, Some(ExitReason::Stop));
    assert!(!p.holding);
}

#[test]
fn take_profit_exit() {
    let p = plan_tick(true, Signal::Hold, false, false, true);
    assert_eq!(p.exit, Some(ExitReason::Profit));
}

#[test]
fn entry_can_exit_on_the_same_tick() {
    let p = plan_tick(false, Signal::Buy, true, true, false);
    assert_eq!(p, TickPlan { enter: true, exit: Some(ExitReason::Stop), holding: false });
}

#[test]
fn order_labels() {
    assert_eq!(entry_label(), "ENTRY");
    assert_eq!(ExitReason::ZScore.label(), "EXIT_ZSCORE");
    assert_eq!(ExitReason::Stop.label(), "EXIT_STOP");
    assert_eq!(ExitReason::Profit.label(), "EXIT_PROFIT");
    assert_eq!(Side::Buy.label(), "BUY");
    assert_eq!(Side::Sell.label(), "SELL");
}

#[test]
fn align_pairs_equal_timestamps_only() {
    let signals = vec![1, 2, 4, 6];
    let prices = vec![2, 3, 4, 5];
    assert_eq!(align_ticks(&signals, &prices), vec![(1, 0), (2, 2)]);
}

#[test]
fn align_with_an_empty_side() {
    assert!(align_ticks(&vec![], &vec![1, 2]).is_empty());
    assert!(align_ticks(&vec![1, 2], &vec![]).is_empty());
}

#[test]
fn rising_series_enters_once_and_exits_on_zscore() {
    // Signals from a rising rating series, prices on the same timestamps;
    // the stop and target levels are never reached.
    let signal_times = vec![100, 200, 300, 400, 500];
    let price_times = vec![0, 100, 200, 300, 400, 500];
    let signals = [Signal::Hold, Signal::Buy, Signal::Buy, Signal::Hold, Signal::Sell];
    let ticks = align_ticks(&signal_times, &price_times);
    assert_eq!(ticks.len(), 5);
    let mut holding = false;
    let mut labels = Vec::new();
    for (s, _) in ticks {
        let p = plan_tick(holding, signals[s], true, false, false);
        if p.enter {
            labels.push(entry_label());
        }
        if let Some(e) = p.exit {
            labels.push(e.label());
        }
        holding = p.holding;
    }
    assert_eq!(labels, vec!["ENTRY", "EXIT_ZSCORE"]);
    assert!(!holding);
}
