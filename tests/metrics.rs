use glicko_core::ledger::{count_trades, trade_durations, TradeCounts, TradeMark};
use glicko_core::portfolio::Side;

fn mark(side: Side, symbol: &str, timestamp: i64, gain: bool) -> TradeMark {
    TradeMark { side, symbol: symbol.to_string(), timestamp, gain }
}

#[test]
fn counts_closing_and_winning_trades() {
    let ledger = vec![
        mark(Side::Buy, "BTCUSDT", 0, false),
        mark(Side::Sell, "BTCUSDT", 3_600_000, true),
        mark(Side::Buy, "BTCUSDT", 4_000_000, false),
        mark(Side::Sell, "BTCUSDT", 5_000_000, false),
        mark(Side::Sell, "ETHUSDT", 6_000_000, true),
    ];
    assert_eq!(count_trades(&ledger), TradeCounts { closed: 3, winning: 2 });
}

#[test]
fn empty_ledger_has_no_trades() {
    assert_eq!(count_trades(&vec![]), TradeCounts { closed: 0, winning: 0 });
    assert!(trade_durations(&vec![]).is_empty());
}

#[test]
fn durations_match_sells_with_latest_unmatched_buy() {
    let ledger = vec![
        mark(Side::Buy, "BTCUSDT", 1_000, false),
        mark(Side::Buy, "ETHUSDT", 2_000, false),
        mark(Side::Buy, "BTCUSDT", 5_000, false),
        mark(Side::Sell, "ETHUSDT", 9_000, true),
        mark(Side::Sell, "BTCUSDT", 12_000, true),
        mark(Side::Sell, "BTCUSDT", 20_000, false),
        mark(Side::Buy, "BTCUSDT", 30_000, false),
        mark(Side::Sell, "BTCUSDT", 3_630_000, true),
    ];
    assert_eq!(trade_durations(&ledger), vec![7_000, 7_000, 19_000, 3_600_000]);
}

#[test]
fn durations_of_extreme_timestamps_do_not_overflow() {
    let ledger = vec![
        mark(Side::Buy, "BTCUSDT", i64::MIN, false),
        mark(Side::Sell, "BTCUSDT", i64::MAX, true),
    ];
    assert_eq!(trade_durations(&ledger), vec![(i64::MAX as i128) - (i64::MIN as i128)]);
}

#[test]
fn older_open_buy_is_matched_after_newer_one() {
    let ledger = vec![
        mark(Side::Buy, "A", 1, false),
        mark(Side::Buy, "A", 5, false),
        mark(Side::Sell, "A", 12, true),
        mark(Side::Sell, "A", 20, true),
        mark(Side::Sell, "A", 30, true),
    ];
    assert_eq!(trade_durations(&ledger), vec![7, 19]);
}

#[test]
fn sell_without_open_buy_is_skipped() {
    let ledger = vec![
        mark(Side::Sell, "A", 10, false),
        mark(Side::Buy, "B", 20, false),
        mark(Side::Sell, "A", 30, false),
        mark(Side::Sell, "B", 50, true),
    ];
    assert_eq!(trade_durations(&ledger), vec![30]);
}
