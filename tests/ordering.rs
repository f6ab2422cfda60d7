use glicko_core::candle::first_malformed_candle;
use glicko_core::history::histories_by_symbol;
use glicko_core::order::stable_time_order;
use glicko_core::symbols::assign_symbol_ids;

fn names(v: &[&str]) -> Vec<String> {
    v.iter().map(|s| s.to_string()).collect()
}

#[test]
fn stable_order_sorts_by_time_and_keeps_ties() {
    let times = vec![3, 1, 2, 1];
    assert_eq!(stable_time_order(&times), vec![1, 3, 2, 0]);
}

#[test]
fn stable_order_of_nothing_is_empty() {
    assert!(stable_time_order(&vec![]).is_empty());
}

#[test]
fn stable_order_keeps_sorted_input() {
    let times = vec![10, 20, 20, 30];
    assert_eq!(stable_time_order(&times), vec![0, 1, 2, 3]);
}

#[test]
fn stable_order_reverses_descending_input() {
    let times = vec![i64::MAX, 0, i64::MIN];
    assert_eq!(stable_time_order(&times), vec![2, 1, 0]);
}

#[test]
fn symbols_numbered_by_first_appearance() {
    let ids = assign_symbol_ids(&names(&["ETHUSDT", "BTCUSDT", "ETHUSDT", "SOLUSDT"]));
    assert_eq!(ids.names, names(&["ETHUSDT", "BTCUSDT", "SOLUSDT"]));
    assert_eq!(ids.ids, vec![0, 1, 0, 2]);
}

#[test]
fn histories_split_by_symbol_in_time_order() {
    let symbols = names(&["BTCUSDT", "ETHUSDT", "BTCUSDT", "BTCUSDT", "ETHUSDT"]);
    let times = vec![2000, 500, 1000, 2000, 100];
    let h = histories_by_symbol(&symbols, &times);
    assert_eq!(h.len(), 2);
    assert_eq!(h[0].symbol, "BTCUSDT");
    assert_eq!(h[0].records, vec![2, 0, 3]);
    assert_eq!(h[1].symbol, "ETHUSDT");
    assert_eq!(h[1].records, vec![4, 1]);
}

#[test]
fn histories_of_nothing_are_empty() {
    assert!(histories_by_symbol(&vec![], &vec![]).is_empty());
}

#[test]
fn well_timed_candles_pass() {
    assert_eq!(first_malformed_candle(&vec![0, 100], &vec![60, 160]), None);
    assert_eq!(first_malformed_candle(&vec![], &vec![]), None);
}

#[test]
fn first_malformed_candle_is_reported() {
    assert_eq!(first_malformed_candle(&vec![0, 100, 200, 300], &vec![60, 100, 150, 360]), Some(1));
    assert_eq!(first_malformed_candle(&vec![1_640_995_200_000], &vec![1_640_998_800_000]), None);
}
