use glicko_core::history::histories_by_symbol;
use glicko_core::score::ScoreConfidence;
use glicko_core::signal::{signal_points, Signal};

#[test]
fn classify_signal_band() {
    assert_eq!(Signal::classify(true, false), Signal::Buy);
    assert_eq!(Signal::classify(false, true), Signal::Sell);
    assert_eq!(Signal::classify(false, false), Signal::Hold);
    assert_eq!(Signal::classify(true, true), Signal::Buy);
}

#[test]
fn signal_labels() {
    assert_eq!(Signal::Buy.label(), "BUY");
    assert_eq!(Signal::Sell.label(), "SELL");
    assert_eq!(Signal::Hold.label(), "HOLD");
}

#[test]
fn classify_confidence_bands() {
    assert_eq!(ScoreConfidence::classify(true, true), ScoreConfidence::Neutral);
    assert_eq!(ScoreConfidence::classify(true, false), ScoreConfidence::Neutral);
    assert_eq!(ScoreConfidence::classify(false, true), ScoreConfidence::Low);
    assert_eq!(ScoreConfidence::classify(false, false), ScoreConfidence::High);
}

#[test]
fn warm_up_points_get_no_signal() {
    assert_eq!(signal_points(5, 2), vec![2, 3, 4]);
    assert_eq!(signal_points(2, 2), Vec::<usize>::new());
    assert_eq!(signal_points(1, 3), Vec::<usize>::new());
    assert_eq!(signal_points(3, 0), vec![0, 1, 2]);
}

#[test]
fn two_points_with_window_one_signal_only_the_second() {
    let symbols = vec!["BTCUSDT".to_string(), "BTCUSDT".to_string()];
    let times = vec![2000, 1000];
    let h = histories_by_symbol(&symbols, &times);
    assert_eq!(h.len(), 1);
    let points = signal_points(h[0].records.len(), 1);
    assert_eq!(points, vec![1]);
    let emitted: Vec<i64> = points.iter().map(|&i| times[h[0].records[i]]).collect();
    assert_eq!(emitted, vec![2000]);
}

#[test]
fn test_z_score_calculation() {
    let symbols = vec!["BTCUSDT".to_string(), "BTCUSDT".to_string()];
    let times = vec![1000, 2000];
    let histories = histories_by_symbol(&symbols, &times);
    assert!(histories.iter().any(|h| h.symbol == "BTCUSDT"));
    assert_eq!(signal_points(histories[0].records.len(), 1), vec![1]);
}
