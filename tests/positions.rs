use glicko_core::book::PositionBook;

#[test]
fn book_starts_empty() {
    let book: PositionBook<f64> = PositionBook::new();
    assert_eq!(book.len(), 0);
    assert!(!book.holds(&"BTCUSDT".to_string()));
    assert!(book.get(&"BTCUSDT".to_string()).is_none());
}

#[test]
fn at_most_one_position_per_symbol() {
    let btc = "BTCUSDT".to_string();
    let mut book = PositionBook::new();
    assert!(book.open(btc.clone(), 0.19));
    assert_eq!(book.len(), 1);
    assert!(book.holds(&btc));
    assert!(!book.open(btc.clone(), 5.0));
    assert_eq!(book.len(), 1);
    assert_eq!(book.get(&btc), Some(&0.19));
}

#[test]
fn positions_of_several_symbols() {
    let btc = "BTCUSDT".to_string();
    let eth = "ETHUSDT".to_string();
    let mut book = PositionBook::new();
    assert!(book.open(btc.clone(), 1));
    assert!(book.open(eth.clone(), 2));
    assert_eq!(book.len(), 2);
    assert_eq!(book.close(&btc), Some(1));
    assert_eq!(book.len(), 1);
    assert!(!book.holds(&btc));
    assert_eq!(book.get(&eth), Some(&2));
}

#[test]
fn closing_a_flat_symbol_does_nothing() {
    let btc = "BTCUSDT".to_string();
    let mut book: PositionBook<u32> = PositionBook::new();
    assert_eq!(book.close(&btc), None);
    assert!(book.open(btc.clone(), 7));
    assert_eq!(book.close(&btc), Some(7));
    assert_eq!(book.close(&btc), None);
    assert_eq!(book.len(), 0);
}
