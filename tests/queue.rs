use rvat_scanner::queue::{symbols_from_folders, ExclusionSet, SymbolQueue, Ticker};

fn names(list: &[&str]) -> Vec<String> {
    list.iter().map(|s| s.to_string()).collect()
}

#[test]
fn claims_cycle_and_count_passes() {
    let mut q = SymbolQueue::new(names(&["A", "B", "C"])).unwrap();
    assert_eq!(q.len(), 3);
    assert_eq!(q.next(), (1, "B".to_string()));
    assert_eq!(q.pass_count(), 0);
    assert_eq!(q.next(), (2, "C".to_string()));
    assert_eq!(q.next(), (0, "A".to_string()));
    assert_eq!(q.pass_count(), 1);
    for _ in 0..3 {
        let (i, _) = q.next();
        assert!(i < 3);
    }
    assert_eq!(q.pass_count(), 2);
    for _ in 0..30 {
        q.next();
    }
    assert_eq!(q.pass_count(), 12);
}

#[test]
fn single_symbol_wraps_every_claim() {
    let mut q = SymbolQueue::new(names(&["ONLY"])).unwrap();
    assert_eq!(q.next(), (0, "ONLY".to_string()));
    assert_eq!(q.next(), (0, "ONLY".to_string()));
    assert_eq!(q.pass_count(), 2);
}

#[test]
fn empty_universe_has_no_queue() {
    assert!(SymbolQueue::new(Vec::new()).is_none());
}

#[test]
fn folder_metadata_is_not_a_symbol() {
    let kept = symbols_from_folders(names(&["AAPL", ".DS_Store", "MSFT", ".DS_Store2"]));
    assert_eq!(kept, names(&["AAPL", "MSFT", ".DS_Store2"]));
    assert!(symbols_from_folders(names(&[".DS_Store"])).is_empty());
}

#[test]
fn exclusions_match_whole_symbols() {
    let tickers = vec![Ticker::new("SPY".to_string()), Ticker::new("QQQ".to_string())];
    assert_eq!(tickers[1].ticker().as_str(), "QQQ");
    let set = ExclusionSet::from_tickers(&tickers);
    assert!(set.contains(&"SPY".to_string()));
    assert!(set.contains(&"QQQ".to_string()));
    assert!(!set.contains(&"SP".to_string()));
    assert!(!set.contains(&"AAPL".to_string()));
    let none = ExclusionSet::from_tickers(&Vec::new());
    assert!(!none.contains(&"SPY".to_string()));
}
