use rvat_scanner::clock::Timestamp;
use rvat_scanner::ranking::{Analysis, App, DEFAULT_CAPACITY};

fn analysis(symbol: &str, score_milli: u64, created: i64) -> Analysis {
    Analysis {
        symbol: symbol.to_string(),
        average_dvat: 2000,
        analysis_dvat: score_milli * 2,
        score_milli,
        pnl_basis_points: 0,
        created_at: Timestamp::utc(created),
    }
}

fn scores(app: &App) -> Vec<u64> {
    app.items().iter().map(|a| a.score_milli).collect()
}

fn symbols(app: &App) -> Vec<String> {
    app.items().iter().map(|a| a.symbol.clone()).collect()
}

#[test]
fn new_app_is_empty() {
    let app = App::new();
    assert!(app.items().is_empty());
    assert_eq!(app.title().as_str(), "RVAT Scanner");
    assert_eq!(app.selected(), None);
    assert_eq!(app.capacity_limit(), DEFAULT_CAPACITY);
}

#[test]
fn reanalysis_keeps_first_seen_time() {
    let mut app = App::new();
    app.add_analysis(analysis("AAA", 2000, 100));
    app.add_analysis(analysis("AAA", 5000, 900));
    assert_eq!(app.items().len(), 1);
    let entry = &app.items()[0];
    assert_eq!(entry.symbol, "AAA");
    assert_eq!(entry.score_milli, 5000);
    assert_eq!(entry.analysis_dvat, 10000);
    assert_eq!(entry.created_at, Timestamp::utc(100));
}

#[test]
fn capacity_two_evicts_lowest_score() {
    let mut app = App::with_capacity(2);
    app.add_analysis(analysis("A", 1000, 1));
    app.add_analysis(analysis("B", 5000, 2));
    app.add_analysis(analysis("C", 3000, 3));
    assert_eq!(scores(&app), vec![5000, 3000]);
    assert_eq!(symbols(&app), vec!["B".to_string(), "C".to_string()]);
}

#[test]
fn low_score_is_not_added_to_full_board() {
    let mut app = App::with_capacity(2);
    app.add_analysis(analysis("A", 4000, 1));
    app.add_analysis(analysis("B", 5000, 2));
    app.add_analysis(analysis("C", 3000, 3));
    assert_eq!(symbols(&app), vec!["B".to_string(), "A".to_string()]);
}

#[test]
fn board_stays_sorted_unique_and_bounded() {
    let mut app = App::with_capacity(3);
    let inputs = [("A", 10), ("B", 30), ("C", 20), ("A", 40), ("D", 5), ("E", 25), ("B", 1), ("F", 50)];
    for (i, (sym, score)) in inputs.iter().enumerate() {
        app.add_analysis(analysis(sym, *score, i as i64));
        let s = scores(&app);
        assert!(s.len() <= 3);
        assert!(s.windows(2).all(|w| w[0] >= w[1]));
        let mut names = symbols(&app);
        names.sort();
        names.dedup();
        assert_eq!(names.len(), s.len());
    }
    assert_eq!(symbols(&app), vec!["F".to_string(), "A".to_string(), "E".to_string()]);
}

#[test]
fn update_moves_entry_to_its_rank() {
    let mut app = App::new();
    app.add_analysis(analysis("A", 3000, 1));
    app.add_analysis(analysis("B", 2000, 2));
    app.add_analysis(analysis("C", 1000, 3));
    app.add_analysis(analysis("C", 9000, 4));
    assert_eq!(symbols(&app), vec!["C".to_string(), "A".to_string(), "B".to_string()]);
    assert_eq!(app.items()[0].created_at, Timestamp::utc(3));
    app.add_analysis(analysis("C", 500, 5));
    assert_eq!(symbols(&app), vec!["A".to_string(), "B".to_string(), "C".to_string()]);
}

#[test]
fn equal_score_goes_after_existing() {
    let mut app = App::new();
    app.add_analysis(analysis("A", 3000, 1));
    app.add_analysis(analysis("B", 3000, 2));
    assert_eq!(symbols(&app), vec!["A".to_string(), "B".to_string()]);
}

#[test]
fn selection_moves_and_wraps() {
    let mut app = App::new();
    app.add_analysis(analysis("A", 3000, 1));
    app.add_analysis(analysis("B", 2000, 2));
    app.select_next();
    assert_eq!(app.selected(), Some(0));
    app.select_next();
    assert_eq!(app.selected(), Some(1));
    app.select_next();
    assert_eq!(app.selected(), Some(0));
    app.select_previous();
    assert_eq!(app.selected(), Some(1));
    app.unselect();
    assert_eq!(app.selected(), None);
    app.select_previous();
    assert_eq!(app.selected(), Some(0));
}

#[test]
fn selection_on_empty_board() {
    let mut app = App::new();
    app.select_next();
    assert_eq!(app.selected(), Some(0));
    app.select_next();
    assert_eq!(app.selected(), Some(0));
    app.select_previous();
    assert_eq!(app.selected(), Some(0));
}

#[test]
fn title_is_replaced() {
    let mut app = App::new();
    app.add_analysis(analysis("A", 3000, 1));
    app.set_title("RVAT Scanner 2024-01-02 50% (1)");
    assert_eq!(app.title().as_str(), "RVAT Scanner 2024-01-02 50% (1)");
    assert_eq!(app.items().len(), 1);
}
