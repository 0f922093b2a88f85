use rvat_scanner::alpaca::Bar;
use rvat_scanner::clock::Timestamp;
use rvat_scanner::volume::{analyze, cache_file, price_change, reference_volume, sum_cutoff_volume, sum_session_volume};

const MIDNIGHT: i64 = 19737 * 86400;

fn bar_at(hour: i64, minute: i64, volume: Option<u64>) -> Bar {
    Bar {
        t: Timestamp::utc(MIDNIGHT + hour * 3600 + minute * 60),
        o: None,
        h: None,
        l: None,
        c: Some(1_000_000),
        v: volume,
    }
}

fn close_bar(close: Option<u64>, volume: u64) -> Bar {
    Bar { c: close, ..bar_at(10, 0, Some(volume)) }
}

fn now_at(hour: i64, minute: i64) -> Timestamp {
    Timestamp::utc(MIDNIGHT + hour * 3600 + minute * 60)
}

fn day_with_volume(volume: u64) -> Option<Vec<Bar>> {
    Some(vec![bar_at(9, 30, Some(volume / 2)), bar_at(10, 0, Some(volume - volume / 2)), bar_at(23, 0, Some(777))])
}

#[test]
fn cutoff_excludes_bars_after_current_minute() {
    let bars = vec![
        bar_at(13, 59, Some(1)),
        bar_at(14, 0, Some(10)),
        bar_at(14, 30, Some(20)),
        bar_at(14, 31, Some(40)),
        bar_at(15, 0, Some(80)),
        bar_at(2, 45, Some(100)),
    ];
    assert_eq!(sum_cutoff_volume(&bars, 14, 30), 131);
    assert_eq!(sum_cutoff_volume(&bars, 14, 30), sum_cutoff_volume(&bars, 14, 30));
    assert_eq!(sum_cutoff_volume(&bars, 0, 0), 0);
    assert_eq!(sum_cutoff_volume(&bars, 23, 59), 251);
}

#[test]
fn cutoff_reads_bar_time_on_its_own_clock() {
    let mut bar = bar_at(14, 0, Some(5));
    bar.t.offset = 3600;
    assert_eq!(sum_cutoff_volume(&vec![bar], 14, 30), 0);
    let mut bar = bar_at(15, 0, Some(5));
    bar.t.offset = -3600;
    assert_eq!(sum_cutoff_volume(&vec![bar], 14, 30), 5);
}

#[test]
fn unreadable_volume_adds_nothing() {
    let bars = vec![bar_at(9, 0, Some(7)), bar_at(9, 1, None), bar_at(9, 2, Some(3))];
    assert_eq!(sum_cutoff_volume(&bars, 12, 0), 10);
    assert_eq!(sum_session_volume(&bars), 10);
    assert_eq!(sum_session_volume(&Vec::new()), 0);
}

#[test]
fn volumes_beyond_64_bits_are_summed_exactly() {
    let bars = vec![bar_at(9, 0, Some(u64::MAX)), bar_at(9, 1, Some(u64::MAX))];
    assert_eq!(sum_session_volume(&bars), 2 * u64::MAX as u128);
    assert_eq!(reference_volume(&vec![Some(bars)], 12, 0), None);
}

#[test]
fn reference_volume_skips_unreadable_days() {
    let days = vec![day_with_volume(100), None, day_with_volume(300)];
    assert_eq!(reference_volume(&days, 12, 0), Some((400, 2)));
    assert_eq!(reference_volume(&vec![None, None], 12, 0), Some((0, 0)));
}

#[test]
fn illiquid_symbol_is_skipped_despite_high_ratio() {
    let days = vec![day_with_volume(100), day_with_volume(200), day_with_volume(300)];
    let session = vec![bar_at(9, 30, Some(5000))];
    assert_eq!(reference_volume(&days, 14, 30), Some((600, 3)));
    assert!(analyze("XYZ".to_string(), &days, now_at(14, 30), &session).is_none());
}

#[test]
fn liquid_symbol_is_scored() {
    let days = vec![day_with_volume(1000), day_with_volume(2000), day_with_volume(3000)];
    let session = vec![close_bar(Some(110_000_000), 30000), close_bar(Some(100_000_000), 20000)];
    let a = analyze("XYZ".to_string(), &days, now_at(14, 30), &session).unwrap();
    assert_eq!(a.symbol, "XYZ");
    assert_eq!(a.average_dvat, 2000);
    assert_eq!(a.analysis_dvat, 50000);
    assert_eq!(a.score_milli, 25000);
    assert_eq!(a.pnl_basis_points, 909);
    assert_eq!(a.created_at, now_at(14, 30));
}

#[test]
fn baseline_uses_only_readable_days() {
    let days = vec![None, day_with_volume(3000), None, day_with_volume(1000)];
    let session = vec![bar_at(9, 30, Some(3000))];
    let a = analyze("Q".to_string(), &days, now_at(14, 30), &session).unwrap();
    assert_eq!(a.average_dvat, 2000);
    assert_eq!(a.score_milli, 1500);
}

#[test]
fn score_divides_by_the_exact_mean() {
    let days = vec![day_with_volume(1000), day_with_volume(1001)];
    let session = vec![bar_at(9, 30, Some(1_000_000))];
    let a = analyze("Q".to_string(), &days, now_at(14, 30), &session).unwrap();
    assert_eq!(a.average_dvat, 1000);
    assert_eq!(a.score_milli, 999500);
}

#[test]
fn score_is_rounded_down_in_thousandths() {
    let days = vec![day_with_volume(3000)];
    let session = vec![bar_at(9, 30, Some(1000))];
    let a = analyze("Q".to_string(), &days, now_at(14, 30), &session).unwrap();
    assert_eq!(a.score_milli, 333);
}

#[test]
fn floor_is_inclusive() {
    let days = vec![day_with_volume(1000)];
    let session = vec![bar_at(9, 30, Some(1))];
    assert_eq!(analyze("Q".to_string(), &days, now_at(14, 30), &session).unwrap().score_milli, 1);
    let days = vec![day_with_volume(999)];
    assert!(analyze("Q".to_string(), &days, now_at(14, 30), &session).is_none());
}

#[test]
fn symbol_without_usable_data_is_skipped() {
    let session = vec![bar_at(9, 30, Some(5000))];
    assert!(analyze("Q".to_string(), &vec![None, None], now_at(14, 30), &session).is_none());
    assert!(analyze("Q".to_string(), &Vec::new(), now_at(14, 30), &session).is_none());
    let days = vec![day_with_volume(5000)];
    assert!(analyze("Q".to_string(), &days, now_at(14, 30), &Vec::new()).is_none());
    let silent = vec![bar_at(9, 30, Some(0)), bar_at(9, 31, None)];
    assert!(analyze("Q".to_string(), &days, now_at(14, 30), &silent).is_none());
}

#[test]
fn early_cutoff_leaves_nothing_to_compare() {
    let days = vec![day_with_volume(5000)];
    let session = vec![bar_at(9, 30, Some(5000))];
    assert!(analyze("Q".to_string(), &days, now_at(9, 0), &session).is_none());
    assert_eq!(analyze("Q".to_string(), &days, now_at(9, 30), &session).unwrap().average_dvat, 2500);
    assert_eq!(analyze("Q".to_string(), &days, now_at(10, 0), &session).unwrap().average_dvat, 5000);
}

#[test]
fn price_change_in_basis_points() {
    assert_eq!(price_change(Some(100), Some(90)), 1000);
    assert_eq!(price_change(Some(100), Some(110)), -1000);
    assert_eq!(price_change(Some(3), Some(2)), 3333);
    assert_eq!(price_change(Some(3), Some(4)), -3333);
    assert_eq!(price_change(Some(100), Some(100)), 0);
    assert_eq!(price_change(Some(0), Some(5)), 0);
    assert_eq!(price_change(None, Some(5)), 0);
    assert_eq!(price_change(Some(5), None), 0);
    assert_eq!(price_change(Some(1), Some(u64::MAX)), -((u64::MAX as i128 - 1) * 10000));
}

#[test]
fn session_change_uses_first_and_last_bar() {
    let days = vec![day_with_volume(1000)];
    let session = vec![close_bar(None, 10), close_bar(Some(5), 10)];
    assert_eq!(analyze("Q".to_string(), &days, now_at(14, 30), &session).unwrap().pnl_basis_points, 0);
    let session = vec![close_bar(Some(200), 10), close_bar(Some(1), 10), close_bar(Some(100), 10)];
    assert_eq!(analyze("Q".to_string(), &days, now_at(14, 30), &session).unwrap().pnl_basis_points, 5000);
}

#[test]
fn cache_layout() {
    assert_eq!(cache_file("AAPL", "2024-01-15"), "cache/AAPL/2024-01-15.json");
}
