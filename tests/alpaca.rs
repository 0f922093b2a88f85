use rvat_scanner::alpaca::{
    check_bar_query, check_calendar_range, most_recent_first, split_calendar, Bar, BarQueryError, BarResponse,
    Calendar, ErrorResponse, REFERENCE_DAYS,
};
use rvat_scanner::clock::Timestamp;

fn day(date: &str) -> Calendar {
    Calendar {
        date: date.to_string(),
        open: "09:30".to_string(),
        close: "16:00".to_string(),
        session_open: "0400".to_string(),
        session_close: "2000".to_string(),
        settlement_date: date.to_string(),
    }
}

#[test]
fn newest_first() {
    assert_eq!(most_recent_first(vec![1, 2, 3]), vec![3, 2, 1]);
    assert_eq!(most_recent_first(Vec::<u8>::new()), Vec::<u8>::new());
    assert_eq!(most_recent_first(vec!["a"]), vec!["a"]);
}

#[test]
fn bar_query_rules() {
    let a = Timestamp::utc(100);
    let b = Timestamp::utc(200);
    assert_eq!(check_bar_query("AAPL", "1Min", a, b, 1000), Ok(()));
    assert_eq!(check_bar_query("AAPL", "1Min", a, b, 10000), Ok(()));
    assert_eq!(check_bar_query("AAPL", "1Min", a, b, 1), Ok(()));
    assert_eq!(check_bar_query("AAPL", "1Min", b, a, 1000), Err(BarQueryError::StartNotBeforeEnd));
    assert_eq!(check_bar_query("AAPL", "1Min", a, a, 1000), Err(BarQueryError::StartNotBeforeEnd));
    assert_eq!(check_bar_query("AAPL", "1Min", a, b, 10001), Err(BarQueryError::LimitTooLarge));
    assert_eq!(check_bar_query("AAPL", "1Min", a, b, 0), Err(BarQueryError::LimitNotPositive));
    assert_eq!(check_bar_query("", "1Min", a, b, 1000), Err(BarQueryError::EmptyTicker));
    assert_eq!(check_bar_query("AAPL", "", a, b, 1000), Err(BarQueryError::EmptyTimeframe));
    assert_eq!(check_bar_query("", "", b, a, 0), Err(BarQueryError::StartNotBeforeEnd));
}

#[test]
fn calendar_range_must_be_forward() {
    assert!(check_calendar_range(Timestamp::utc(1), Timestamp::utc(2)));
    assert!(!check_calendar_range(Timestamp::utc(2), Timestamp::utc(2)));
    let later_clock = Timestamp { seconds: 1, offset: 7200 };
    assert!(check_calendar_range(later_clock, Timestamp::utc(2)));
}

#[test]
fn calendar_splits_into_analysis_and_reference_days() {
    let days: Vec<Calendar> = (0..20).map(|i| day(&format!("d{}", i))).collect();
    let (analysis, reference) = split_calendar(days).unwrap();
    assert_eq!(analysis.date, "d0");
    assert_eq!(reference.len(), REFERENCE_DAYS);
    assert_eq!(reference[0].date, "d1");
    assert_eq!(reference[16].date, "d17");
    let short: Vec<Calendar> = (0..17).map(|i| day(&format!("d{}", i))).collect();
    assert!(split_calendar(short).is_none());
    let exact: Vec<Calendar> = (0..18).map(|i| day(&format!("d{}", i))).collect();
    assert_eq!(split_calendar(exact).unwrap().1.len(), 17);
}

#[test]
fn bar_response_holds_its_bars() {
    let bar = Bar { t: Timestamp::utc(5), o: Some(1), h: Some(2), l: Some(1), c: Some(2), v: Some(10) };
    let response = BarResponse::new(vec![bar]);
    assert_eq!(response.get_bars().len(), 1);
    assert_eq!(response.get_bars()[0].v, Some(10));
    let err = ErrorResponse { message: "forbidden".to_string() };
    assert_eq!(err.message, "forbidden");
}
