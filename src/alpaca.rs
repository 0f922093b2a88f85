//! The records exchanged with the market-data service, and the checks and
//! reordering applied around its calls.

use vstd::prelude::*;

use crate::clock::{new_york_time, session_clock, time_in_new_york, with_colon, Timestamp};

verus! {

/// One trading day of the exchange calendar. Dates are `YYYY-MM-DD`; `open`
/// and `close` are `HH:MM`; `session_open` and `session_close`, the extended
/// session, are `HHMM`.
pub struct Calendar {
    pub date: String,
    pub open: String,
    pub close: String,
    pub session_open: String,
    pub session_close: String,
    pub settlement_date: String,
}

/// One OHLCV sample. Prices are in millionths of the quote currency; a field
/// that the service sent in a form that is not a non-negative number is `None`.
pub struct Bar {
    pub t: Timestamp,
    pub o: Option<u64>,
    pub h: Option<u64>,
    pub l: Option<u64>,
    pub c: Option<u64>,
    pub v: Option<u64>,
}

/// The body of an error reply from the service.
pub struct ErrorResponse {
    pub message: String,
}

/// The bars of one reply, most recent first.
pub struct BarResponse {
    bars: Vec<Bar>,
}

impl BarResponse {
    pub fn new(bars: Vec<Bar>) -> (r: BarResponse)
        ensures
            r.bars() == bars@,
    {
        BarResponse { bars }
    }

    pub closed spec fn bars(&self) -> Seq<Bar> {
        self.bars@
    }

    pub fn get_bars(&self) -> (r: &Vec<Bar>)
        ensures
            r@ == self.bars(),
    {
        &self.bars
    }
}

/// Why a bar request was not sent.
#[derive(Clone, Copy, Debug, PartialEq, Eq, Structural)]
pub enum BarQueryError {
    StartNotBeforeEnd,
    LimitTooLarge,
    LimitNotPositive,
    EmptyTicker,
    EmptyTimeframe,
}

/// The most bars one request may ask for.
pub const MAX_BAR_LIMIT: i64 = 10000;

/// The first rule that a bar request breaks, checked in this order: the window
/// must end after it starts, the limit must lie in `1..=MAX_BAR_LIMIT`, and the
/// ticker and timeframe must not be empty.
pub open spec fn bar_query_error(
    ticker: Seq<char>,
    timeframe: Seq<char>,
    start: Timestamp,
    end: Timestamp,
    limit: i64,
) -> Option<BarQueryError> {
    if !(start.seconds < end.seconds) {
        Some(BarQueryError::StartNotBeforeEnd)
    } else if limit > MAX_BAR_LIMIT {
        Some(BarQueryError::LimitTooLarge)
    } else if limit <= 0 {
        Some(BarQueryError::LimitNotPositive)
    } else if ticker.len() == 0 {
        Some(BarQueryError::EmptyTicker)
    } else if timeframe.len() == 0 {
        Some(BarQueryError::EmptyTimeframe)
    } else {
        None
    }
}

/// Checks a bar request before it is sent.
pub fn check_bar_query(ticker: &str, timeframe: &str, start: Timestamp, end: Timestamp, limit: i64) -> (r:
    Result<(), BarQueryError>)
    ensures
        r is Ok <==> bar_query_error(ticker@, timeframe@, start, end, limit) is None,
        r is Err ==> Some(r->Err_0) == bar_query_error(ticker@, timeframe@, start, end, limit),
{
    if !(start.seconds < end.seconds) {
        Err(BarQueryError::StartNotBeforeEnd)
    } else if limit > MAX_BAR_LIMIT {
        Err(BarQueryError::LimitTooLarge)
    } else if limit <= 0 {
        Err(BarQueryError::LimitNotPositive)
    } else if ticker.unicode_len() == 0 {
        Err(BarQueryError::EmptyTicker)
    } else if timeframe.unicode_len() == 0 {
        Err(BarQueryError::EmptyTimeframe)
    } else {
        Ok(())
    }
}

/// Whether a calendar request covers a non-empty window.
pub fn check_calendar_range(start: Timestamp, end: Timestamp) -> (r: bool)
    ensures
        r == (start.seconds < end.seconds),
{
    start.seconds < end.seconds
}

/// The service lists oldest first; the scanner reads most recent first.
pub fn most_recent_first<T>(items: Vec<T>) -> (r: Vec<T>)
    ensures
        r@ == items@.reverse(),
{
    let mut items = items;
    let ghost s = items@;
    let mut r: Vec<T> = Vec::new();
    while items.len() > 0
        invariant
            r@.len() <= s.len(),
            items@ == s.take(s.len() - r@.len()),
            forall|i: int| 0 <= i < r@.len() ==> r@[i] == s[s.len() - 1 - i],
        decreases items.len(),
    {
        let x = items.pop().unwrap();
        r.push(x);
        proof {
            assert(items@ =~= s.take(s.len() - r@.len()));
        }
    }
    proof {
        assert(r@ =~= s.reverse());
    }
    r
}

/// How many past trading days the baseline is averaged over.
pub const REFERENCE_DAYS: usize = 17;

/// Splits a calendar, most recent day first, into the day being analysed (the
/// most recent) and the `REFERENCE_DAYS` days before it; `None` when the
/// calendar is shorter than that.
pub fn split_calendar(days: Vec<Calendar>) -> (r: Option<(Calendar, Vec<Calendar>)>)
    ensures
        r is Some <==> days@.len() > REFERENCE_DAYS,
        r is Some ==> r->Some_0.0 == days@[0] && r->Some_0.1@ == days@.subrange(
            1,
            REFERENCE_DAYS as int + 1,
        ),
{
    if days.len() <= REFERENCE_DAYS {
        return None;
    }
    let ghost all = days@;
    let mut days = days;
    days.truncate(REFERENCE_DAYS + 1);
    let analysis_day = days.remove(0);
    proof {
        assert(days@ =~= all.subrange(1, REFERENCE_DAYS as int + 1));
    }
    Some((analysis_day, days))
}

/// The New York instant at which an extended-session time written `HHMM`
/// falls on local day `day`.
pub open spec fn session_time(day: int, hhmm: Seq<char>) -> Option<Timestamp> {
    if hhmm.len() >= 2 {
        new_york_time(day, with_colon(hhmm))
    } else {
        None
    }
}

/// The extended session of a calendar day, as New York instants on local day
/// `day`: from `session_open` to `session_close`. `None` where either cannot be
/// read.
pub fn session_window(calendar: &Calendar, day: i64) -> (r: Option<(Timestamp, Timestamp)>)
    ensures
        r is Some <==> session_time(day as int, calendar.session_open@) is Some && session_time(
            day as int,
            calendar.session_close@,
        ) is Some,
        r is Some ==> r->Some_0.0 == session_time(day as int, calendar.session_open@)->Some_0
            && r->Some_0.1 == session_time(day as int, calendar.session_close@)->Some_0,
{
    let open = match session_clock(calendar.session_open.as_str()) {
        Some(clock) => clock,
        None => return None,
    };
    let close = match session_clock(calendar.session_close.as_str()) {
        Some(clock) => clock,
        None => return None,
    };
    let start = match time_in_new_york(day, open.as_str()) {
        Some(t) => t,
        None => return None,
    };
    let end = match time_in_new_york(day, close.as_str()) {
        Some(t) => t,
        None => return None,
    };
    Some((start, end))
}

} // verus!
