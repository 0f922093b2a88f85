//! Instants with a fixed UTC offset, and the wall-clock arithmetic on them.

use chrono::{LocalResult, Offset, TimeZone, Timelike};
use vstd::prelude::*;

verus! {

/// Seconds in one civil day.
pub const SECONDS_PER_DAY: i64 = 86400;

/// A multiple of a day larger than any local second count, so that shifting by
/// it makes every count non-negative without moving its time of day.
const DAY_SHIFT: u128 = 18446744073709612800;

/// An instant together with the UTC offset it is displayed in.
///
/// `seconds` counts seconds since 1970-01-01T00:00:00Z; `offset` is the
/// displayed zone's offset east of UTC, in seconds.
#[derive(Clone, Copy, Debug, PartialEq, Eq, Structural)]
pub struct Timestamp {
    pub seconds: i64,
    pub offset: i32,
}

/// Seconds since the epoch on the local clock.
pub open spec fn local_seconds(t: Timestamp) -> int {
    t.seconds + t.offset
}

/// Seconds elapsed since local midnight.
pub open spec fn second_of_day(t: Timestamp) -> int {
    local_seconds(t) % (SECONDS_PER_DAY as int)
}

/// The local hour, 0 to 23.
pub open spec fn hour_of(t: Timestamp) -> int {
    second_of_day(t) / 3600
}

/// The local minute within the hour, 0 to 59.
pub open spec fn minute_of(t: Timestamp) -> int {
    (second_of_day(t) % 3600) / 60
}

impl Timestamp {
    /// The same instant shown in UTC.
    pub fn utc(seconds: i64) -> (r: Timestamp)
        ensures
            r.seconds == seconds,
            r.offset == 0,
    {
        Timestamp { seconds, offset: 0 }
    }

    /// Seconds elapsed since local midnight.
    pub fn second_of_day(&self) -> (r: u32)
        ensures
            r == second_of_day(*self),
            r < 86400,
    {
        let shifted: u128 = (self.seconds as i128 + self.offset as i128 + DAY_SHIFT as i128) as u128;
        proof {
            let l = local_seconds(*self);
            assert(DAY_SHIFT as int == 213503982334602 * 86400);
            vstd::arithmetic::div_mod::lemma_mod_multiples_vanish(213503982334602, l, 86400);
        }
        (shifted % 86400) as u32
    }

    /// The local hour, 0 to 23.
    pub fn hour(&self) -> (r: u32)
        ensures
            r == hour_of(*self),
            r < 24,
    {
        self.second_of_day() / 3600
    }

    /// The local minute within the hour, 0 to 59.
    pub fn minute(&self) -> (r: u32)
        ensures
            r == minute_of(*self),
            r < 60,
    {
        (self.second_of_day() % 3600) / 60
    }
}

/// The earliest local day, counted from 1970-01-01, that clock times are
/// placed on: 0001-01-02.
pub const FIRST_DAY: i64 = -719161;

/// The latest local day, counted from 1970-01-01, that clock times are placed
/// on: 9999-12-29.
pub const LAST_DAY: i64 = 2932894;

/// What chrono's `NaiveTime::parse_from_str(s, "%H:%M")` reads from `s`: the
/// hour and minute, or `None` where `s` is not such a time.
pub uninterp spec fn clock_of(s: Seq<char>) -> Option<(u32, u32)>;

/// The offsets east of UTC, in seconds, that New York's clock may be on when
/// it shows the local time `local_seconds` (seconds since the epoch on the
/// local clock), as chrono-tz's tables give them: the same offset twice where
/// that time occurs once, the earlier and the later offset where the clock is
/// set back and it occurs twice, and `None` where the clock is set forward and
/// it does not occur.
pub uninterp spec fn new_york_offsets_at(local_seconds: int) -> Option<(i32, i32)>;

/// Relies on chrono's `NaiveTime::parse_from_str` with the format `%H:%M`,
/// and on its `hour` (below 24) and `minute` (below 60).
#[verifier::external_body]
fn parse_clock(s: &str) -> (r: Option<(u32, u32)>)
    ensures
        r == clock_of(s@),
        r matches Some((h, m)) ==> h < 24 && m < 60,
{
    match chrono::NaiveTime::parse_from_str(s, "%H:%M") {
        Ok(t) => Some((t.hour(), t.minute())),
        Err(_) => None,
    }
}

/// Relies on chrono-tz's `America::New_York` zone, through chrono's
/// `TimeZone::offset_from_local_datetime` (its `LocalResult` lists the offsets,
/// earliest first) and `FixedOffset::local_minus_utc`, which is always less than
/// a day in size. The bounds keep the time within chrono's
/// `DateTime::from_timestamp`.
#[verifier::external_body]
fn new_york_local_offsets(local_seconds: i64) -> (r: Option<(i32, i32)>)
    requires
        FIRST_DAY * SECONDS_PER_DAY <= local_seconds <= (LAST_DAY + 1) * SECONDS_PER_DAY,
    ensures
        r == new_york_offsets_at(local_seconds as int),
        r matches Some((a, b)) ==> -86400 < a < 86400 && -86400 < b < 86400,
{
    let local = chrono::DateTime::from_timestamp(local_seconds, 0).unwrap().naive_utc();
    match chrono_tz::America::New_York.offset_from_local_datetime(&local) {
        LocalResult::Single(o) => Some((o.fix().local_minus_utc(), o.fix().local_minus_utc())),
        LocalResult::Ambiguous(a, b) => Some((a.fix().local_minus_utc(), b.fix().local_minus_utc())),
        LocalResult::None => None,
    }
}

/// Local seconds since the epoch of `hour:minute` on local day `day`.
pub open spec fn naive_seconds(day: int, hour: int, minute: int) -> int {
    day * SECONDS_PER_DAY + hour * 3600 + minute * 60
}

/// The instant at which a clock showing `naive` local seconds, at the given
/// offset, reads that time.
pub open spec fn zoned(naive: int, offset: int) -> Timestamp {
    Timestamp { seconds: (naive - offset) as i64, offset: offset as i32 }
}

/// `hour:minute` on local day `day`, on a clock `offset` seconds east of UTC.
pub fn zoned_at(day: i64, hour: u32, minute: u32, offset: i32) -> (r: Timestamp)
    requires
        FIRST_DAY <= day <= LAST_DAY,
        hour < 24,
        minute < 60,
        -86400 < offset < 86400,
    ensures
        r == zoned(naive_seconds(day as int, hour as int, minute as int), offset as int),
{
    let naive: i64 = day * SECONDS_PER_DAY + hour as i64 * 3600 + minute as i64 * 60;
    Timestamp { seconds: naive - offset as i64, offset }
}

/// The instant at which New York's clock shows `hour_minute` (`HH:MM`, as
/// chrono reads `%H:%M`) on local day `day`, counted from 1970-01-01, with the
/// offset in force then, daylight saving included. Where the clock is set back
/// and the time occurs twice, the earlier. `None` where `hour_minute` is not
/// such a time, the time does not occur that day, or `day` lies outside
/// `FIRST_DAY..=LAST_DAY`.
pub open spec fn new_york_time(day: int, hour_minute: Seq<char>) -> Option<Timestamp> {
    if FIRST_DAY <= day <= LAST_DAY && clock_of(hour_minute) is Some {
        let (h, m) = clock_of(hour_minute)->Some_0;
        let naive = naive_seconds(day, h as int, m as int);
        match new_york_offsets_at(naive) {
            Some((earlier, _)) => Some(zoned(naive, earlier as int)),
            None => None,
        }
    } else {
        None
    }
}

/// See `new_york_time`.
pub fn time_in_new_york(day: i64, hour_minute: &str) -> (r: Option<Timestamp>)
    ensures
        r == new_york_time(day as int, hour_minute@),
{
    if day < FIRST_DAY || day > LAST_DAY {
        return None;
    }
    let (hour, minute) = match parse_clock(hour_minute) {
        Some(clock) => clock,
        None => return None,
    };
    let naive: i64 = day * SECONDS_PER_DAY + hour as i64 * 3600 + minute as i64 * 60;
    match new_york_local_offsets(naive) {
        Some((earlier, _)) => Some(zoned_at(day, hour, minute, earlier)),
        None => None,
    }
}

/// `s` with a colon after its first two characters.
pub open spec fn with_colon(s: Seq<char>) -> Seq<char> {
    s.take(2) + seq![':'] + s.skip(2)
}

/// An extended-session time as the calendar writes it, `HHMM`, in the form
/// `HH:MM` (see `with_colon`). `None` where there are fewer than two characters.
pub fn session_clock(hhmm: &str) -> (r: Option<String>)
    ensures
        r is Some <==> hhmm@.len() >= 2,
        r is Some ==> r->Some_0@ == with_colon(hhmm@),
{
    let len = hhmm.unicode_len();
    if len < 2 {
        return None;
    }
    let mut r = String::from_str(hhmm.substring_char(0, 2));
    proof {
        reveal_strlit(":");
    }
    r.append(":");
    r.append(hhmm.substring_char(2, len));
    proof {
        assert(r@ =~= hhmm@.take(2) + seq![':'] + hhmm@.skip(2));
    }
    Some(r)
}

} // verus!
