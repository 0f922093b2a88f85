//! Relative volume: how much a symbol has traded in the current session against
//! what it traded, on average, by the same time of day over recent days.

use vstd::prelude::*;

use crate::alpaca::Bar;
use crate::clock::{hour_of, minute_of, Timestamp};
use crate::ranking::{upserted, upserted_all, well_ranked, Analysis};

verus! {

/// A symbol whose mean volume by the cutoff is below this is never scored: its
/// ratio would be large for want of trading, not for a burst of it.
pub const LIQUIDITY_FLOOR: u64 = 1000;

/// The bar started at or before `hour:minute` on its own clock.
///
/// The bar is read at its own offset while the cutoff (see `cutoff_hour`) is
/// the UTC time now; the two agree only for bars stamped in UTC, as the
/// market-data service stamps them.
pub open spec fn at_or_before(b: Bar, hour: int, minute: int) -> bool {
    hour_of(b.t) < hour || (hour_of(b.t) == hour && minute_of(b.t) <= minute)
}

/// The volume a bar contributes: nothing where its volume did not parse.
pub open spec fn volume_of(b: Bar) -> int {
    match b.v {
        Some(v) => v as int,
        None => 0,
    }
}

/// Total volume of the bars.
pub open spec fn session_volume(bars: Seq<Bar>) -> int
    decreases bars.len(),
{
    if bars.len() == 0 {
        0
    } else {
        session_volume(bars.drop_last()) + volume_of(bars.last())
    }
}

/// Total volume of the bars that started at or before `hour:minute`.
pub open spec fn cutoff_volume(bars: Seq<Bar>, hour: int, minute: int) -> int
    decreases bars.len(),
{
    if bars.len() == 0 {
        0
    } else {
        cutoff_volume(bars.drop_last(), hour, minute) + if at_or_before(bars.last(), hour, minute) {
            volume_of(bars.last())
        } else {
            0
        }
    }
}

/// Sum over the reference days that could be read (`Some`) of their volume by
/// the cutoff.
pub open spec fn reference_total(days: Seq<Option<Vec<Bar>>>, hour: int, minute: int) -> int
    decreases days.len(),
{
    if days.len() == 0 {
        0
    } else {
        reference_total(days.drop_last(), hour, minute) + match days.last() {
            Some(bars) => cutoff_volume(bars@, hour, minute),
            None => 0,
        }
    }
}

/// How many reference days could be read.
pub open spec fn reference_count(days: Seq<Option<Vec<Bar>>>) -> int
    decreases days.len(),
{
    if days.len() == 0 {
        0
    } else {
        reference_count(days.drop_last()) + if days.last() is Some {
            1int
        } else {
            0
        }
    }
}

/// The cutoff's hour: the UTC hour of `now`.
///
/// This is the wall-clock time of the scan whatever day is analysed, so the
/// cutoff matches "volume traded so far" only when the scan runs intraday on
/// the analysed day; the elapsed time since that day's session open would be
/// the comparable measure on other days.
pub open spec fn cutoff_hour(now: Timestamp) -> int {
    hour_of(Timestamp { seconds: now.seconds, offset: 0 })
}

/// The cutoff's minute: the UTC minute of `now`.
pub open spec fn cutoff_minute(now: Timestamp) -> int {
    minute_of(Timestamp { seconds: now.seconds, offset: 0 })
}

/// Price change from `first` to `last` relative to `first`, in hundredths of a
/// percent, rounded toward zero; zero where a price is missing or `first` is zero.
pub open spec fn change_basis_points(first: Option<u64>, last: Option<u64>) -> int {
    if first is Some && last is Some && first->Some_0 > 0 {
        let f = first->Some_0 as int;
        let l = last->Some_0 as int;
        if f >= l {
            (f - l) * 10000 / f
        } else {
            -((l - f) * 10000 / f)
        }
    } else {
        0
    }
}

/// The session's price change: from the close of its first bar to the close of
/// its last.
pub open spec fn session_change(bars: Seq<Bar>) -> int {
    change_basis_points(bars[0].c, bars.last().c)
}

/// Whether a symbol is scored, given its reference days, the time now and the
/// current session's bars: some reference day was read, the totals fit in 64
/// bits, the mean by the cutoff clears `LIQUIDITY_FLOOR`, and the session has
/// bars and volume.
pub open spec fn scored(days: Seq<Option<Vec<Bar>>>, now: Timestamp, bars: Seq<Bar>) -> bool {
    let total = reference_total(days, cutoff_hour(now), cutoff_minute(now));
    let count = reference_count(days);
    &&& count > 0
    &&& total <= u64::MAX
    &&& total / count >= LIQUIDITY_FLOOR
    &&& bars.len() > 0
    &&& 0 < session_volume(bars) <= u64::MAX
}

/// Every entry clears the liquidity floor.
pub open spec fn all_liquid(s: Seq<Analysis>) -> bool {
    forall|i: int| 0 <= i < s.len() ==> #[trigger] s[i].average_dvat >= LIQUIDITY_FLOOR
}

proof fn lemma_cutoff_volume_nonneg(bars: Seq<Bar>, hour: int, minute: int)
    ensures
        cutoff_volume(bars, hour, minute) >= 0,
    decreases bars.len(),
{
    if bars.len() > 0 {
        lemma_cutoff_volume_nonneg(bars.drop_last(), hour, minute);
    }
}

proof fn lemma_reference_total_grows(days: Seq<Option<Vec<Bar>>>, i: int, hour: int, minute: int)
    requires
        0 <= i <= days.len(),
    ensures
        reference_total(days.take(i), hour, minute) <= reference_total(days, hour, minute),
    decreases days.len() - i,
{
    if i < days.len() {
        lemma_reference_total_grows(days, i + 1, hour, minute);
        let t = days.take(i + 1);
        assert(t.drop_last() =~= days.take(i));
        if let Some(bars) = t.last() {
            lemma_cutoff_volume_nonneg(bars@, hour, minute);
        }
        assert(days.take(days.len() as int) =~= days);
    } else {
        assert(days.take(i) =~= days);
    }
}

/// The volume by the cutoff counts exactly the bars that started at or before
/// it: it is the total volume of those bars, and no later bar adds to it.
pub proof fn lemma_cutoff_counts_only_earlier(bars: Seq<Bar>, hour: int, minute: int)
    ensures
        cutoff_volume(bars, hour, minute) == session_volume(
            bars.filter(|b: Bar| at_or_before(b, hour, minute)),
        ),
    decreases bars.len(),
{
    let p = |b: Bar| at_or_before(b, hour, minute);
    if bars.len() == 0 {
        reveal(Seq::filter);
    } else {
        lemma_cutoff_counts_only_earlier(bars.drop_last(), hour, minute);
        let sub = bars.drop_last().filter(p);
        reveal(Seq::filter);
        assert(bars.filter(p) == if p(bars.last()) {
            sub.push(bars.last())
        } else {
            sub
        });
        if p(bars.last()) {
            let grown = sub.push(bars.last());
            assert(grown.drop_last() =~= sub);
            assert(grown.last() == bars.last());
            assert(session_volume(grown) == session_volume(sub) + volume_of(bars.last()));
        }
    }
}

/// An analysis always clears the liquidity floor, so a leaderboard built only
/// from analyses never holds a symbol whose mean volume is below it, whatever
/// the symbol trades in the current session.
pub proof fn lemma_floor_kept(s: Seq<Analysis>, items: Seq<Analysis>, capacity: nat)
    requires
        well_ranked(s, capacity),
        all_liquid(s),
        forall|i: int| 0 <= i < items.len() ==> #[trigger] items[i].average_dvat >= LIQUIDITY_FLOOR,
    ensures
        all_liquid(upserted_all(s, items, capacity)),
    decreases items.len(),
{
    if items.len() > 0 {
        let a = items[0];
        crate::ranking::lemma_upsert_well_ranked(s, a, capacity);
        let t = upserted(s, a, capacity);
        crate::ranking::lemma_upsert_keeps_floor(s, a, capacity, LIQUIDITY_FLOOR);
        assert forall|i: int| 0 <= i < items.drop_first().len() implies
            #[trigger] items.drop_first()[i].average_dvat >= LIQUIDITY_FLOOR by {
            assert(items.drop_first()[i] == items[i + 1]);
        }
        lemma_floor_kept(t, items.drop_first(), capacity);
    }
}

/// Total volume of the bars.
pub fn sum_session_volume(bars: &Vec<Bar>) -> (r: u128)
    ensures
        r == session_volume(bars@),
{
    let mut acc: u128 = 0;
    let mut i: usize = 0;
    while i < bars.len()
        invariant
            i <= bars@.len(),
            acc == session_volume(bars@.take(i as int)),
            acc <= i * (u64::MAX as int),
        decreases bars@.len() - i,
    {
        if let Some(v) = bars[i].v {
            acc = acc + v as u128;
        }
        proof {
            assert(bars@.take(i + 1).drop_last() =~= bars@.take(i as int));
        }
        i += 1;
    }
    proof {
        assert(bars@.take(i as int) =~= bars@);
    }
    acc
}

/// Total volume of the bars that started at or before `hour:minute`.
pub fn sum_cutoff_volume(bars: &Vec<Bar>, hour: u32, minute: u32) -> (r: u128)
    ensures
        r == cutoff_volume(bars@, hour as int, minute as int),
{
    let mut acc: u128 = 0;
    let mut i: usize = 0;
    while i < bars.len()
        invariant
            i <= bars@.len(),
            acc == cutoff_volume(bars@.take(i as int), hour as int, minute as int),
            acc <= i * (u64::MAX as int),
        decreases bars@.len() - i,
    {
        let bar_hour = bars[i].t.hour();
        let bar_minute = bars[i].t.minute();
        if bar_hour < hour || (bar_hour == hour && bar_minute <= minute) {
            if let Some(v) = bars[i].v {
                acc = acc + v as u128;
            }
        }
        proof {
            assert(bars@.take(i + 1).drop_last() =~= bars@.take(i as int));
        }
        i += 1;
    }
    proof {
        assert(bars@.take(i as int) =~= bars@);
    }
    acc
}

/// The reference days' volume by the cutoff, summed over the days that could
/// be read, with the number of those days; `None` when the sum does not fit in
/// 64 bits.
pub fn reference_volume(days: &Vec<Option<Vec<Bar>>>, hour: u32, minute: u32) -> (r: Option<(u64, usize)>)
    ensures
        r is Some <==> reference_total(days@, hour as int, minute as int) <= u64::MAX,
        r is Some ==> r->Some_0.0 == reference_total(days@, hour as int, minute as int)
            && r->Some_0.1 == reference_count(days@),
{
    let mut total: u64 = 0;
    let mut count: usize = 0;
    let mut i: usize = 0;
    while i < days.len()
        invariant
            i <= days@.len(),
            total == reference_total(days@.take(i as int), hour as int, minute as int),
            count == reference_count(days@.take(i as int)),
            count <= i,
        decreases days@.len() - i,
    {
        proof {
            assert(days@.take(i + 1).drop_last() =~= days@.take(i as int));
        }
        if let Some(bars) = &days[i] {
            let v = sum_cutoff_volume(bars, hour, minute);
            if v > (u64::MAX - total) as u128 {
                proof {
                    lemma_reference_total_grows(days@, i + 1, hour as int, minute as int);
                }
                return None;
            }
            total = total + v as u64;
            count = count + 1;
        }
        i += 1;
    }
    proof {
        assert(days@.take(i as int) =~= days@);
    }
    Some((total, count))
}

/// Price change from `first` to `last` relative to `first`, in hundredths of a
/// percent: see `change_basis_points`.
pub fn price_change(first: Option<u64>, last: Option<u64>) -> (r: i128)
    ensures
        r == change_basis_points(first, last),
{
    match (first, last) {
        (Some(f), Some(l)) => {
            if f == 0 {
                0
            } else if f >= l {
                proof {
                    vstd::arithmetic::div_mod::lemma_div_is_ordered_by_denominator(
                        (f - l) * 10000,
                        1,
                        f as int,
                    );
                }
                (((f - l) as u128 * 10000) / f as u128) as i128
            } else {
                proof {
                    vstd::arithmetic::div_mod::lemma_div_is_ordered_by_denominator(
                        (l - f) * 10000,
                        1,
                        f as int,
                    );
                }
                -((((l - f) as u128 * 10000) / f as u128) as i128)
            }
        },
        _ => 0,
    }
}

/// Scores one symbol, or says it is skipped (`None`: see `scored`).
///
/// `reference_days` holds one entry per reference day: its bars, or `None`
/// where they could not be read. The cutoff is the UTC time of day of `now`.
/// `session_bars` are the current session's bars. The analysis gets the mean
/// volume by the cutoff, rounded down, the session's volume, the ratio of the
/// session's volume to the exact mean (`volume * count / total`) in
/// thousandths, rounded down, the session's price change, and `now` as its
/// first-seen time.
pub fn analyze(symbol: String, reference_days: &Vec<Option<Vec<Bar>>>, now: Timestamp, session_bars: &Vec<Bar>) -> (r:
    Option<Analysis>)
    ensures
        r is Some <==> scored(reference_days@, now, session_bars@),
        r is Some ==> ({
            let a = r->Some_0;
            let total = reference_total(reference_days@, cutoff_hour(now), cutoff_minute(now));
            let count = reference_count(reference_days@);
            let volume = session_volume(session_bars@);
            &&& a.symbol@ == symbol@
            &&& a.average_dvat == total / count
            &&& a.analysis_dvat == volume
            &&& a.score_milli == volume * 1000 * count / total
            &&& a.pnl_basis_points == session_change(session_bars@)
            &&& a.created_at == now
            &&& a.average_dvat >= LIQUIDITY_FLOOR
        }),
{
    let utc = Timestamp::utc(now.seconds);
    let hour = utc.hour();
    let minute = utc.minute();
    let (total, count) = match reference_volume(reference_days, hour, minute) {
        Some(found) => found,
        None => return None,
    };
    if count == 0 {
        return None;
    }
    let average: u64 = total / (count as u64);
    if average < LIQUIDITY_FLOOR {
        return None;
    }
    if session_bars.len() == 0 {
        return None;
    }
    let volume = sum_session_volume(session_bars);
    if volume == 0 || volume > u64::MAX as u128 {
        return None;
    }
    let volume = volume as u64;
    proof {
        let t = total as int;
        let c = count as int;
        vstd::arithmetic::div_mod::lemma_fundamental_div_mod(t, c);
        assert(c * (t / c) >= c * 1000) by (nonlinear_arith)
            requires
                t / c >= 1000,
                c > 0,
        ;
        assert(volume * (1000 * c) <= (u64::MAX as int) * t) by (nonlinear_arith)
            requires
                0 <= volume <= u64::MAX,
                0 <= 1000 * c <= t,
        ;
        assert((u64::MAX as int) * t <= (u64::MAX as int) * (u64::MAX as int)) by (nonlinear_arith)
            requires
                0 <= t <= u64::MAX,
        ;
        vstd::arithmetic::div_mod::lemma_div_is_ordered_by_denominator(volume * (1000 * c), 1000 * c, t);
        vstd::arithmetic::div_mod::lemma_div_by_multiple(volume as int, 1000 * c);
        assert(volume * 1000 * c == volume * (1000 * c)) by (nonlinear_arith);
    }
    let score = (volume as u128 * (1000 * count as u128)) / total as u128;
    let first = session_bars[0].c;
    let last = session_bars[session_bars.len() - 1].c;
    let pnl = price_change(first, last);
    Some(
        Analysis {
            symbol,
            average_dvat: average,
            analysis_dvat: volume,
            score_milli: score as u64,
            pnl_basis_points: pnl,
            created_at: now,
        },
    )
}

/// Where the bars of one symbol on one date are cached: a folder per symbol,
/// a JSON file per date.
pub open spec fn cache_file_path(symbol: Seq<char>, date: Seq<char>) -> Seq<char> {
    "cache/"@ + symbol + "/"@ + date + ".json"@
}

/// See `cache_file_path`.
pub fn cache_file(symbol: &str, date: &str) -> (r: String)
    ensures
        r@ == cache_file_path(symbol@, date@),
{
    proof {
        reveal_strlit("cache/");
        reveal_strlit("/");
        reveal_strlit(".json");
    }
    let mut r = String::from_str("cache/");
    r.append(symbol);
    r.append("/");
    r.append(date);
    r.append(".json");
    r
}

} // verus!
