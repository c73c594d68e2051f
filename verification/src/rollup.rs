//! Daily rollups: a single ordered walk over one day's break records
//! produces the day's statistics, which are cached keyed by date, and any
//! date range reads back as exactly one entry per calendar day, zero-filled
//! where nothing is cached.  A calendar day is the local day: its
//! millisecond window is shifted by the time zone's offset from UTC.

use vstd::prelude::*;
use crate::date::Date;
use crate::date::from_day_number;
use crate::date::days_before_year;
use crate::date::lemma_day_number_range;
use crate::date::parse_date;
use crate::date::spec_day_number;
use crate::date::spec_parse_date;
use crate::date::ValidationError;
use crate::state::BreakRecord;
use crate::state::DailyStats;
use crate::store::BreakStore;
use crate::store::cache_sorted;
use crate::store::cache_upserted;

verus! {

/// Clamp of an unbounded tally into a stored 32-bit counter.
pub open spec fn sat32(n: int) -> u32 {
    if n >= u32::MAX {
        u32::MAX
    } else if n <= 0 {
        0u32
    } else {
        n as u32
    }
}

/// First millisecond (as UTC time) of the calendar day in a zone
/// `tz_offset_seconds` east of UTC; negative when the local day begins
/// before the epoch.
pub open spec fn spec_day_window_start(d: Date, tz_offset_seconds: int) -> int {
    spec_day_number(d) * 86400000 - tz_offset_seconds * 1000
}

/// Last millisecond of that local calendar day.
pub open spec fn spec_day_window_end(d: Date, tz_offset_seconds: int) -> int {
    spec_day_window_start(d, tz_offset_seconds) + 86399999
}

/// Whether a record's start falls within the local calendar day.
pub open spec fn in_day(r: BreakRecord, d: Date, tz_offset_seconds: int) -> bool {
    spec_day_window_start(d, tz_offset_seconds) <= r.started_at <= spec_day_window_end(
        d,
        tz_offset_seconds,
    )
}

/// The day's window as unsigned bounds: the start clamped up to zero (no
/// record timestamp is negative), the end exact.
fn day_window(date: &Date, tz_offset_seconds: i32) -> (w: (u64, u64))
    requires
        date.valid(),
        -86400 < tz_offset_seconds < 86400,
    ensures
        w.0 == (if spec_day_window_start(*date, tz_offset_seconds as int) <= 0 {
            0int
        } else {
            spec_day_window_start(*date, tz_offset_seconds as int)
        }),
        w.1 == spec_day_window_end(*date, tz_offset_seconds as int),
{
    proof {
        lemma_day_number_range(*date);
        days_bound();
    }
    let dn = date.day_number();
    let start_i: i64 = dn as i64 * 86400000 - tz_offset_seconds as i64 * 1000;
    let end_i: i64 = start_i + 86399999;
    let start_u: u64 = if start_i <= 0 {
        0
    } else {
        start_i as u64
    };
    (start_u, end_i as u64)
}

proof fn days_bound()
    ensures
        days_before_year(10000) <= 2938980,
{
    crate::date::lemma_days_before_year_bound(10000);
}

/// The running totals of one walk over a day's records.
pub struct DayTally {
    pub completed: int,
    pub skipped: int,
    pub rest: int,
    pub longest: int,
    pub current: int,
}

/// One ordered walk over the records, keeping only those inside the day:
/// a completed break counts toward the totals and extends the run of
/// consecutive completions; a skipped break counts as skipped and breaks the
/// run; a record still in progress counts toward nothing but also breaks
/// the run.
pub open spec fn spec_day_tally(rs: Seq<BreakRecord>, d: Date, tz_offset_seconds: int) -> DayTally
    decreases rs.len(),
{
    if rs.len() == 0 {
        DayTally { completed: 0, skipped: 0, rest: 0, longest: 0, current: 0 }
    } else {
        let t = spec_day_tally(rs.drop_last(), d, tz_offset_seconds);
        let r = rs.last();
        if !in_day(r, d, tz_offset_seconds) {
            t
        } else if r.completed && !r.skipped {
            let c = t.current + 1;
            DayTally {
                completed: t.completed + 1,
                skipped: t.skipped,
                rest: t.rest + r.duration_seconds,
                longest: if c > t.longest {
                    c
                } else {
                    t.longest
                },
                current: c,
            }
        } else if r.skipped {
            DayTally {
                completed: t.completed,
                skipped: t.skipped + 1,
                rest: t.rest,
                longest: t.longest,
                current: 0,
            }
        } else {
            DayTally {
                completed: t.completed,
                skipped: t.skipped,
                rest: t.rest,
                longest: t.longest,
                current: 0,
            }
        }
    }
}

/// The rollup a day's records produce.
pub open spec fn spec_daily_stats(rs: Seq<BreakRecord>, d: Date, tz_offset_seconds: int) -> DailyStats {
    let t = spec_day_tally(rs, d, tz_offset_seconds);
    DailyStats {
        date: d,
        breaks_completed: sat32(t.completed),
        breaks_skipped: sat32(t.skipped),
        total_rest_seconds: sat32(t.rest),
        longest_streak: sat32(t.longest),
    }
}

/// Every tally component is bounded by the number of records walked, except
/// the rest seconds, which are bounded by that number times the largest
/// single duration.
proof fn lemma_day_tally_bounds(rs: Seq<BreakRecord>, d: Date, tz: int)
    ensures
        0 <= spec_day_tally(rs, d, tz).completed <= rs.len(),
        0 <= spec_day_tally(rs, d, tz).skipped <= rs.len(),
        0 <= spec_day_tally(rs, d, tz).current <= rs.len(),
        0 <= spec_day_tally(rs, d, tz).longest <= rs.len(),
        0 <= spec_day_tally(rs, d, tz).rest <= rs.len() * (u32::MAX as int),
    decreases rs.len(),
{
    if rs.len() > 0 {
        lemma_day_tally_bounds(rs.drop_last(), d, tz);
        assert((rs.len() - 1) * (u32::MAX as int) + u32::MAX as int == rs.len() * (
        u32::MAX as int)) by (nonlinear_arith);
    }
}

/// The single ordered walk that tallies one day's records.
fn compute_day_stats(store: &BreakStore, date: Date, tz_offset_seconds: i32) -> (stats: DailyStats)
    requires
        store.wf(),
        date.valid(),
        -86400 < tz_offset_seconds < 86400,
    ensures
        stats == spec_daily_stats(store.records_seq(), date, tz_offset_seconds as int),
{
    let window = day_window(&date, tz_offset_seconds);
    let start_ms = window.0;
    let end_ms = window.1;
    let records = store.records_all();
    let n = records.len();
    let mut completed: u64 = 0;
    let mut skipped: u64 = 0;
    let mut rest: u64 = 0;
    let mut longest: u64 = 0;
    let mut current: u64 = 0;
    let mut i: usize = 0;
    while i < n
        invariant
            n == records@.len(),
            records@ == store.records_seq(),
            0 <= i <= n,
            start_ms == (if spec_day_window_start(date, tz_offset_seconds as int) <= 0 {
                0int
            } else {
                spec_day_window_start(date, tz_offset_seconds as int)
            }),
            end_ms == spec_day_window_end(date, tz_offset_seconds as int),
            completed == spec_day_tally(records@.subrange(0, i as int), date, tz_offset_seconds as int).completed,
            skipped == spec_day_tally(records@.subrange(0, i as int), date, tz_offset_seconds as int).skipped,
            current == spec_day_tally(records@.subrange(0, i as int), date, tz_offset_seconds as int).current,
            longest == spec_day_tally(records@.subrange(0, i as int), date, tz_offset_seconds as int).longest,
            rest == ({
                let r = spec_day_tally(records@.subrange(0, i as int), date, tz_offset_seconds as int).rest;
                if r >= u64::MAX {
                    u64::MAX as int
                } else {
                    r
                }
            }),
            completed <= i,
            skipped <= i,
            current <= i,
            longest <= i,
        decreases n - i,
    {
        let r = records[i];
        proof {
            assert(records@.subrange(0, i + 1).drop_last() =~= records@.subrange(0, i as int));
            assert(records@.subrange(0, i + 1).last() == records@[i as int]);
            lemma_day_tally_bounds(records@.subrange(0, i as int), date, tz_offset_seconds as int);
        }
        if start_ms <= r.started_at && r.started_at <= end_ms {
            if r.completed && !r.skipped {
                completed = completed + 1;
                rest = rest.saturating_add(r.duration_seconds as u64);
                current = current + 1;
                if current > longest {
                    longest = current;
                }
            } else if r.skipped {
                skipped = skipped + 1;
                current = 0;
            } else {
                current = 0;
            }
        }
        i = i + 1;
    }
    proof {
        assert(records@.subrange(0, n as int) =~= records@);
    }
    let stats = DailyStats {
        date,
        breaks_completed: if completed >= u32::MAX as u64 {
            u32::MAX
        } else {
            completed as u32
        },
        breaks_skipped: if skipped >= u32::MAX as u64 {
            u32::MAX
        } else {
            skipped as u32
        },
        total_rest_seconds: if rest >= u32::MAX as u64 {
            u32::MAX
        } else {
            rest as u32
        },
        longest_streak: if longest >= u32::MAX as u64 {
            u32::MAX
        } else {
            longest as u32
        },
    };
    stats
}

/// Recomputes one day's statistics from the records and upserts them into
/// the cache.  The records themselves are never changed; the returned
/// rollup is exactly the walk the specification describes.
pub fn recompute_daily_stats(store: &mut BreakStore, date: Date, tz_offset_seconds: i32) -> (stats:
    DailyStats)
    requires
        old(store).wf(),
        date.valid(),
        -86400 < tz_offset_seconds < 86400,
    ensures
        final(store).wf(),
        stats == spec_daily_stats(old(store).records_seq(), date, tz_offset_seconds as int),
        final(store).records_seq() == old(store).records_seq(),
        final(store).settings_row() == old(store).settings_row(),
        cache_upserted(old(store).cache_seq(), final(store).cache_seq(), stats),
{
    let stats = compute_day_stats(store, date, tz_offset_seconds);
    store.upsert_daily_stats(stats);
    stats
}

/// Recomputing a day's rollup is idempotent: with no new records the
/// rollup is the same value again (it is a function of the records and the
/// day alone), and writing that same row a second time leaves the cache
/// exactly as the first write left it.
pub proof fn lemma_upsert_idempotent(
    c0: Seq<DailyStats>,
    c1: Seq<DailyStats>,
    c2: Seq<DailyStats>,
    s: DailyStats,
)
    requires
        cache_upserted(c0, c1, s),
        cache_upserted(c1, c2, s),
        cache_sorted(c1),
    ensures
        c2 == c1,
{
    let day = spec_day_number(s.date);
    let k1: int = if exists|k: int| 0 <= k < c0.len() && spec_day_number(c0[k].date) == day {
        let k = choose|k: int|
            0 <= k < c0.len() && spec_day_number(c0[k].date) == day && c1 == c0.update(k, s);
        k
    } else {
        let p = choose|p: int|
            {
                &&& 0 <= p <= c0.len()
                &&& c1 == c0.insert(p, s)
                &&& forall|j: int| 0 <= j < p ==> spec_day_number(c0[j].date) < day
                &&& forall|j: int| p <= j < c0.len() ==> spec_day_number(c0[j].date) > day
            };
        p
    };
    assert(0 <= k1 < c1.len() && c1[k1] == s);
    assert(exists|k: int| 0 <= k < c1.len() && spec_day_number(c1[k].date) == day);
    let k2 = choose|k: int|
        0 <= k < c1.len() && spec_day_number(c1[k].date) == day && c2 == c1.update(k, s);
    if k2 < k1 {
        assert(spec_day_number(c1[k2].date) < spec_day_number(c1[k1].date));
    } else if k2 > k1 {
        assert(spec_day_number(c1[k1].date) < spec_day_number(c1[k2].date));
    }
    assert(c2 =~= c1);
}

/// The cache row of a given day, if one is cached.
pub open spec fn spec_cache_lookup(cs: Seq<DailyStats>, day: int) -> Option<DailyStats>
    decreases cs.len(),
{
    if cs.len() == 0 {
        None
    } else if spec_day_number(cs[0].date) == day {
        Some(cs[0])
    } else {
        spec_cache_lookup(cs.drop_first(), day)
    }
}

/// What the lookup finds: the returned row is in the cache under that day,
/// and a miss means no row has that day.
pub proof fn lemma_cache_lookup_finds(cs: Seq<DailyStats>, day: int)
    ensures
        match spec_cache_lookup(cs, day) {
            Some(e) => exists|k: int|
                0 <= k < cs.len() && cs[k] == e && spec_day_number(#[trigger] cs[k].date) == day,
            None => forall|k: int| 0 <= k < cs.len() ==> spec_day_number(#[trigger] cs[k].date) != day,
        },
    decreases cs.len(),
{
    if cs.len() > 0 {
        if spec_day_number(cs[0].date) != day {
            lemma_cache_lookup_finds(cs.drop_first(), day);
            match spec_cache_lookup(cs.drop_first(), day) {
                Some(e) => {
                    let k = choose|k: int|
                        0 <= k < cs.drop_first().len() && cs.drop_first()[k] == e && spec_day_number(
                            cs.drop_first()[k].date,
                        ) == day;
                    assert(cs[k + 1] == e);
                    assert(spec_day_number(cs[k + 1].date) == day);
                },
                None => {
                    assert forall|k: int|
                        0 <= k < cs.len() implies spec_day_number(#[trigger] cs[k].date) != day by {
                        if k > 0 {
                            assert(cs.drop_first()[k - 1] == cs[k]);
                        }
                    }
                },
            }
        }
    }
}

fn cache_lookup_from(cache: &Vec<DailyStats>, day: u64, i: usize) -> (r: Option<DailyStats>)
    requires
        i <= cache@.len(),
        forall|k: int| 0 <= k < cache@.len() ==> (#[trigger] cache@[k].date).valid(),
    ensures
        r == spec_cache_lookup(cache@.subrange(i as int, cache@.len() as int), day as int),
    decreases cache@.len() - i,
{
    if i == cache.len() {
        None
    } else {
        let d = cache[i].date.day_number();
        proof {
            assert(cache@.subrange(i as int, cache@.len() as int)[0] == cache@[i as int]);
            assert(cache@.subrange(i as int, cache@.len() as int).drop_first() =~= cache@.subrange(
                i as int + 1,
                cache@.len() as int,
            ));
        }
        if d == day {
            Some(cache[i])
        } else {
            cache_lookup_from(cache, day, i + 1)
        }
    }
}

/// The cache row of a given day, if one is cached.
pub fn cache_lookup(store: &BreakStore, day: u64) -> (r: Option<DailyStats>)
    requires
        store.wf(),
    ensures
        r == spec_cache_lookup(store.cache_seq(), day as int),
{
    let cache = store.cache_all();
    proof {
        assert(cache@.subrange(0, cache@.len() as int) =~= cache@);
    }
    cache_lookup_from(cache, day, 0)
}

/// What a range read returns: one entry per calendar day from `from_day`
/// through `to_day` in ascending order, the cached row where one exists and
/// an all-zero row otherwise.
pub open spec fn range_result_ok(
    cs: Seq<DailyStats>,
    from_day: int,
    to_day: int,
    r: Seq<DailyStats>,
) -> bool {
    &&& r.len() == if from_day <= to_day {
        to_day - from_day + 1
    } else {
        0
    }
    &&& forall|i: int|
        0 <= i < r.len() ==> {
            let day = from_day + i;
            &&& (#[trigger] r[i]).date.valid()
            &&& spec_day_number(r[i].date) == day
            &&& match spec_cache_lookup(cs, day) {
                Some(e) => r[i] == e,
                None => r[i] == (DailyStats {
                    date: r[i].date,
                    breaks_completed: 0,
                    breaks_skipped: 0,
                    total_rest_seconds: 0,
                    longest_streak: 0,
                }),
            }
        }
}

/// Reads the rollups of every day from `from` through `to`, recomputing
/// `today` first when it falls inside the range, and zero-filling days with
/// no cached row.  The output holds exactly one entry per calendar day of
/// the range, in ascending order, however sparse the data.
pub fn daily_stats_range_on(
    store: &mut BreakStore,
    from: Date,
    to: Date,
    today: Date,
    tz_offset_seconds: i32,
) -> (r: Vec<DailyStats>)
    requires
        old(store).wf(),
        from.valid(),
        to.valid(),
        today.valid(),
        -86400 < tz_offset_seconds < 86400,
    ensures
        final(store).wf(),
        final(store).records_seq() == old(store).records_seq(),
        final(store).settings_row() == old(store).settings_row(),
        ({
            let today_in_range = spec_day_number(from) <= spec_day_number(today) <= spec_day_number(
                to,
            );
            if today_in_range {
                cache_upserted(
                    old(store).cache_seq(),
                    final(store).cache_seq(),
                    spec_daily_stats(old(store).records_seq(), today, tz_offset_seconds as int),
                )
            } else {
                final(store).cache_seq() == old(store).cache_seq()
            }
        }),
        range_result_ok(
            final(store).cache_seq(),
            spec_day_number(from),
            spec_day_number(to),
            r@,
        ),
{
    let from_day = from.day_number();
    let to_day = to.day_number();
    let today_day = today.day_number();
    if from_day <= today_day && today_day <= to_day {
        recompute_daily_stats(store, today, tz_offset_seconds);
    }
    let mut out: Vec<DailyStats> = Vec::new();
    if from_day > to_day {
        return out;
    }
    proof {
        lemma_day_number_range(to);
        crate::date::lemma_days_before_year_bound(10000);
    }
    let n = to_day - from_day + 1;
    let mut i: u64 = 0;
    while i < n
        invariant
            store.wf(),
            n == spec_day_number(to) - spec_day_number(from) + 1,
            from_day == spec_day_number(from),
            to_day == spec_day_number(to),
            from_day <= to_day,
            to_day < days_before_year(10000),
            0 <= i <= n,
            out@.len() == i as int,
            forall|k: int|
                0 <= k < i as int ==> {
                    let day = from_day + k;
                    &&& (#[trigger] out@[k]).date.valid()
                    &&& spec_day_number(out@[k].date) == day
                    &&& match spec_cache_lookup(store.cache_seq(), day) {
                        Some(e) => out@[k] == e,
                        None => out@[k] == (DailyStats {
                            date: out@[k].date,
                            breaks_completed: 0,
                            breaks_skipped: 0,
                            total_rest_seconds: 0,
                            longest_streak: 0,
                        }),
                    }
                },
        decreases n - i,
    {
        let day = from_day + i;
        let date = from_day_number(day);
        let entry = match cache_lookup(store, day) {
            Some(e) => e,
            None => DailyStats::zero(&date),
        };
        proof {
            if spec_cache_lookup(store.cache_seq(), day as int) is Some {
                lemma_cache_lookup_finds(store.cache_seq(), day as int);
            }
        }
        out.push(entry);
        i = i + 1;
    }
    out
}

/// Completed breaks among a day's records; skipped and in-progress records
/// do not count.
pub open spec fn spec_count_completed_in_day(rs: Seq<BreakRecord>, d: Date, tz_offset_seconds: int) -> int
    decreases rs.len(),
{
    if rs.len() == 0 {
        0
    } else {
        spec_count_completed_in_day(rs.drop_last(), d, tz_offset_seconds) + if in_day(
            rs.last(),
            d,
            tz_offset_seconds,
        ) && rs.last().completed {
            1int
        } else {
            0int
        }
    }
}

proof fn lemma_count_completed_bounds(rs: Seq<BreakRecord>, d: Date, tz: int)
    ensures
        0 <= spec_count_completed_in_day(rs, d, tz) <= rs.len(),
    decreases rs.len(),
{
    if rs.len() > 0 {
        lemma_count_completed_bounds(rs.drop_last(), d, tz);
    }
}

/// Completed breaks recorded on the given local day.
pub fn count_breaks_on(store: &BreakStore, date: Date, tz_offset_seconds: i32) -> (r: u32)
    requires
        store.wf(),
        date.valid(),
        -86400 < tz_offset_seconds < 86400,
    ensures
        r == sat32(
            spec_count_completed_in_day(store.records_seq(), date, tz_offset_seconds as int),
        ),
{
    let window = day_window(&date, tz_offset_seconds);
    let start_ms = window.0;
    let end_ms = window.1;
    let records = store.records_all();
    let n = records.len();
    let mut count: u64 = 0;
    let mut i: usize = 0;
    while i < n
        invariant
            records@ == store.records_seq(),
            n == records@.len(),
            0 <= i <= n,
            start_ms == (if spec_day_window_start(date, tz_offset_seconds as int) <= 0 {
                0int
            } else {
                spec_day_window_start(date, tz_offset_seconds as int)
            }),
            end_ms == spec_day_window_end(date, tz_offset_seconds as int),
            count == spec_count_completed_in_day(
                records@.subrange(0, i as int),
                date,
                tz_offset_seconds as int,
            ),
            count <= i,
        decreases n - i,
    {
        let r = records[i];
        proof {
            assert(records@.subrange(0, i + 1).drop_last() =~= records@.subrange(0, i as int));
            assert(records@.subrange(0, i + 1).last() == records@[i as int]);
        }
        if start_ms <= r.started_at && r.started_at <= end_ms && r.completed {
            count = count + 1;
        }
        i = i + 1;
    }
    proof {
        assert(records@.subrange(0, n as int) =~= records@);
        lemma_count_completed_bounds(records@, date, tz_offset_seconds as int);
    }
    if count >= u32::MAX as u64 {
        u32::MAX
    } else {
        count as u32
    }
}

/// Completed breaks recorded on the local time zone's current day.
pub fn count_breaks_today(store: &BreakStore) -> (r: u32)
    requires
        store.wf(),
    ensures
        exists|today: Date, tz: int|
            today.valid() && -86400 < tz < 86400 && r == sat32(
                spec_count_completed_in_day(store.records_seq(), today, tz),
            ),
{
    let tz = crate::clock::current_tz_offset_seconds();
    let today = crate::clock::current_date();
    count_breaks_on(store, today, tz)
}

/// What one clocked range read promises, for the `today` and offset it
/// ran under: today recomputed into the cache when it falls in the range,
/// the cache otherwise untouched, and the output exactly one row per day.
pub open spec fn range_call_ok(
    records: Seq<BreakRecord>,
    old_cache: Seq<DailyStats>,
    new_cache: Seq<DailyStats>,
    from: Date,
    to: Date,
    today: Date,
    tz_offset_seconds: int,
    v: Seq<DailyStats>,
) -> bool {
    &&& (if spec_day_number(from) <= spec_day_number(today) <= spec_day_number(to) {
        cache_upserted(
            old_cache,
            new_cache,
            spec_daily_stats(records, today, tz_offset_seconds),
        )
    } else {
        new_cache == old_cache
    })
    &&& range_result_ok(new_cache, spec_day_number(from), spec_day_number(to), v)
}

/// Reads the rollups between two `YYYY-MM-DD` dates, inclusive and
/// ascending, zero-filled, after recomputing the local time zone's current
/// day when it falls in range.  A malformed date fails fast, the `from`
/// text checked first.
pub fn get_daily_stats_range(store: &mut BreakStore, from: &str, to: &str) -> (r: Result<
    Vec<DailyStats>,
    ValidationError,
>)
    requires
        old(store).wf(),
    ensures
        final(store).wf(),
        final(store).records_seq() == old(store).records_seq(),
        final(store).settings_row() == old(store).settings_row(),
        match (spec_parse_date(from@), spec_parse_date(to@)) {
            (Err(e), _) => r == Err::<Vec<DailyStats>, ValidationError>(e)
                && final(store).cache_seq() == old(store).cache_seq(),
            (Ok(_), Err(e)) => r == Err::<Vec<DailyStats>, ValidationError>(e)
                && final(store).cache_seq() == old(store).cache_seq(),
            (Ok(fd), Ok(td)) => {
                &&& r is Ok
                &&& exists|today: Date, tz: int|
                    today.valid() && -86400 < tz < 86400 && #[trigger] range_call_ok(
                        old(store).records_seq(),
                        old(store).cache_seq(),
                        final(store).cache_seq(),
                        fd,
                        td,
                        today,
                        tz,
                        r->Ok_0@,
                    )
            },
        },
{
    let fd = match parse_date(from) {
        Ok(d) => d,
        Err(e) => {
            return Err(e);
        },
    };
    let td = match parse_date(to) {
        Ok(d) => d,
        Err(e) => {
            return Err(e);
        },
    };
    let tz = crate::clock::current_tz_offset_seconds();
    let today = crate::clock::current_date();
    let out = daily_stats_range_on(store, fd, td, today, tz);
    proof {
        // Witness for the postcondition's existential, then the equations
        // that carry it over to the postcondition's own terms: the parsed
        // dates are the texts' parses, and the returned vector sits inside
        // the Ok the caller unwraps.
        assert(range_call_ok(
            old(store).records_seq(),
            old(store).cache_seq(),
            store.cache_seq(),
            fd,
            td,
            today,
            tz as int,
            out@,
        ));
        assert(spec_parse_date(from@)->Ok_0 == fd);
        assert(spec_parse_date(to@)->Ok_0 == td);
        assert(Ok::<Vec<DailyStats>, ValidationError>(out)->Ok_0 == out);
        assert(exists|today_w: Date, tz_w: int|
            today_w.valid() && -86400 < tz_w < 86400 && #[trigger] range_call_ok(
                old(store).records_seq(),
                old(store).cache_seq(),
                store.cache_seq(),
                spec_parse_date(from@)->Ok_0,
                spec_parse_date(to@)->Ok_0,
                today_w,
                tz_w,
                Ok::<Vec<DailyStats>, ValidationError>(out)->Ok_0@,
            ));
    }
    Ok(out)
}

} // verus!
