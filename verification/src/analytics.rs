//! Streaks and lifetime totals over the cached daily rollups, and the
//! composed analytics summary that the dashboard reads.

use vstd::prelude::*;
use crate::date::Date;
use crate::date::from_day_number;
use crate::date::lemma_day_number_range;
use crate::date::lemma_days_before_year_bound;
use crate::date::spec_day_number;
use crate::rollup::cache_lookup;
use crate::rollup::daily_stats_range_on;
use crate::rollup::lemma_cache_lookup_finds;
use crate::rollup::range_result_ok;
use crate::rollup::lemma_upsert_idempotent;
use crate::rollup::recompute_daily_stats;
use crate::rollup::sat32;
use crate::rollup::spec_daily_stats;
use crate::state::AnalyticsSummary;
use crate::state::BreakRecord;
use crate::state::DailyStats;
use crate::store::BreakStore;
use crate::store::cache_sorted;
use crate::store::cache_upserted;

verus! {

/// Whether the cache holds a row for this day whose completed-break count
/// meets the goal.
pub open spec fn spec_qualifies(cs: Seq<DailyStats>, day: int, goal: u32) -> bool {
    exists|k: int|
        0 <= k < cs.len() && spec_day_number(#[trigger] cs[k].date) == day
            && cs[k].breaks_completed >= goal
}

/// What the current-streak walk returns: with today counting as one when it
/// already meets the goal and staying neutral otherwise, the result extends
/// backward over exactly the unbroken run of qualifying days before today.
pub open spec fn current_streak_ok(
    cs: Seq<DailyStats>,
    goal: u32,
    today: Date,
    today_completed: u32,
    r: u32,
) -> bool {
    let base: int = if today_completed >= goal {
        1
    } else {
        0
    };
    let back = r - base;
    &&& base <= r
    &&& forall|day: int|
        spec_day_number(today) - 1 - back < day <= spec_day_number(today) - 1 ==> #[trigger] spec_qualifies(cs, day, goal)
    &&& !spec_qualifies(cs, spec_day_number(today) - 1 - back, goal)
}

fn qualifies_at(store: &BreakStore, day: u64, goal: u32) -> (r: bool)
    requires
        store.wf(),
    ensures
        r == spec_qualifies(store.cache_seq(), day as int, goal),
{
    proof {
        lemma_cache_lookup_finds(store.cache_seq(), day as int);
    }
    match cache_lookup(store, day) {
        Some(e) => {
            proof {
                if e.breaks_completed < goal {
                    let cs = store.cache_seq();
                    let k0 = choose|k: int|
                        0 <= k < cs.len() && cs[k] == e && spec_day_number(#[trigger] cs[k].date)
                            == day;
                    assert forall|k: int|
                        0 <= k < cs.len() && spec_day_number(#[trigger] cs[k].date)
                            == day as int implies !(cs[k].breaks_completed >= goal) by {
                        if k < k0 {
                            assert(spec_day_number(cs[k].date) < spec_day_number(cs[k0].date));
                        } else if k > k0 {
                            assert(spec_day_number(cs[k0].date) < spec_day_number(cs[k].date));
                        }
                    }
                }
            }
            e.breaks_completed >= goal
        },
        None => false,
    }
}

/// Walks backward from today counting consecutive qualifying days.  A today
/// that has not yet met the goal does not break the streak: the day is still
/// in progress, so the walk simply starts at yesterday.
pub fn compute_current_streak(
    store: &BreakStore,
    daily_goal: u32,
    today: &Date,
    today_stats: &DailyStats,
) -> (r: u32)
    requires
        store.wf(),
        today.valid(),
    ensures
        current_streak_ok(
            store.cache_seq(),
            daily_goal,
            *today,
            today_stats.breaks_completed,
            r,
        ),
{
    let today_met = today_stats.breaks_completed >= daily_goal;
    let base: u32 = if today_met {
        1
    } else {
        0
    };
    let today_day = today.day_number();
    proof {
        lemma_day_number_range(*today);
        lemma_days_before_year_bound(10000);
    }
    let mut count: u64 = 0;
    let mut d: i64 = today_day as i64 - 1;
    while d >= 0 && qualifies_at(store, d as u64, daily_goal)
        invariant
            store.wf(),
            today_day == spec_day_number(*today),
            today_day <= 3000000,
            -1 <= d <= today_day as i64 - 1,
            count == today_day as i64 - 1 - d,
            forall|day: int|
                d < day <= today_day as i64 - 1 ==> #[trigger] spec_qualifies(
                    store.cache_seq(),
                    day,
                    daily_goal,
                ),
        decreases d + 1,
    {
        count = count + 1;
        d = d - 1;
    }
    proof {
        if d < 0 {
            let cs = store.cache_seq();
            assert forall|k: int|
                0 <= k < cs.len() implies spec_day_number(#[trigger] cs[k].date) != spec_day_number(
                *today,
            ) - 1 - count by {
                lemma_day_number_range(cs[k].date);
            }
        }
    }
    base + count as u32
}

/// The forward scan over the cache rows in date order: a qualifying row
/// extends the run when its day immediately follows the previously scanned
/// row's day and restarts it otherwise, a non-qualifying row clears the run,
/// and every row becomes the new adjacency anchor.  Yields the best run, the
/// current run, and the anchor.
pub open spec fn spec_best_fold(cs: Seq<DailyStats>, goal: u32) -> (int, int, Option<int>)
    decreases cs.len(),
{
    if cs.len() == 0 {
        (0int, 0int, Option::<int>::None)
    } else {
        let prior = spec_best_fold(cs.drop_last(), goal);
        let e = cs.last();
        let day = spec_day_number(e.date);
        if e.breaks_completed >= goal {
            let consec = match prior.2 {
                Some(pd) => day == pd + 1,
                None => true,
            };
            let run = if consec {
                prior.1 + 1
            } else {
                1
            };
            (
                if run > prior.0 {
                    run
                } else {
                    prior.0
                },
                run,
                Some(day),
            )
        } else {
            (prior.0, 0int, Some(day))
        }
    }
}

/// Scans the whole cache for the longest run of consecutive qualifying
/// days.  A missing day breaks consecutiveness even between two qualifying
/// rows.
pub fn compute_best_streak(store: &BreakStore, daily_goal: u32) -> (r: u32)
    requires
        store.wf(),
    ensures
        r == sat32(spec_best_fold(store.cache_seq(), daily_goal).0),
{
    let cache = store.cache_all();
    let n = cache.len();
    let mut best: u64 = 0;
    let mut current: u64 = 0;
    let mut prev: Option<u64> = None;
    let mut i: usize = 0;
    while i < n
        invariant
            store.wf(),
            cache@ == store.cache_seq(),
            n == cache@.len(),
            0 <= i <= n,
            best == spec_best_fold(cache@.subrange(0, i as int), daily_goal).0,
            current == spec_best_fold(cache@.subrange(0, i as int), daily_goal).1,
            match (prev, spec_best_fold(cache@.subrange(0, i as int), daily_goal).2) {
                (Some(a), Some(b)) => a == b && a <= 3000000,
                (None, None) => true,
                _ => false,
            },
            best <= i,
            current <= i,
        decreases n - i,
    {
        let e = cache[i];
        proof {
            assert(cache@.subrange(0, i + 1).drop_last() =~= cache@.subrange(0, i as int));
            assert(cache@.subrange(0, i + 1).last() == cache@[i as int]);
            lemma_day_number_range(e.date);
            lemma_days_before_year_bound(10000);
        }
        let day = e.date.day_number();
        if e.breaks_completed >= daily_goal {
            let consec = match prev {
                Some(pd) => day == pd + 1,
                None => true,
            };
            if consec {
                current = current + 1;
            } else {
                current = 1;
            }
            if current > best {
                best = current;
            }
        } else {
            current = 0;
        }
        prev = Some(day);
        i = i + 1;
    }
    proof {
        assert(cache@.subrange(0, n as int) =~= cache@);
    }
    if best >= u32::MAX as u64 {
        u32::MAX
    } else {
        best as u32
    }
}

/// Count and summed rest seconds over the records with `completed` set;
/// skipped and in-progress records contribute to neither.
pub open spec fn spec_lifetime_fold(rs: Seq<BreakRecord>) -> (int, int)
    decreases rs.len(),
{
    if rs.len() == 0 {
        (0int, 0int)
    } else {
        let prior = spec_lifetime_fold(rs.drop_last());
        let r = rs.last();
        if r.completed {
            (prior.0 + 1, prior.1 + r.duration_seconds)
        } else {
            prior
        }
    }
}

/// A record that did not complete leaves the lifetime totals untouched.
pub proof fn lemma_lifetime_ignores_unfinished(rs: Seq<BreakRecord>, r: BreakRecord)
    requires
        !r.completed,
    ensures
        spec_lifetime_fold(rs.push(r)) == spec_lifetime_fold(rs),
{
    assert(rs.push(r).drop_last() =~= rs);
}

/// Lifetime totals: how many breaks completed, and their summed seconds.
pub fn compute_lifetime_totals(store: &BreakStore) -> (r: (u64, u64))
    requires
        store.wf(),
    ensures
        r.0 == spec_lifetime_fold(store.records_seq()).0,
        r.1 == ({
            let s = spec_lifetime_fold(store.records_seq()).1;
            if s >= u64::MAX {
                u64::MAX as int
            } else {
                s
            }
        }),
{
    let records = store.records_all();
    let n = records.len();
    let mut count: u64 = 0;
    let mut seconds: u64 = 0;
    let mut i: usize = 0;
    while i < n
        invariant
            records@ == store.records_seq(),
            n == records@.len(),
            0 <= i <= n,
            count == spec_lifetime_fold(records@.subrange(0, i as int)).0,
            seconds == ({
                let s = spec_lifetime_fold(records@.subrange(0, i as int)).1;
                if s >= u64::MAX {
                    u64::MAX as int
                } else {
                    s
                }
            }),
            count <= i,
        decreases n - i,
    {
        let r = records[i];
        proof {
            assert(records@.subrange(0, i + 1).drop_last() =~= records@.subrange(0, i as int));
            assert(records@.subrange(0, i + 1).last() == records@[i as int]);
            lemma_lifetime_fold_bounds(records@.subrange(0, i as int));
        }
        if r.completed {
            count = count + 1;
            seconds = seconds.saturating_add(r.duration_seconds as u64);
        }
        i = i + 1;
    }
    proof {
        assert(records@.subrange(0, n as int) =~= records@);
    }
    (count, seconds)
}

proof fn lemma_lifetime_fold_bounds(rs: Seq<BreakRecord>)
    ensures
        0 <= spec_lifetime_fold(rs).0 <= rs.len(),
        0 <= spec_lifetime_fold(rs).1,
    decreases rs.len(),
{
    if rs.len() > 0 {
        lemma_lifetime_fold_bounds(rs.drop_last());
    }
}

/// Everything a summary promises relative to the record list and the cache
/// before and after the call.
pub open spec fn summary_ok(
    records: Seq<BreakRecord>,
    old_cache: Seq<DailyStats>,
    new_cache: Seq<DailyStats>,
    daily_goal: u32,
    today: Date,
    tz_offset_seconds: int,
    s: AnalyticsSummary,
) -> bool {
    &&& s.today == spec_daily_stats(records, today, tz_offset_seconds)
    &&& cache_upserted(old_cache, new_cache, s.today)
    &&& range_result_ok(
        new_cache,
        if spec_day_number(today) >= 6 {
            spec_day_number(today) - 6
        } else {
            0
        },
        spec_day_number(today),
        s.last_7_days@,
    )
    &&& range_result_ok(
        new_cache,
        if spec_day_number(today) >= 29 {
            spec_day_number(today) - 29
        } else {
            0
        },
        spec_day_number(today),
        s.last_30_days@,
    )
    &&& current_streak_ok(new_cache, daily_goal, today, s.today.breaks_completed, s.current_day_streak)
    &&& s.best_day_streak == sat32(spec_best_fold(new_cache, daily_goal).0)
    &&& s.lifetime_breaks == spec_lifetime_fold(records).0
    &&& s.lifetime_rest_seconds == ({
        let secs = spec_lifetime_fold(records).1;
        if secs >= u64::MAX {
            u64::MAX as int
        } else {
            secs
        }
    })
}

/// Builds the dashboard summary for a given today: today's freshly
/// recomputed rollup, the zero-filled seven- and thirty-day windows, the
/// current and best day streaks against the goal, and the lifetime totals.
pub fn build_analytics_summary_on(
    store: &mut BreakStore,
    daily_goal: u32,
    today: Date,
    tz_offset_seconds: i32,
) -> (s: AnalyticsSummary)
    requires
        old(store).wf(),
        today.valid(),
        -86400 < tz_offset_seconds < 86400,
    ensures
        final(store).wf(),
        final(store).records_seq() == old(store).records_seq(),
        final(store).settings_row() == old(store).settings_row(),
        summary_ok(
            old(store).records_seq(),
            old(store).cache_seq(),
            final(store).cache_seq(),
            daily_goal,
            today,
            tz_offset_seconds as int,
            s,
        ),
{
    let ghost c0 = store.cache_seq();
    let today_stats = recompute_daily_stats(store, today, tz_offset_seconds);
    let ghost c1 = store.cache_seq();
    let today_day = today.day_number();
    proof {
        lemma_day_number_range(today);
    }
    let from7 = from_day_number(if today_day >= 6 {
        today_day - 6
    } else {
        0
    });
    let last_7_days = daily_stats_range_on(store, from7, today, today, tz_offset_seconds);
    proof {
        lemma_upsert_idempotent(c0, c1, store.cache_seq(), today_stats);
    }
    let from30 = from_day_number(if today_day >= 29 {
        today_day - 29
    } else {
        0
    });
    let last_30_days = daily_stats_range_on(store, from30, today, today, tz_offset_seconds);
    proof {
        lemma_upsert_idempotent(c0, c1, store.cache_seq(), today_stats);
    }
    let current_day_streak = compute_current_streak(store, daily_goal, &today, &today_stats);
    let best_day_streak = compute_best_streak(store, daily_goal);
    let totals = compute_lifetime_totals(store);
    AnalyticsSummary {
        today: today_stats,
        last_7_days,
        last_30_days,
        current_day_streak,
        best_day_streak,
        lifetime_breaks: totals.0,
        lifetime_rest_seconds: totals.1,
    }
}

/// Builds the dashboard summary for the local time zone's current day.
pub fn build_analytics_summary(store: &mut BreakStore, daily_goal: u32) -> (s: AnalyticsSummary)
    requires
        old(store).wf(),
    ensures
        final(store).wf(),
        final(store).records_seq() == old(store).records_seq(),
        final(store).settings_row() == old(store).settings_row(),
        exists|today: Date, tz: int|
            today.valid() && -86400 < tz < 86400 && summary_ok(
                old(store).records_seq(),
                old(store).cache_seq(),
                final(store).cache_seq(),
                daily_goal,
                today,
                tz,
                s,
            ),
{
    let tz = crate::clock::current_tz_offset_seconds();
    let today = crate::clock::current_date();
    build_analytics_summary_on(store, daily_goal, today, tz)
}

proof fn lemma_best_fold_anchor(cs: Seq<DailyStats>, goal: u32)
    ensures
        cs.len() == 0 ==> spec_best_fold(cs, goal).2 is None,
        cs.len() > 0 ==> spec_best_fold(cs, goal).2 == Some(spec_day_number(cs.last().date)),
{
}

proof fn lemma_best_fold_nonneg(cs: Seq<DailyStats>, goal: u32)
    ensures
        spec_best_fold(cs, goal).0 >= spec_best_fold(cs, goal).1 >= 0,
    decreases cs.len(),
{
    if cs.len() > 0 {
        lemma_best_fold_nonneg(cs.drop_last(), goal);
    }
}

proof fn lemma_best_fold_prefix_le(cs: Seq<DailyStats>, goal: u32, k: int)
    requires
        0 <= k <= cs.len(),
    ensures
        spec_best_fold(cs.subrange(0, k), goal).0 <= spec_best_fold(cs, goal).0,
    decreases cs.len() - k,
{
    if k == cs.len() {
        assert(cs.subrange(0, k) =~= cs);
    } else {
        assert(cs.subrange(0, k + 1).drop_last() =~= cs.subrange(0, k));
        lemma_best_fold_nonneg(cs.subrange(0, k), goal);
        lemma_best_fold_prefix_le(cs, goal, k + 1);
    }
}

/// A block of qualifying rows on consecutive days drives the running run —
/// and with it the best — up to the block's length.
proof fn lemma_run_current(cs: Seq<DailyStats>, goal: u32, k0: int, m: int)
    requires
        0 <= k0,
        1 <= m,
        k0 + m <= cs.len(),
        forall|k: int| k0 <= k < k0 + m ==> (#[trigger] cs[k]).breaks_completed >= goal,
        forall|k: int|
            k0 <= k < k0 + m ==> spec_day_number((#[trigger] cs[k]).date) == spec_day_number(
                cs[k0].date,
            ) + (k - k0),
    ensures
        spec_best_fold(cs.subrange(0, k0 + m), goal).1 >= m,
        spec_best_fold(cs.subrange(0, k0 + m), goal).0 >= m,
    decreases m,
{
    let pre = cs.subrange(0, k0 + m);
    assert(pre.drop_last() =~= cs.subrange(0, k0 + m - 1));
    assert(pre.last() == cs[k0 + m - 1]);
    if m == 1 {
        lemma_best_fold_nonneg(cs.subrange(0, k0), goal);
    } else {
        lemma_run_current(cs, goal, k0, m - 1);
        lemma_best_fold_anchor(cs.subrange(0, k0 + m - 1), goal);
        assert(cs.subrange(0, k0 + m - 1).last() == cs[k0 + m - 2]);
    }
}

/// In a date-sorted cache, consecutive qualifying days occupy consecutive
/// indices: nothing can sit between two rows whose days differ by one.
proof fn lemma_run_contiguous(cs: Seq<DailyStats>, goal: u32, d0: int, n: int, k0: int, j: int)
    requires
        cache_sorted(cs),
        0 <= k0 < cs.len(),
        spec_day_number(cs[k0].date) == d0,
        cs[k0].breaks_completed >= goal,
        forall|day: int| d0 <= day < d0 + n ==> #[trigger] spec_qualifies(cs, day, goal),
        0 <= j < n,
    ensures
        k0 + j < cs.len(),
        spec_day_number(cs[k0 + j].date) == d0 + j,
        cs[k0 + j].breaks_completed >= goal,
    decreases j,
{
    if j > 0 {
        lemma_run_contiguous(cs, goal, d0, n, k0, j - 1);
        assert(spec_qualifies(cs, d0 + j, goal));
        let kp = choose|k: int|
            0 <= k < cs.len() && spec_day_number(#[trigger] cs[k].date) == d0 + j
                && cs[k].breaks_completed >= goal;
        if kp <= k0 + j - 1 {
            if kp < k0 + j - 1 {
                assert(spec_day_number(cs[kp].date) < spec_day_number(cs[k0 + j - 1].date));
            }
            assert(false);
        }
        if kp > k0 + j {
            assert(spec_day_number(cs[k0 + j - 1].date) < spec_day_number(cs[k0 + j].date));
            assert(spec_day_number(cs[k0 + j].date) < spec_day_number(cs[kp].date));
            assert(false);
        }
        assert(kp == k0 + j);
    }
}

/// A fully cached run of `n` consecutive qualifying days ending at
/// `end_day` pushes the best streak to at least `n`.
proof fn lemma_best_covers_run(cs: Seq<DailyStats>, goal: u32, end_day: int, n: int)
    requires
        cache_sorted(cs),
        0 <= n,
        forall|day: int| end_day - n < day <= end_day ==> #[trigger] spec_qualifies(cs, day, goal),
    ensures
        spec_best_fold(cs, goal).0 >= n,
{
    lemma_best_fold_nonneg(cs, goal);
    if n > 0 {
        let d0 = end_day - n + 1;
        assert(spec_qualifies(cs, d0, goal));
        let k0 = choose|k: int|
            0 <= k < cs.len() && spec_day_number(#[trigger] cs[k].date) == d0
                && cs[k].breaks_completed >= goal;
        assert forall|k: int|
            k0 <= k < k0 + n implies (#[trigger] cs[k]).breaks_completed >= goal
                && spec_day_number(cs[k].date) == d0 + (k - k0) && k < cs.len() by {
            lemma_run_contiguous(cs, goal, d0, n, k0, k - k0);
        }
        lemma_run_contiguous(cs, goal, d0, n, k0, n - 1);
        lemma_run_current(cs, goal, k0, n);
        lemma_best_fold_prefix_le(cs, goal, k0 + n);
    }
}

/// Streak monotonicity: whenever the run the current streak counts is
/// fully present in the cache — its qualifying days before today are there
/// by definition, and today's own row must be cached and qualifying when
/// today counts — the all-time best streak is at least the current streak.
pub proof fn lemma_best_streak_at_least_current(
    cs: Seq<DailyStats>,
    goal: u32,
    today: Date,
    today_completed: u32,
    current: u32,
)
    requires
        cache_sorted(cs),
        current_streak_ok(cs, goal, today, today_completed, current),
        today_completed >= goal ==> spec_qualifies(cs, spec_day_number(today), goal),
    ensures
        sat32(spec_best_fold(cs, goal).0) >= current,
{
    let dn = spec_day_number(today);
    let base: int = if today_completed >= goal {
        1
    } else {
        0
    };
    let end_day = if base == 1 {
        dn
    } else {
        dn - 1
    };
    assert forall|day: int|
        end_day - current < day <= end_day implies #[trigger] spec_qualifies(cs, day, goal) by {
        if day != dn {
            assert(dn - 1 - (current - base) < day <= dn - 1);
        }
    }
    lemma_best_covers_run(cs, goal, end_day, current as int);
}

} // verus!
