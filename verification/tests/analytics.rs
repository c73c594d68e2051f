use blinky::analytics::build_analytics_summary;
use blinky::analytics::compute_best_streak;
use blinky::date::date_of_ms;
use blinky::date::from_day_number;
use blinky::date::Date;
use blinky::rollup::recompute_daily_stats;
use blinky::store::BreakStore;

fn tz_offset_seconds() -> i64 {
    chrono::Local::now().offset().local_minus_utc() as i64
}

fn today_date() -> Date {
    let now = chrono::Utc::now().timestamp_millis() as u64;
    let shifted = (now as i64 + tz_offset_seconds() * 1000) as u64;
    date_of_ms(shifted).unwrap()
}

fn days_ago(today: &Date, n: u64) -> Date {
    from_day_number(today.day_number() - n)
}

/// Ten in the local morning of the given day, in UTC ms since the epoch.
fn base_ms(d: &Date) -> u64 {
    (d.start_of_day_ms() as i64 - tz_offset_seconds() * 1000 + 10 * 3600 * 1000) as u64
}

#[test]
fn test_zero_data_returns_valid_struct() {
    let mut store = BreakStore::new();
    let summary = build_analytics_summary(&mut store, 24);

    assert_eq!(summary.today.breaks_completed, 0);
    assert_eq!(summary.today.breaks_skipped, 0);
    assert_eq!(summary.today.compliance_rate_milli(), 0);
    assert_eq!(summary.last_7_days.len(), 7);
    assert_eq!(summary.last_30_days.len(), 30);
    assert_eq!(summary.current_day_streak, 0);
    assert_eq!(summary.best_day_streak, 0);
    assert_eq!(summary.lifetime_breaks, 0);
    assert_eq!(summary.lifetime_rest_seconds, 0);
}

#[test]
fn test_last_7_days_always_7_elements() {
    let mut store = BreakStore::new();
    let today = today_date();
    let base = base_ms(&today);

    let id = store.insert_break_record(base, 1200);
    store.update_break_completion(id, 20, true, false);

    let summary = build_analytics_summary(&mut store, 24);
    assert_eq!(summary.last_7_days.len(), 7);

    // Only today should have data
    let last = &summary.last_7_days[6]; // today is the last entry
    assert_eq!(last.breaks_completed, 1);

    // Earlier days should be zero
    for day in &summary.last_7_days[..6] {
        assert_eq!(day.breaks_completed, 0);
    }
}

#[test]
fn test_last_30_days_always_30_elements() {
    let mut store = BreakStore::new();
    let summary = build_analytics_summary(&mut store, 24);
    assert_eq!(summary.last_30_days.len(), 30);
}

#[test]
fn test_compliance_rate_with_mixed_breaks() {
    let mut store = BreakStore::new();
    let today = today_date();
    let base = base_ms(&today);

    // 3 completed, 1 skipped → compliance ≈ 0.75
    for i in 0..3u64 {
        let id = store.insert_break_record(base + i * 1_200_000, 1200);
        store.update_break_completion(id, 20, true, false);
    }
    let id = store.insert_break_record(base + 3_600_000, 1200);
    store.update_break_completion(id, 5, false, true);

    let summary = build_analytics_summary(&mut store, 24);
    assert_eq!(summary.today.breaks_completed, 3);
    assert_eq!(summary.today.breaks_skipped, 1);
    assert!((summary.today.compliance_rate_milli() as f64 / 1000.0 - 0.75).abs() < 0.001);
}

#[test]
fn test_current_streak_with_consecutive_days() {
    let mut store = BreakStore::new();
    let today = today_date();
    let daily_goal = 2u32;

    // Seed 3 consecutive days (yesterday, day before, day before that) each meeting the goal
    for days_back in 1..=3u64 {
        let date = days_ago(&today, days_back);
        let base = base_ms(&date);
        for j in 0..daily_goal as u64 {
            let id = store.insert_break_record(base + j * 1_200_000, 1200);
            store.update_break_completion(id, 20, true, false);
        }
        // Force cache computation for that day
        recompute_daily_stats(&mut store, date, tz_offset_seconds() as i32);
    }

    // Today has 0 breaks (hasn't met goal yet) — streak should still be 3
    let summary = build_analytics_summary(&mut store, daily_goal);
    assert_eq!(summary.current_day_streak, 3);
}

#[test]
fn test_current_streak_includes_today_when_goal_met() {
    let mut store = BreakStore::new();
    let today = today_date();
    let daily_goal = 2u32;

    // Today meets the goal
    let base = base_ms(&today);
    for j in 0..daily_goal as u64 {
        let id = store.insert_break_record(base + j * 1_200_000, 1200);
        store.update_break_completion(id, 20, true, false);
    }

    // Yesterday also met the goal
    let yesterday = days_ago(&today, 1);
    let ybase = base_ms(&yesterday);
    for j in 0..daily_goal as u64 {
        let id = store.insert_break_record(ybase + j * 1_200_000, 1200);
        store.update_break_completion(id, 20, true, false);
    }
    recompute_daily_stats(&mut store, yesterday, tz_offset_seconds() as i32);

    let summary = build_analytics_summary(&mut store, daily_goal);
    assert_eq!(summary.current_day_streak, 2); // today + yesterday
}

#[test]
fn test_streak_resets_on_gap() {
    let mut store = BreakStore::new();
    let today = today_date();
    let daily_goal = 1u32;

    // 3 days ago: met goal
    let d3 = days_ago(&today, 3);
    let id = store.insert_break_record(base_ms(&d3), 1200);
    store.update_break_completion(id, 20, true, false);
    recompute_daily_stats(&mut store, d3, tz_offset_seconds() as i32);

    // 2 days ago: zero breaks (gap!)
    let d2 = days_ago(&today, 2);
    recompute_daily_stats(&mut store, d2, tz_offset_seconds() as i32);

    // Yesterday: met goal
    let d1 = days_ago(&today, 1);
    let id = store.insert_break_record(base_ms(&d1), 1200);
    store.update_break_completion(id, 20, true, false);
    recompute_daily_stats(&mut store, d1, tz_offset_seconds() as i32);

    // Today: 0 breaks
    let summary = build_analytics_summary(&mut store, daily_goal);
    // Current streak should be 1 (only yesterday), not 2 (gap breaks it)
    assert_eq!(summary.current_day_streak, 1);
}

#[test]
fn test_best_streak_across_history() {
    let mut store = BreakStore::new();
    let today = today_date();
    let daily_goal = 1u32;

    // Create a 5-day streak ending 10 days ago
    for days_back in 10..=14u64 {
        let date = days_ago(&today, days_back);
        let id = store.insert_break_record(base_ms(&date), 1200);
        store.update_break_completion(id, 20, true, false);
        recompute_daily_stats(&mut store, date, tz_offset_seconds() as i32);
    }

    // Create a 2-day streak ending yesterday
    for days_back in 1..=2u64 {
        let date = days_ago(&today, days_back);
        let id = store.insert_break_record(base_ms(&date), 1200);
        store.update_break_completion(id, 20, true, false);
        recompute_daily_stats(&mut store, date, tz_offset_seconds() as i32);
    }

    let summary = build_analytics_summary(&mut store, daily_goal);
    assert_eq!(summary.best_day_streak, 5);
    assert_eq!(summary.current_day_streak, 2);
}

#[test]
fn test_lifetime_totals_only_count_completed() {
    let mut store = BreakStore::new();
    let today = today_date();
    let base = base_ms(&today);

    // 3 completed (20s each), 2 skipped (5s each)
    for i in 0..3u64 {
        let id = store.insert_break_record(base + i * 1_200_000, 1200);
        store.update_break_completion(id, 20, true, false);
    }
    for i in 3..5u64 {
        let id = store.insert_break_record(base + i * 1_200_000, 1200);
        store.update_break_completion(id, 5, false, true);
    }

    let summary = build_analytics_summary(&mut store, 24);
    assert_eq!(summary.lifetime_breaks, 3);
    assert_eq!(summary.lifetime_rest_seconds, 60); // 3 * 20
}

#[test]
fn test_performance_with_1000_records() {
    let mut store = BreakStore::new();
    let today = today_date();

    // Insert 1000+ records spread across 30 days
    for days_back in 0..30u64 {
        let date = days_ago(&today, days_back);
        let base = date.start_of_day_ms() + 8 * 3600 * 1000;
        for j in 0..35u64 {
            let id = store.insert_break_record(base + j * 1_200_000, 1200);
            if j % 4 != 0 {
                store.update_break_completion(id, 20, true, false);
            } else {
                store.update_break_completion(id, 5, false, true);
            }
        }
        // Pre-cache non-today stats
        if days_back > 0 {
            recompute_daily_stats(&mut store, date, tz_offset_seconds() as i32);
        }
    }

    // Total: 30 * 35 = 1050 records
    let start = std::time::Instant::now();
    let summary = build_analytics_summary(&mut store, 24);
    let elapsed = start.elapsed();

    assert!(elapsed.as_millis() < 50, "Took {}ms, expected <50ms", elapsed.as_millis());
    assert_eq!(summary.last_7_days.len(), 7);
    assert_eq!(summary.last_30_days.len(), 30);
    assert!(summary.lifetime_breaks > 0);
}

#[test]
fn test_best_streak_with_no_data() {
    let store = BreakStore::new();
    let best = compute_best_streak(&store, 24);
    assert_eq!(best, 0);
}

#[test]
fn test_best_streak_handles_non_consecutive_cache_entries() {
    let mut store = BreakStore::new();
    let today = today_date();
    let daily_goal = 1u32;

    // Day 1 and Day 3 have data, Day 2 is missing from cache
    let d1 = days_ago(&today, 5);
    let d3 = days_ago(&today, 3);

    let id = store.insert_break_record(base_ms(&d1), 1200);
    store.update_break_completion(id, 20, true, false);
    recompute_daily_stats(&mut store, d1, tz_offset_seconds() as i32);

    let id = store.insert_break_record(base_ms(&d3), 1200);
    store.update_break_completion(id, 20, true, false);
    recompute_daily_stats(&mut store, d3, tz_offset_seconds() as i32);

    let best = compute_best_streak(&store, daily_goal);
    // Two entries but not consecutive → best is 1
    assert_eq!(best, 1);
}

#[test]
fn test_scenario_three_completed_one_skipped() {
    // Three completed twenty-second breaks and one skipped break today,
    // against a goal of 24.
    let mut store = BreakStore::new();
    let today = today_date();
    let base = base_ms(&today);

    for i in 0..3u64 {
        let id = store.insert_break_record(base + i * 1_200_000, 1200);
        store.update_break_completion(id, 20, true, false);
    }
    let id = store.insert_break_record(base + 3_600_000, 1200);
    store.update_break_completion(id, 5, false, true);

    let summary = build_analytics_summary(&mut store, 24);
    assert_eq!(summary.today.breaks_completed, 3);
    assert_eq!(summary.today.breaks_skipped, 1);
    assert_eq!(summary.today.compliance_rate_milli(), 750);
    assert_eq!(summary.lifetime_rest_seconds, 60);
}

#[test]
fn test_scenario_today_and_two_prior_days() {
    // Today has met the goal of two completed breaks, and so did the two
    // days before it: today counts as day one and the walk continues back.
    let mut store = BreakStore::new();
    let today = today_date();
    let daily_goal = 2u32;

    for days_back in 0..=2u64 {
        let date = days_ago(&today, days_back);
        let base = base_ms(&date);
        for j in 0..daily_goal as u64 {
            let id = store.insert_break_record(base + j * 1_200_000, 1200);
            store.update_break_completion(id, 20, true, false);
        }
        if days_back > 0 {
            recompute_daily_stats(&mut store, date, tz_offset_seconds() as i32);
        }
    }

    let summary = build_analytics_summary(&mut store, daily_goal);
    assert_eq!(summary.current_day_streak, 3);
}

#[test]
fn test_recompute_idempotent_without_new_records() {
    let mut store = BreakStore::new();
    let today = today_date();
    let base = base_ms(&today);

    let id = store.insert_break_record(base, 1200);
    store.update_break_completion(id, 20, true, false);
    let id = store.insert_break_record(base + 1_200_000, 1200);
    store.update_break_completion(id, 5, false, true);

    let tz = tz_offset_seconds() as i32;
    let first = recompute_daily_stats(&mut store, today, tz);
    let second = recompute_daily_stats(&mut store, today, tz);
    assert_eq!(first, second);
}
