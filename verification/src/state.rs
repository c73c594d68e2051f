//! Shared data model: timer phases and snapshots, user settings, break
//! records, daily rollups, and the analytics summary view.

use vstd::prelude::*;
use crate::date::Date;

verus! {

#[derive(Clone, Copy, PartialEq, Eq, Structural, Debug)]
pub enum TimerPhase {
    Working,
    Breaking,
    Paused,
    Suspended,
}

/// Externally visible timer snapshot.
#[derive(Clone, Copy, PartialEq, Eq, Structural, Debug)]
pub struct TimerState {
    pub phase: TimerPhase,
    pub seconds_remaining: u64,
    pub phase_duration: u64,
    pub phase_started_at: u64,
    pub breaks_completed_today: u32,
}

/// Internal timer bookkeeping, never shown to callers.
#[derive(Clone, Copy, Debug)]
pub struct TimerInternalState {
    pub phase_before_pause: TimerPhase,
    pub current_break_record_id: Option<i64>,
    pub work_started_at: u64,
}

/// User-tunable configuration.  The sound volume is held in thousandths of
/// full scale, so the whole record is plain integers and text.
#[derive(Clone, Debug)]
pub struct UserSettings {
    pub work_interval_minutes: u32,
    pub break_duration_seconds: u32,
    pub sound_enabled: bool,
    pub sound_volume_milli: u32,
    pub notification_enabled: bool,
    pub overlay_enabled: bool,
    pub launch_at_login: bool,
    pub daily_goal: u32,
    pub idle_pause_minutes: u32,
    pub theme: String,
    pub onboarding_completed: bool,
    pub onboarding_completed_at: Option<u64>,
    pub tooltips_seen: String,
    pub first_break_completed: bool,
}

/// Field-for-field equality of settings, text compared by content.
pub open spec fn settings_eqv(a: UserSettings, b: UserSettings) -> bool {
    &&& a.work_interval_minutes == b.work_interval_minutes
    &&& a.break_duration_seconds == b.break_duration_seconds
    &&& a.sound_enabled == b.sound_enabled
    &&& a.sound_volume_milli == b.sound_volume_milli
    &&& a.notification_enabled == b.notification_enabled
    &&& a.overlay_enabled == b.overlay_enabled
    &&& a.launch_at_login == b.launch_at_login
    &&& a.daily_goal == b.daily_goal
    &&& a.idle_pause_minutes == b.idle_pause_minutes
    &&& a.theme@ == b.theme@
    &&& a.onboarding_completed == b.onboarding_completed
    &&& a.onboarding_completed_at == b.onboarding_completed_at
    &&& a.tooltips_seen@ == b.tooltips_seen@
    &&& a.first_break_completed == b.first_break_completed
}

/// The out-of-the-box configuration.
pub open spec fn is_default_settings(s: UserSettings) -> bool {
    &&& s.work_interval_minutes == 20
    &&& s.break_duration_seconds == 20
    &&& s.sound_enabled == true
    &&& s.sound_volume_milli == 700
    &&& s.notification_enabled == true
    &&& s.overlay_enabled == true
    &&& s.launch_at_login == false
    &&& s.daily_goal == 24
    &&& s.idle_pause_minutes == 5
    &&& s.theme@ == "system"@
    &&& s.onboarding_completed == false
    &&& s.onboarding_completed_at is None
    &&& s.tooltips_seen@ == "[]"@
    &&& s.first_break_completed == false
}

impl Default for UserSettings {
    fn default() -> (s: Self)
        ensures
            is_default_settings(s),
    {
        UserSettings {
            work_interval_minutes: 20,
            break_duration_seconds: 20,
            sound_enabled: true,
            sound_volume_milli: 700,
            notification_enabled: true,
            overlay_enabled: true,
            launch_at_login: false,
            daily_goal: 24,
            idle_pause_minutes: 5,
            theme: String::from_str("system"),
            onboarding_completed: false,
            onboarding_completed_at: None,
            tooltips_seen: String::from_str("[]"),
            first_break_completed: false,
        }
    }
}

impl UserSettings {
    /// A copy equal to `self` field for field.
    pub fn duplicate(&self) -> (r: UserSettings)
        ensures
            settings_eqv(r, *self),
    {
        UserSettings {
            work_interval_minutes: self.work_interval_minutes,
            break_duration_seconds: self.break_duration_seconds,
            sound_enabled: self.sound_enabled,
            sound_volume_milli: self.sound_volume_milli,
            notification_enabled: self.notification_enabled,
            overlay_enabled: self.overlay_enabled,
            launch_at_login: self.launch_at_login,
            daily_goal: self.daily_goal,
            idle_pause_minutes: self.idle_pause_minutes,
            theme: self.theme.clone(),
            onboarding_completed: self.onboarding_completed,
            onboarding_completed_at: self.onboarding_completed_at,
            tooltips_seen: self.tooltips_seen.clone(),
            first_break_completed: self.first_break_completed,
        }
    }
}

/// One persisted break attempt.
#[derive(Clone, Copy, PartialEq, Eq, Structural, Debug)]
pub struct BreakRecord {
    pub id: i64,
    pub started_at: u64,
    pub duration_seconds: u32,
    pub completed: bool,
    pub skipped: bool,
    pub preceding_work_seconds: u32,
}

/// Cached rollup of one calendar day.  The compliance rate is derived from
/// the completed and skipped counts on demand, so none is stored.
#[derive(Clone, Copy, PartialEq, Eq, Structural, Debug)]
pub struct DailyStats {
    pub date: Date,
    pub breaks_completed: u32,
    pub breaks_skipped: u32,
    pub total_rest_seconds: u32,
    pub longest_streak: u32,
}

/// Completed breaks over all finalized breaks, in thousandths; zero when no
/// break was finalized.
pub open spec fn spec_compliance_rate_milli(completed: int, skipped: int) -> int {
    if completed + skipped == 0 {
        0
    } else {
        completed * 1000 / (completed + skipped)
    }
}

/// The compliance rate is a proper fraction: it never exceeds one, and it is
/// zero whenever no break was finalized, and also whenever none completed.
pub proof fn lemma_compliance_rate_bounds(completed: int, skipped: int)
    requires
        0 <= completed,
        0 <= skipped,
    ensures
        0 <= spec_compliance_rate_milli(completed, skipped) <= 1000,
        completed + skipped == 0 ==> spec_compliance_rate_milli(completed, skipped) == 0,
        completed == 0 ==> spec_compliance_rate_milli(completed, skipped) == 0,
{
    if completed + skipped > 0 {
        assert(0 <= completed * 1000 / (completed + skipped) <= 1000) by (nonlinear_arith)
            requires
                0 <= completed,
                0 <= skipped,
                completed + skipped > 0,
        ;
        if completed == 0 {
            assert(completed * 1000 / (completed + skipped) == 0) by (nonlinear_arith)
                requires
                    completed == 0,
                    completed + skipped > 0,
            ;
        }
    }
}

impl DailyStats {
    /// The all-zero rollup of a day with no records.
    pub fn zero(date: &Date) -> (s: Self)
        ensures
            s == (DailyStats {
                date: *date,
                breaks_completed: 0,
                breaks_skipped: 0,
                total_rest_seconds: 0,
                longest_streak: 0,
            }),
    {
        DailyStats {
            date: *date,
            breaks_completed: 0,
            breaks_skipped: 0,
            total_rest_seconds: 0,
            longest_streak: 0,
        }
    }

    /// Completed over completed-plus-skipped, in thousandths.
    pub fn compliance_rate_milli(&self) -> (r: u32)
        ensures
            r == spec_compliance_rate_milli(
                self.breaks_completed as int,
                self.breaks_skipped as int,
            ),
            r <= 1000,
    {
        proof {
            lemma_compliance_rate_bounds(self.breaks_completed as int, self.breaks_skipped as int);
        }
        let c = self.breaks_completed as u64;
        let s = self.breaks_skipped as u64;
        if c + s == 0 {
            0
        } else {
            ((c * 1000) / (c + s)) as u32
        }
    }
}

/// Read-only dashboard view over the persisted records and cache.
#[derive(Clone, Debug)]
pub struct AnalyticsSummary {
    pub today: DailyStats,
    pub last_7_days: Vec<DailyStats>,
    pub last_30_days: Vec<DailyStats>,
    pub current_day_streak: u32,
    pub best_day_streak: u32,
    pub lifetime_breaks: u64,
    pub lifetime_rest_seconds: u64,
}

/// Onboarding progress derived from the raw settings fields.
#[derive(Clone, Debug)]
pub struct OnboardingState {
    pub onboarding_completed: bool,
    pub onboarding_completed_at: Option<u64>,
    pub tooltips_seen: Vec<String>,
    pub first_break_completed: bool,
    pub is_first_day: bool,
}

} // verus!
