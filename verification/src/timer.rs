//! The timer phase state machine.  Every function here is pure with respect
//! to storage: it reads the wall clock value it is handed, mutates the
//! in-memory timer state, and returns a description of the side effects the
//! caller must perform (which record to open or finalize, which snapshot to
//! announce).  Remaining time is always recomputed from the phase anchor and
//! the wall clock, never counted down, so missed ticks self-correct.

use vstd::prelude::*;
use crate::settings::spec_settings_valid;
use crate::state::TimerInternalState;
use crate::state::TimerPhase;
use crate::state::TimerState;
use crate::state::UserSettings;

verus! {

/// Durations the machine works with stay within a day, and the remaining
/// time never exceeds the phase length.
pub open spec fn timer_wf(t: TimerState) -> bool {
    &&& t.phase_duration <= 86400
    &&& t.seconds_remaining <= t.phase_duration
}

/// Whole seconds elapsed since the phase anchor, zero if the clock reads
/// earlier than the anchor.
pub open spec fn spec_elapsed_secs(phase_started_at: u64, now_ms: u64) -> int {
    (if now_ms >= phase_started_at {
        now_ms - phase_started_at
    } else {
        0
    }) / 1000
}

/// The wall-clock recomputation rule: remaining = duration minus elapsed,
/// floored at zero.
pub open spec fn spec_remaining(phase_duration: u64, phase_started_at: u64, now_ms: u64) -> int {
    let e = spec_elapsed_secs(phase_started_at, now_ms);
    if e <= phase_duration {
        phase_duration - e
    } else {
        0
    }
}

/// The length in seconds of a fresh work phase under the given settings.
pub open spec fn spec_work_duration(s: UserSettings) -> int {
    s.work_interval_minutes * 60
}

/// A counter that sticks at its ceiling instead of wrapping.
pub open spec fn spec_inc_sat(n: u32) -> u32 {
    if n < u32::MAX {
        (n + 1) as u32
    } else {
        u32::MAX
    }
}

/// A fresh full-length Working phase anchored at `now_ms`.
pub open spec fn spec_fresh_working(s: UserSettings, now_ms: u64, breaks_completed_today: u32) -> TimerState {
    TimerState {
        phase: TimerPhase::Working,
        seconds_remaining: spec_work_duration(s) as u64,
        phase_duration: spec_work_duration(s) as u64,
        phase_started_at: now_ms,
        breaks_completed_today,
    }
}

fn compute_remaining(phase_duration: u64, phase_started_at: u64, now_ms: u64) -> (r: u64)
    ensures
        r == spec_remaining(phase_duration, phase_started_at, now_ms),
        r <= phase_duration,
{
    let elapsed = now_ms.saturating_sub(phase_started_at) / 1000;
    phase_duration.saturating_sub(elapsed)
}

/// Actual elapsed whole seconds of the running phase at `now_ms`, clamped
/// into a 32-bit record field.
pub open spec fn spec_elapsed_u32(phase_started_at: u64, now_ms: u64) -> u32 {
    let e = spec_elapsed_secs(phase_started_at, now_ms);
    if e <= u32::MAX {
        e as u32
    } else {
        u32::MAX
    }
}

fn elapsed_secs_u32(phase_started_at: u64, now_ms: u64) -> (r: u32)
    ensures
        r == spec_elapsed_u32(phase_started_at, now_ms),
{
    let wide = now_ms.saturating_sub(phase_started_at) / 1000;
    if wide <= u32::MAX as u64 {
        wide as u32
    } else {
        u32::MAX
    }
}

fn work_duration_secs(settings: &UserSettings) -> (d: u64)
    requires
        spec_settings_valid(*settings),
    ensures
        d == spec_work_duration(*settings),
        d <= 7200,
{
    settings.work_interval_minutes as u64 * 60
}

/// What one tick decided, captured so the caller can perform storage and
/// presentation work after releasing its locks.
pub enum Transition {
    /// No boundary crossed: the snapshot to announce.
    Tick(TimerState),
    /// Working ran out: a break begins and a record must be opened, noting
    /// how long the work phase actually ran.
    StartBreak {
        snapshot: TimerState,
        preceding_work: u32,
        notification_enabled: bool,
        overlay_enabled: bool,
    },
    /// Breaking ran out: the open record must be finalized as completed
    /// with the break's actual elapsed seconds.
    CompleteBreak {
        snapshot: TimerState,
        break_record_id: Option<i64>,
        actual_duration: u32,
        overlay_enabled: bool,
    },
}

/// One tick: recomputes remaining time from the wall clock and crosses a
/// phase boundary when it reaches zero.  Paused and Suspended phases are
/// frozen and only report their snapshot.
pub fn tick(
    timer: &mut TimerState,
    internal: &mut TimerInternalState,
    settings: &UserSettings,
    now_ms: u64,
) -> (t: Transition)
    requires
        timer_wf(*old(timer)),
        spec_settings_valid(*settings),
    ensures
        timer_wf(*final(timer)),
        ({
            let rem = spec_remaining(old(timer).phase_duration, old(timer).phase_started_at, now_ms);
            match old(timer).phase {
                TimerPhase::Working => if rem > 0 {
                    &&& *final(timer) == (TimerState { seconds_remaining: rem as u64, ..*old(timer) })
                    &&& *final(internal) == *old(internal)
                    &&& t == Transition::Tick(*final(timer))
                } else {
                    &&& *final(timer) == (TimerState {
                        phase: TimerPhase::Breaking,
                        seconds_remaining: settings.break_duration_seconds as u64,
                        phase_duration: settings.break_duration_seconds as u64,
                        phase_started_at: now_ms,
                        breaks_completed_today: old(timer).breaks_completed_today,
                    })
                    &&& *final(internal) == (TimerInternalState { work_started_at: 0, ..*old(internal) })
                    &&& t == (Transition::StartBreak {
                        snapshot: *final(timer),
                        preceding_work: spec_elapsed_u32(old(timer).phase_started_at, now_ms),
                        notification_enabled: settings.notification_enabled,
                        overlay_enabled: settings.overlay_enabled,
                    })
                },
                TimerPhase::Breaking => if rem > 0 {
                    &&& *final(timer) == (TimerState { seconds_remaining: rem as u64, ..*old(timer) })
                    &&& *final(internal) == *old(internal)
                    &&& t == Transition::Tick(*final(timer))
                } else {
                    &&& *final(timer) == spec_fresh_working(
                        *settings,
                        now_ms,
                        spec_inc_sat(old(timer).breaks_completed_today),
                    )
                    &&& *final(internal) == (TimerInternalState {
                        current_break_record_id: None,
                        work_started_at: now_ms,
                        ..*old(internal)
                    })
                    &&& t == (Transition::CompleteBreak {
                        snapshot: *final(timer),
                        break_record_id: old(internal).current_break_record_id,
                        actual_duration: spec_elapsed_u32(old(timer).phase_started_at, now_ms),
                        overlay_enabled: settings.overlay_enabled,
                    })
                },
                _ => {
                    &&& *final(timer) == *old(timer)
                    &&& *final(internal) == *old(internal)
                    &&& t == Transition::Tick(*old(timer))
                },
            }
        }),
{
    match timer.phase {
        TimerPhase::Working => {
            let remaining = compute_remaining(timer.phase_duration, timer.phase_started_at, now_ms);
            timer.seconds_remaining = remaining;
            if remaining == 0 {
                let break_duration = settings.break_duration_seconds as u64;
                let preceding_work = elapsed_secs_u32(timer.phase_started_at, now_ms);
                timer.phase = TimerPhase::Breaking;
                timer.phase_duration = break_duration;
                timer.seconds_remaining = break_duration;
                timer.phase_started_at = now_ms;
                internal.work_started_at = 0;
                let snapshot = *timer;
                Transition::StartBreak {
                    snapshot,
                    preceding_work,
                    notification_enabled: settings.notification_enabled,
                    overlay_enabled: settings.overlay_enabled,
                }
            } else {
                Transition::Tick(*timer)
            }
        }
        TimerPhase::Breaking => {
            let remaining = compute_remaining(timer.phase_duration, timer.phase_started_at, now_ms);
            timer.seconds_remaining = remaining;
            if remaining == 0 {
                let break_record_id = internal.current_break_record_id;
                internal.current_break_record_id = None;
                let actual_duration = elapsed_secs_u32(timer.phase_started_at, now_ms);
                let work_duration = work_duration_secs(settings);
                timer.phase = TimerPhase::Working;
                timer.phase_duration = work_duration;
                timer.seconds_remaining = work_duration;
                timer.phase_started_at = now_ms;
                if timer.breaks_completed_today < u32::MAX {
                    timer.breaks_completed_today = timer.breaks_completed_today + 1;
                }
                internal.work_started_at = now_ms;
                let snapshot = *timer;
                Transition::CompleteBreak {
                    snapshot,
                    break_record_id,
                    actual_duration,
                    overlay_enabled: settings.overlay_enabled,
                }
            } else {
                Transition::Tick(*timer)
            }
        }
        _ => Transition::Tick(*timer),
    }
}

/// Freezes the countdown: the remaining time is snapshotted from the wall
/// clock, the prior phase remembered for `resume`.  Pausing an already
/// frozen timer changes nothing.
pub fn pause(timer: &mut TimerState, internal: &mut TimerInternalState, now_ms: u64) -> (snapshot:
    TimerState)
    requires
        timer_wf(*old(timer)),
    ensures
        timer_wf(*final(timer)),
        snapshot == *final(timer),
        if old(timer).phase == TimerPhase::Paused || old(timer).phase == TimerPhase::Suspended {
            &&& *final(timer) == *old(timer)
            &&& *final(internal) == *old(internal)
        } else {
            &&& *final(timer) == (TimerState {
                phase: TimerPhase::Paused,
                seconds_remaining: spec_remaining(
                    old(timer).phase_duration,
                    old(timer).phase_started_at,
                    now_ms,
                ) as u64,
                ..*old(timer)
            })
            &&& *final(internal) == (TimerInternalState {
                phase_before_pause: old(timer).phase,
                ..*old(internal)
            })
        },
{
    if timer.phase == TimerPhase::Paused || timer.phase == TimerPhase::Suspended {
        return *timer;
    }
    timer.seconds_remaining = compute_remaining(timer.phase_duration, timer.phase_started_at, now_ms);
    internal.phase_before_pause = timer.phase;
    timer.phase = TimerPhase::Paused;
    *timer
}

/// Thaws a paused timer into the phase it was in before the pause, anchoring
/// the phase start so that the wall-clock rule reproduces the frozen
/// remaining time exactly: resuming never loses or gains a second.
pub fn resume(timer: &mut TimerState, internal: &TimerInternalState, now_ms: u64) -> (snapshot:
    TimerState)
    requires
        timer_wf(*old(timer)),
    ensures
        timer_wf(*final(timer)),
        snapshot == *final(timer),
        if old(timer).phase != TimerPhase::Paused {
            &&& *final(timer) == *old(timer)
        } else {
            let elapsed_before = old(timer).phase_duration - old(timer).seconds_remaining;
            &&& final(timer).phase == internal.phase_before_pause
            &&& final(timer).seconds_remaining == old(timer).seconds_remaining
            &&& final(timer).phase_duration == old(timer).phase_duration
            &&& final(timer).breaks_completed_today == old(timer).breaks_completed_today
            &&& elapsed_before * 1000 <= now_ms ==> {
                &&& final(timer).phase_started_at == now_ms - elapsed_before * 1000
                &&& spec_remaining(
                    final(timer).phase_duration,
                    final(timer).phase_started_at,
                    now_ms,
                ) == old(timer).seconds_remaining
            }
        },
{
    if timer.phase != TimerPhase::Paused {
        return *timer;
    }
    timer.phase = internal.phase_before_pause;
    let elapsed_before = timer.phase_duration - timer.seconds_remaining;
    timer.phase_started_at = now_ms.saturating_sub(elapsed_before * 1000);
    proof {
        if elapsed_before * 1000 <= now_ms {
            assert((elapsed_before * 1000) as int / 1000 == elapsed_before) by (nonlinear_arith);
        }
    }
    *timer
}

/// Cuts a running break short: the machine returns to a fresh Working phase
/// and reports which record to finalize as skipped, with the break's actual
/// elapsed seconds.  Outside of Breaking this is a debounced no-op.
pub fn skip_break(
    timer: &mut TimerState,
    internal: &mut TimerInternalState,
    settings: &UserSettings,
    now_ms: u64,
) -> (r: (TimerState, Option<(i64, u32)>))
    requires
        timer_wf(*old(timer)),
        spec_settings_valid(*settings),
    ensures
        timer_wf(*final(timer)),
        r.0 == *final(timer),
        if old(timer).phase != TimerPhase::Breaking {
            &&& *final(timer) == *old(timer)
            &&& *final(internal) == *old(internal)
            &&& r.1 is None
        } else {
            &&& *final(timer) == spec_fresh_working(
                *settings,
                now_ms,
                old(timer).breaks_completed_today,
            )
            &&& *final(internal) == (TimerInternalState {
                current_break_record_id: None,
                work_started_at: now_ms,
                ..*old(internal)
            })
            &&& r.1 == match old(internal).current_break_record_id {
                Some(id) => Some((id, spec_elapsed_u32(old(timer).phase_started_at, now_ms))),
                None => None,
            }
        },
{
    if timer.phase != TimerPhase::Breaking {
        return (*timer, None);
    }
    let elapsed = elapsed_secs_u32(timer.phase_started_at, now_ms);
    let break_record_id = internal.current_break_record_id;
    internal.current_break_record_id = None;
    let work_duration = work_duration_secs(settings);
    timer.phase = TimerPhase::Working;
    timer.phase_duration = work_duration;
    timer.seconds_remaining = work_duration;
    timer.phase_started_at = now_ms;
    internal.work_started_at = now_ms;
    let action = match break_record_id {
        Some(id) => Some((id, elapsed)),
        None => None,
    };
    (*timer, action)
}

/// Abandons the current phase for a fresh full-length Working phase.  A
/// break in progress is reported for finalization as skipped; any stray open
/// record reference is discarded.
pub fn reset(
    timer: &mut TimerState,
    internal: &mut TimerInternalState,
    settings: &UserSettings,
    now_ms: u64,
) -> (r: (TimerState, Option<(i64, u32)>))
    requires
        timer_wf(*old(timer)),
        spec_settings_valid(*settings),
    ensures
        timer_wf(*final(timer)),
        r.0 == *final(timer),
        *final(timer) == spec_fresh_working(*settings, now_ms, old(timer).breaks_completed_today),
        *final(internal) == (TimerInternalState {
            current_break_record_id: None,
            work_started_at: now_ms,
            ..*old(internal)
        }),
        r.1 == if old(timer).phase == TimerPhase::Breaking {
            match old(internal).current_break_record_id {
                Some(id) => Some((id, spec_elapsed_u32(old(timer).phase_started_at, now_ms))),
                None => None,
            }
        } else {
            None
        },
{
    let action = if timer.phase == TimerPhase::Breaking {
        let elapsed = elapsed_secs_u32(timer.phase_started_at, now_ms);
        match internal.current_break_record_id {
            Some(id) => Some((id, elapsed)),
            None => None,
        }
    } else {
        None
    };
    internal.current_break_record_id = None;
    let work_duration = work_duration_secs(settings);
    timer.phase = TimerPhase::Working;
    timer.phase_duration = work_duration;
    timer.seconds_remaining = work_duration;
    timer.phase_started_at = now_ms;
    internal.work_started_at = now_ms;
    (*timer, action)
}

/// What an idle probe decided.
pub enum IdleChange {
    /// The timer froze because the user has been idle past the threshold.
    Suspended(TimerState),
    /// Input returned: a brand-new full-length Working phase begins.  The
    /// interrupted countdown is deliberately not restored — idle time does
    /// not count toward the work interval.
    Resumed(TimerState),
}

/// Applies an idle reading.  A zero threshold disables idle handling, and an
/// unavailable reading decides nothing.  Working with sustained idle input
/// freezes into Suspended exactly as a pause would; a Suspended timer whose
/// user is back starts a fresh Working phase.
pub fn check_idle(
    timer: &mut TimerState,
    internal: &mut TimerInternalState,
    settings: &UserSettings,
    now_ms: u64,
    idle_seconds: Option<u64>,
) -> (r: Option<IdleChange>)
    requires
        timer_wf(*old(timer)),
        spec_settings_valid(*settings),
    ensures
        timer_wf(*final(timer)),
        ({
            let unchanged = *final(timer) == *old(timer) && *final(internal) == *old(internal);
            match idle_seconds {
                None => unchanged && r is None,
                Some(idle) => if settings.idle_pause_minutes == 0 {
                    unchanged && r is None
                } else if idle >= settings.idle_pause_minutes * 60 {
                    if old(timer).phase == TimerPhase::Working {
                        &&& *final(timer) == (TimerState {
                            phase: TimerPhase::Suspended,
                            seconds_remaining: spec_remaining(
                                old(timer).phase_duration,
                                old(timer).phase_started_at,
                                now_ms,
                            ) as u64,
                            ..*old(timer)
                        })
                        &&& *final(internal) == (TimerInternalState {
                            phase_before_pause: TimerPhase::Working,
                            ..*old(internal)
                        })
                        &&& r == Some(IdleChange::Suspended(*final(timer)))
                    } else {
                        unchanged && r is None
                    }
                } else {
                    if old(timer).phase == TimerPhase::Suspended {
                        &&& *final(timer) == spec_fresh_working(
                            *settings,
                            now_ms,
                            old(timer).breaks_completed_today,
                        )
                        &&& *final(internal) == (TimerInternalState {
                            work_started_at: now_ms,
                            ..*old(internal)
                        })
                        &&& r == Some(IdleChange::Resumed(*final(timer)))
                    } else {
                        unchanged && r is None
                    }
                },
            }
        }),
{
    let idle = match idle_seconds {
        Some(s) => s,
        None => {
            return None;
        },
    };
    if settings.idle_pause_minutes == 0 {
        return None;
    }
    let threshold_secs = settings.idle_pause_minutes as u64 * 60;
    if idle >= threshold_secs {
        if timer.phase != TimerPhase::Working {
            return None;
        }
        timer.seconds_remaining = compute_remaining(
            timer.phase_duration,
            timer.phase_started_at,
            now_ms,
        );
        internal.phase_before_pause = TimerPhase::Working;
        timer.phase = TimerPhase::Suspended;
        Some(IdleChange::Suspended(*timer))
    } else {
        if timer.phase != TimerPhase::Suspended {
            return None;
        }
        let work_duration = work_duration_secs(settings);
        timer.phase = TimerPhase::Working;
        timer.phase_duration = work_duration;
        timer.seconds_remaining = work_duration;
        timer.phase_started_at = now_ms;
        internal.work_started_at = now_ms;
        Some(IdleChange::Resumed(*timer))
    }
}

/// Puts the timer into a short demonstration break, unless onboarding is
/// already complete, in which case nothing changes.
pub fn trigger_demo_break(timer: &mut TimerState, settings: &UserSettings, now_ms: u64) -> (r: bool)
    requires
        timer_wf(*old(timer)),
    ensures
        timer_wf(*final(timer)),
        if settings.onboarding_completed {
            *final(timer) == *old(timer) && r == false
        } else {
            &&& *final(timer) == (TimerState {
                phase: TimerPhase::Breaking,
                seconds_remaining: 5,
                phase_duration: 5,
                phase_started_at: now_ms,
                breaks_completed_today: old(timer).breaks_completed_today,
            })
            &&& r == true
        },
{
    if settings.onboarding_completed {
        return false;
    }
    timer.phase = TimerPhase::Breaking;
    timer.phase_duration = 5;
    timer.seconds_remaining = 5;
    timer.phase_started_at = now_ms;
    true
}

/// The state the machine starts in: a full work interval, running if
/// onboarding is complete and paused otherwise.
pub fn initial_timer_state(settings: &UserSettings, breaks_today: u32, now_ms: u64) -> (r: (
    TimerState,
    TimerInternalState,
))
    requires
        spec_settings_valid(*settings),
    ensures
        timer_wf(r.0),
        r.0 == (TimerState {
            phase: if settings.onboarding_completed {
                TimerPhase::Working
            } else {
                TimerPhase::Paused
            },
            seconds_remaining: spec_work_duration(*settings) as u64,
            phase_duration: spec_work_duration(*settings) as u64,
            phase_started_at: now_ms,
            breaks_completed_today: breaks_today,
        }),
        r.1 == (TimerInternalState {
            phase_before_pause: TimerPhase::Working,
            current_break_record_id: None,
            work_started_at: now_ms,
        }),
{
    let work_duration = work_duration_secs(settings);
    let phase = if settings.onboarding_completed {
        TimerPhase::Working
    } else {
        TimerPhase::Paused
    };
    let timer = TimerState {
        phase,
        seconds_remaining: work_duration,
        phase_duration: work_duration,
        phase_started_at: now_ms,
        breaks_completed_today: breaks_today,
    };
    let internal = TimerInternalState {
        phase_before_pause: TimerPhase::Working,
        current_break_record_id: None,
        work_started_at: now_ms,
    };
    (timer, internal)
}

} // verus!
