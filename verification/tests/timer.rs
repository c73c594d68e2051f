use blinky::state::TimerInternalState;
use blinky::state::TimerPhase;
use blinky::state::TimerState;
use blinky::state::UserSettings;
use blinky::store::BreakStore;
use blinky::timer::check_idle;
use blinky::timer::initial_timer_state;
use blinky::timer::pause;
use blinky::timer::resume;
use blinky::timer::reset;
use blinky::timer::skip_break;
use blinky::timer::tick;
use blinky::timer::trigger_demo_break;
use blinky::timer::IdleChange;
use blinky::timer::Transition;

const T0: u64 = 1_700_000_000_000;

fn running_machine() -> (UserSettings, TimerState, TimerInternalState) {
    let mut settings = UserSettings::default();
    settings.onboarding_completed = true;
    let (timer, internal) = initial_timer_state(&settings, 0, T0);
    (settings, timer, internal)
}

#[test]
fn test_initial_state_running_after_onboarding() {
    let (_, timer, internal) = running_machine();
    assert_eq!(timer.phase, TimerPhase::Working);
    assert_eq!(timer.phase_duration, 1200);
    assert_eq!(timer.seconds_remaining, 1200);
    assert_eq!(timer.phase_started_at, T0);
    assert_eq!(timer.breaks_completed_today, 0);
    assert!(internal.current_break_record_id.is_none());
}

#[test]
fn test_initial_state_paused_before_onboarding() {
    let settings = UserSettings::default();
    let (timer, _) = initial_timer_state(&settings, 3, T0);
    assert_eq!(timer.phase, TimerPhase::Paused);
    assert_eq!(timer.breaks_completed_today, 3);
}

#[test]
fn test_tick_counts_down_by_wall_clock() {
    let (settings, mut timer, mut internal) = running_machine();
    let t = tick(&mut timer, &mut internal, &settings, T0 + 500_000);
    assert_eq!(timer.seconds_remaining, 700);
    assert!(matches!(t, Transition::Tick(_)));
}

#[test]
fn test_tick_self_corrects_after_missed_ticks() {
    let (settings, mut timer, mut internal) = running_machine();
    tick(&mut timer, &mut internal, &settings, T0 + 500_000);
    // Many ticks were missed; the next one lands on the right value anyway.
    tick(&mut timer, &mut internal, &settings, T0 + 900_000);
    assert_eq!(timer.seconds_remaining, 300);
}

#[test]
fn test_work_to_break_transition() {
    let (settings, mut timer, mut internal) = running_machine();
    let t = tick(&mut timer, &mut internal, &settings, T0 + 1_200_000);
    assert_eq!(timer.phase, TimerPhase::Breaking);
    assert_eq!(timer.phase_duration, 20);
    assert_eq!(timer.seconds_remaining, 20);
    assert_eq!(timer.phase_started_at, T0 + 1_200_000);
    match t {
        Transition::StartBreak { preceding_work, .. } => assert_eq!(preceding_work, 1200),
        _ => panic!("expected a break to start"),
    }
}

#[test]
fn test_break_complete_transition() {
    let (settings, mut timer, mut internal) = running_machine();
    let mut store = BreakStore::new();
    tick(&mut timer, &mut internal, &settings, T0 + 1_200_000);
    // The host opens the record that the transition asked for.
    let id = store.insert_break_record(T0 + 1_200_000, 1200);
    internal.current_break_record_id = Some(id);

    let t = tick(&mut timer, &mut internal, &settings, T0 + 1_220_000);
    assert_eq!(timer.phase, TimerPhase::Working);
    assert_eq!(timer.seconds_remaining, 1200);
    assert_eq!(timer.breaks_completed_today, 1);
    assert!(internal.current_break_record_id.is_none());
    match t {
        Transition::CompleteBreak { break_record_id, actual_duration, .. } => {
            assert_eq!(break_record_id, Some(id));
            assert_eq!(actual_duration, 20);
        }
        _ => panic!("expected the break to complete"),
    }
}

#[test]
fn test_late_ticks_record_actual_elapsed_durations() {
    // The scheduler stalled, so both boundary ticks come late.  The opened
    // record notes how long the work phase actually ran, and the completed
    // break is finalized with the seconds that actually passed, not with
    // the configured lengths.
    let (settings, mut timer, mut internal) = running_machine();
    let t = tick(&mut timer, &mut internal, &settings, T0 + 1_250_000);
    match t {
        Transition::StartBreak { preceding_work, .. } => assert_eq!(preceding_work, 1250),
        _ => panic!("expected a break to start"),
    }
    internal.current_break_record_id = Some(3);
    let t = tick(&mut timer, &mut internal, &settings, T0 + 1_250_000 + 33_000);
    match t {
        Transition::CompleteBreak { break_record_id, actual_duration, .. } => {
            assert_eq!(break_record_id, Some(3));
            assert_eq!(actual_duration, 33);
        }
        _ => panic!("expected the break to complete"),
    }
}

#[test]
fn test_skip_break_finalizes_record() {
    let (settings, mut timer, mut internal) = running_machine();
    tick(&mut timer, &mut internal, &settings, T0 + 1_200_000);
    internal.current_break_record_id = Some(7);

    let (state, action) = skip_break(&mut timer, &mut internal, &settings, T0 + 1_205_000);
    assert_eq!(state.phase, TimerPhase::Working);
    assert_eq!(state.seconds_remaining, 1200);
    assert_eq!(action, Some((7, 5)));
    assert!(internal.current_break_record_id.is_none());
}

#[test]
fn test_skip_break_noop_when_working() {
    let (settings, mut timer, mut internal) = running_machine();
    let before = timer;
    let (state, action) = skip_break(&mut timer, &mut internal, &settings, T0 + 10_000);
    assert_eq!(state, before);
    assert_eq!(action, None);
}

#[test]
fn test_reset_during_break_marks_skipped() {
    let (settings, mut timer, mut internal) = running_machine();
    tick(&mut timer, &mut internal, &settings, T0 + 1_200_000);
    internal.current_break_record_id = Some(9);

    let (state, action) = reset(&mut timer, &mut internal, &settings, T0 + 1_207_000);
    assert_eq!(state.phase, TimerPhase::Working);
    assert_eq!(state.seconds_remaining, 1200);
    assert_eq!(action, Some((9, 7)));
}

#[test]
fn test_reset_when_working_finalizes_nothing() {
    let (settings, mut timer, mut internal) = running_machine();
    internal.current_break_record_id = Some(11);
    let (state, action) = reset(&mut timer, &mut internal, &settings, T0 + 600_000);
    assert_eq!(state.phase, TimerPhase::Working);
    assert_eq!(action, None);
    // The stray open-record reference is discarded.
    assert!(internal.current_break_record_id.is_none());
}

#[test]
fn test_pause_then_resume_restores_remaining_exactly() {
    let (settings, mut timer, mut internal) = running_machine();
    tick(&mut timer, &mut internal, &settings, T0 + 500_000);
    assert_eq!(timer.seconds_remaining, 700);

    let paused = pause(&mut timer, &mut internal, T0 + 500_000);
    assert_eq!(paused.phase, TimerPhase::Paused);
    assert_eq!(paused.seconds_remaining, 700);

    // Real time passes while paused.
    let resumed = resume(&mut timer, &internal, T0 + 5_000_000);
    assert_eq!(resumed.phase, TimerPhase::Working);
    assert_eq!(resumed.seconds_remaining, 700);

    // The wall-clock rule reproduces the frozen value at the resume instant,
    // and keeps counting from there.
    let t = tick(&mut timer, &mut internal, &settings, T0 + 5_000_000);
    assert_eq!(timer.seconds_remaining, 700);
    assert!(matches!(t, Transition::Tick(_)));
    tick(&mut timer, &mut internal, &settings, T0 + 5_001_000);
    assert_eq!(timer.seconds_remaining, 699);
}

#[test]
fn test_pause_idempotent() {
    let (_, mut timer, mut internal) = running_machine();
    pause(&mut timer, &mut internal, T0 + 1_000);
    let before = timer;
    let again = pause(&mut timer, &mut internal, T0 + 60_000);
    assert_eq!(again, before);
    assert_eq!(timer, before);
}

#[test]
fn test_resume_noop_when_not_paused() {
    let (_, mut timer, internal) = running_machine();
    let before = timer;
    let state = resume(&mut timer, &internal, T0 + 60_000);
    assert_eq!(state, before);
}

#[test]
fn test_idle_suspends_working_after_threshold() {
    let (settings, mut timer, mut internal) = running_machine();
    // Default threshold is five minutes of idle time.
    let r = check_idle(&mut timer, &mut internal, &settings, T0 + 400_000, Some(350));
    match r {
        Some(IdleChange::Suspended(snapshot)) => {
            assert_eq!(snapshot.phase, TimerPhase::Suspended);
            assert_eq!(snapshot.seconds_remaining, 800);
        }
        _ => panic!("expected suspension"),
    }
}

#[test]
fn test_idle_resume_starts_fresh_interval() {
    let (settings, mut timer, mut internal) = running_machine();
    check_idle(&mut timer, &mut internal, &settings, T0 + 400_000, Some(350));
    assert_eq!(timer.phase, TimerPhase::Suspended);

    // Input returns: the frozen countdown is deliberately not restored.
    let r = check_idle(&mut timer, &mut internal, &settings, T0 + 500_000, Some(2));
    match r {
        Some(IdleChange::Resumed(snapshot)) => {
            assert_eq!(snapshot.phase, TimerPhase::Working);
            assert_eq!(snapshot.seconds_remaining, 1200);
            assert_eq!(snapshot.phase_started_at, T0 + 500_000);
        }
        _ => panic!("expected a fresh working phase"),
    }
}

#[test]
fn test_idle_disabled_when_threshold_zero() {
    let (mut settings, mut timer, mut internal) = running_machine();
    settings.idle_pause_minutes = 0;
    let before = timer;
    let r = check_idle(&mut timer, &mut internal, &settings, T0 + 400_000, Some(10_000));
    assert!(r.is_none());
    assert_eq!(timer, before);
}

#[test]
fn test_idle_unavailable_decides_nothing() {
    let (settings, mut timer, mut internal) = running_machine();
    let before = timer;
    let r = check_idle(&mut timer, &mut internal, &settings, T0 + 400_000, None);
    assert!(r.is_none());
    assert_eq!(timer, before);
}

#[test]
fn test_trigger_demo_break() {
    let settings = UserSettings::default();
    let (mut timer, _) = initial_timer_state(&settings, 0, T0);
    assert!(trigger_demo_break(&mut timer, &settings, T0 + 1_000));
    assert_eq!(timer.phase, TimerPhase::Breaking);
    assert_eq!(timer.phase_duration, 5);
    assert_eq!(timer.seconds_remaining, 5);

    let mut completed = UserSettings::default();
    completed.onboarding_completed = true;
    let (mut timer, _) = initial_timer_state(&completed, 0, T0);
    let before = timer;
    assert!(!trigger_demo_break(&mut timer, &completed, T0 + 1_000));
    assert_eq!(timer, before);
}
