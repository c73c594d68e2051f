//! Validation of user settings: every record is checked before it is
//! applied, so the timer only ever runs on configurations in range.

use vstd::prelude::*;
use crate::state::UserSettings;

verus! {

/// Which setting was out of range.
#[derive(Clone, Copy, PartialEq, Eq, Structural, Debug)]
pub enum ConfigError {
    WorkInterval,
    BreakDuration,
    SoundVolume,
    DailyGoal,
    Theme,
}

impl ConfigError {
    /// A short description, for error reporting at the boundary.
    pub fn message(&self) -> (s: &'static str)
        ensures
            *self is WorkInterval ==> s@ == "work_interval_minutes must be between 1 and 120"@,
            *self is BreakDuration ==> s@ == "break_duration_seconds must be between 5 and 300"@,
            *self is SoundVolume ==> s@ == "sound_volume_milli must be between 0 and 1000"@,
            *self is DailyGoal ==> s@ == "daily_goal must be between 1 and 100"@,
            *self is Theme ==> s@ == "theme must be 'system', 'light', or 'dark'"@,
    {
        match self {
            ConfigError::WorkInterval => "work_interval_minutes must be between 1 and 120",
            ConfigError::BreakDuration => "break_duration_seconds must be between 5 and 300",
            ConfigError::SoundVolume => "sound_volume_milli must be between 0 and 1000",
            ConfigError::DailyGoal => "daily_goal must be between 1 and 100",
            ConfigError::Theme => "theme must be 'system', 'light', or 'dark'",
        }
    }
}

/// Every setting in range and the theme one of the three known names.
pub open spec fn spec_settings_valid(s: UserSettings) -> bool {
    &&& 1 <= s.work_interval_minutes <= 120
    &&& 5 <= s.break_duration_seconds <= 300
    &&& s.sound_volume_milli <= 1000
    &&& 1 <= s.daily_goal <= 100
    &&& (s.theme@ == "system"@ || s.theme@ == "light"@ || s.theme@ == "dark"@)
}

/// The checks in the order they are made: the first failing one names the
/// error.
pub open spec fn spec_validate_settings(s: UserSettings) -> Result<(), ConfigError> {
    if !(1 <= s.work_interval_minutes <= 120) {
        Err(ConfigError::WorkInterval)
    } else if !(5 <= s.break_duration_seconds <= 300) {
        Err(ConfigError::BreakDuration)
    } else if !(s.sound_volume_milli <= 1000) {
        Err(ConfigError::SoundVolume)
    } else if !(1 <= s.daily_goal <= 100) {
        Err(ConfigError::DailyGoal)
    } else if !(s.theme@ == "system"@ || s.theme@ == "light"@ || s.theme@ == "dark"@) {
        Err(ConfigError::Theme)
    } else {
        Ok(())
    }
}

fn theme_is(theme: &String, name: &str) -> (r: bool)
    ensures
        r == (theme@ == name@),
{
    let other = String::from_str(name);
    theme.eq(&other)
}

/// Accepts a settings record or names the first setting out of range.
pub fn validate_settings(settings: &UserSettings) -> (r: Result<(), ConfigError>)
    ensures
        r == spec_validate_settings(*settings),
        r is Ok <==> spec_settings_valid(*settings),
{
    if settings.work_interval_minutes < 1 || settings.work_interval_minutes > 120 {
        return Err(ConfigError::WorkInterval);
    }
    if settings.break_duration_seconds < 5 || settings.break_duration_seconds > 300 {
        return Err(ConfigError::BreakDuration);
    }
    if settings.sound_volume_milli > 1000 {
        return Err(ConfigError::SoundVolume);
    }
    if settings.daily_goal < 1 || settings.daily_goal > 100 {
        return Err(ConfigError::DailyGoal);
    }
    if !(theme_is(&settings.theme, "system") || theme_is(&settings.theme, "light") || theme_is(
        &settings.theme,
        "dark",
    )) {
        return Err(ConfigError::Theme);
    }
    Ok(())
}

} // verus!
