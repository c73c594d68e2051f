use blinky::date::date_of_ms;
use blinky::date::format_date;
use blinky::date::from_day_number;
use blinky::date::parse_date;
use blinky::date::Date;
use blinky::date::ValidationError;
use blinky::fmt::format_time;
use blinky::idle::get_idle_seconds;
use blinky::settings::validate_settings;
use blinky::settings::ConfigError;
use blinky::state::UserSettings;

#[test]
fn test_format_time_values() {
    assert_eq!(format_time(0), "00:00");
    assert_eq!(format_time(59), "00:59");
    assert_eq!(format_time(1200), "20:00");
    assert_eq!(format_time(3601), "60:01");
}

#[test]
fn test_parse_date_valid() {
    assert_eq!(parse_date("2024-02-29"), Ok(Date { year: 2024, month: 2, day: 29 }));
    assert_eq!(parse_date("1970-01-01"), Ok(Date { year: 1970, month: 1, day: 1 }));
    assert_eq!(parse_date("9999-12-31"), Ok(Date { year: 9999, month: 12, day: 31 }));
}

#[test]
fn test_parse_date_rejects_malformed_text() {
    assert_eq!(parse_date(""), Err(ValidationError::BadFormat));
    assert_eq!(parse_date("2024/02/01"), Err(ValidationError::BadFormat));
    assert_eq!(parse_date("20240201"), Err(ValidationError::BadFormat));
    assert_eq!(parse_date("2024-2-01"), Err(ValidationError::BadFormat));
    assert_eq!(parse_date("2024-02-0a"), Err(ValidationError::BadFormat));
}

#[test]
fn test_parse_date_rejects_impossible_days() {
    assert_eq!(parse_date("2023-02-29"), Err(ValidationError::BadValue));
    assert_eq!(parse_date("2024-13-01"), Err(ValidationError::BadValue));
    assert_eq!(parse_date("2024-00-10"), Err(ValidationError::BadValue));
    assert_eq!(parse_date("2024-04-31"), Err(ValidationError::BadValue));
    assert_eq!(parse_date("1969-12-31"), Err(ValidationError::BadValue));
}

#[test]
fn test_format_parse_round_trip() {
    let d = Date { year: 2024, month: 2, day: 29 };
    let text = format_date(&d);
    assert_eq!(text, "2024-02-29");
    assert_eq!(parse_date(&text), Ok(d));
}

#[test]
fn test_day_number_known_values() {
    assert_eq!(Date { year: 1970, month: 1, day: 1 }.day_number(), 0);
    assert_eq!(Date { year: 1970, month: 1, day: 2 }.day_number(), 1);
    assert_eq!(Date { year: 2000, month: 1, day: 1 }.day_number(), 10957);
}

#[test]
fn test_from_day_number_round_trip() {
    assert_eq!(from_day_number(10957), Date { year: 2000, month: 1, day: 1 });
    let d = Date { year: 2024, month: 12, day: 31 };
    assert_eq!(from_day_number(d.day_number()), d);
}

#[test]
fn test_date_of_ms_boundaries() {
    assert_eq!(date_of_ms(0), Some(Date { year: 1970, month: 1, day: 1 }));
    assert_eq!(date_of_ms(86_399_999), Some(Date { year: 1970, month: 1, day: 1 }));
    assert_eq!(date_of_ms(86_400_000), Some(Date { year: 1970, month: 1, day: 2 }));
}

#[test]
fn test_validate_settings_accepts_defaults() {
    assert_eq!(validate_settings(&UserSettings::default()), Ok(()));
}

#[test]
fn test_validate_settings_rejects_each_field() {
    let mut s = UserSettings::default();
    s.work_interval_minutes = 0;
    assert_eq!(validate_settings(&s), Err(ConfigError::WorkInterval));

    let mut s = UserSettings::default();
    s.break_duration_seconds = 301;
    assert_eq!(validate_settings(&s), Err(ConfigError::BreakDuration));

    let mut s = UserSettings::default();
    s.sound_volume_milli = 1001;
    assert_eq!(validate_settings(&s), Err(ConfigError::SoundVolume));

    let mut s = UserSettings::default();
    s.daily_goal = 101;
    assert_eq!(validate_settings(&s), Err(ConfigError::DailyGoal));

    let mut s = UserSettings::default();
    s.theme = "sepia".to_string();
    assert_eq!(validate_settings(&s), Err(ConfigError::Theme));
}

#[test]
fn test_library_idle_probe_is_unavailable() {
    assert_eq!(get_idle_seconds(), None);
}
