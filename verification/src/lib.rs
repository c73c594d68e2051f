//! Core of a periodic work/break timer for eye-strain prevention.
//!
//! The library holds the two verified halves of the application: the timer
//! phase state machine (wall-clock-correct scheduling of Working, Breaking,
//! Paused and Suspended phases together with the break-record lifecycle) and
//! the streak/rollup analytics engine (zero-filled daily rollups, consecutive
//! calendar-day streaks, lifetime totals) that consumes the records the timer
//! produces.  Presentation, persistence and platform probes live outside and
//! talk to this crate through plain values.

pub mod analytics;
pub mod clock;
pub mod csv;
pub mod date;
pub mod idle;
pub mod onboarding;
pub mod fmt;
pub mod rollup;
pub mod settings;
pub mod state;
pub mod store;
pub mod timer;
