//! Verified core of a tracker of player-versus-player fights recorded in
//! Elite Dangerous journals: timestamps, ships, frags, journal scanning,
//! statistics, per-day plot data and the screen state of the application.

pub mod time;
pub mod ship;
pub mod frags;
pub mod journals;
pub mod statistics;
pub mod plot;
pub mod files;
pub mod settings;
pub mod state;
