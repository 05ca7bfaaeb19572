//! A personal work/break timer: the session state machine, the history
//! file's row format, and the day-bucketed aggregation of past sessions.
pub mod decimal;
pub mod clock_text;
pub mod history;
pub mod timer;
pub mod error;
pub mod calendar;
pub mod aggregate;
