//! A personal time tracker: projects accumulate `HH:MM:SS` durations per
//! calendar day, driven by a start / pause / resume / stop state machine.
pub mod clock;
pub mod duration;
pub mod laws;
pub mod order;
pub mod project;
pub mod tracker;
