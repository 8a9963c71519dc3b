//! The ways to make a schedule.

pub mod free_time;
pub mod ivy_lee;
pub mod pomodoro;
