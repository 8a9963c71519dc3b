//! Sparrow turns a backlog of due-dated tasks, recurring calendar events and a
//! nightly sleep window into a concrete schedule.
//!
//! Every instant is a count of seconds since the Unix epoch and every span of
//! time a start instant with a length in whole minutes. The functions of this
//! crate carry contracts over that model, and Verus proves them.

pub mod calendar;
pub mod daemon;
pub mod data;
pub mod errors;
pub mod methods;
pub mod order;
pub mod prompts;
pub mod schedule;
pub mod spans;
pub mod task;
pub mod text;

pub use calendar::{Weekday, WeekdaySet};
pub use data::{Config, UserData};
pub use errors::{SparrowError, SparrowResult};
pub use schedule::{Schedule, ScheduleType};
pub use spans::{
    Bedtime, CalendarEvent, CalendarEventType, Repeat, TimeSpan, MAX_INSTANT, MIN_INSTANT,
};
pub use task::{Subtask, Task, TaskDuration};
