//! The two ways to make a schedule, under one roof.

use crate::data::Config;
use crate::errors::{is_refusal, SparrowError};
use crate::methods::ivy_lee::{
    ivy_lee_plan, is_walk_of, skipped, IvyLeeSchedule, IvyLeeScheduleView,
};
use crate::methods::pomodoro::{
    ascending, by_due_date, entries_wf, events_are_wf, events_wf, is_first_sleep,
    latest_due_date, pomodoro_schedule, tasks_are_wf, tasks_wf, PomodoroSchedule,
    PomodoroScheduleView,
};
use crate::prompts::{is_prefix_of, lowercase, to_lowercase};
use crate::spans::{
    event_views, is_valid_instant, valid_instant, Bedtime, CalendarEvent, TimeSpan,
};
use crate::task::{task_views, Task};
use vstd::prelude::*;
use vstd::string::*;

verus! {

/// The method by which a schedule is made.
#[derive(Copy, Clone, Debug, PartialEq, Eq, Structural)]
pub enum ScheduleType {
    Pomodoro,
    IvyLee,
}

/// The method that a word in lower case names: Ivy-Lee for the start of
/// "ivylee" or of "ivy_lee", Pomodoro for the start of "pomodoro"; none
/// for anything else.
pub open spec fn schedule_type_spec(word: Seq<char>) -> Option<ScheduleType> {
    if word.is_prefix_of("ivylee"@) || word.is_prefix_of("ivy_lee"@) {
        Some(ScheduleType::IvyLee)
    } else if word.is_prefix_of("pomodoro"@) {
        Some(ScheduleType::Pomodoro)
    } else {
        None
    }
}

/// The words with which a word that names no method is refused.
pub open spec fn not_a_method(word: Seq<char>) -> Seq<char> {
    "'"@ + word + "' isn't a supported type of schedule"@
}

impl ScheduleType {
    /// The method that a word in lower case names.
    pub fn of_word(word: &str) -> (method: Result<Self, SparrowError>)
        ensures
            schedule_type_spec(word@) matches Some(t) ==> method == Ok::<
                ScheduleType,
                SparrowError,
            >(t),
            schedule_type_spec(word@) is None ==> is_refusal(method, not_a_method(word@)),
    {
        if is_prefix_of(word, "ivylee") || is_prefix_of(word, "ivy_lee") {
            Ok(ScheduleType::IvyLee)
        } else if is_prefix_of(word, "pomodoro") {
            Ok(ScheduleType::Pomodoro)
        } else {
            let mut message = String::from_str("'");
            message.append(word);
            message.append("' isn't a supported type of schedule");
            Err(SparrowError::BasicMessage(message))
        }
    }

    /// The method that a word names. Upper case does not matter.
    pub fn try_from(value: &str) -> (method: Result<Self, SparrowError>)
        ensures
            schedule_type_spec(lowercase(value@)) matches Some(t) ==> method == Ok::<
                ScheduleType,
                SparrowError,
            >(t),
            schedule_type_spec(lowercase(value@)) is None ==> is_refusal(
                method,
                not_a_method(lowercase(value@)),
            ),
    {
        let word = to_lowercase(value);
        Self::of_word(word.as_str())
    }

    /// The method that a trimmed answer to the question names. A word that
    /// names no method is refused with a hint at the choices.
    pub fn of_answer(answer: &str) -> (method: Result<Self, SparrowError>)
        ensures
            schedule_type_spec(lowercase(answer@)) matches Some(t) ==> method == Ok::<
                ScheduleType,
                SparrowError,
            >(t),
            schedule_type_spec(lowercase(answer@)) is None ==> is_refusal(
                method,
                "Enter 'pomodoro' or 'ivylee'"@,
            ),
    {
        match Self::try_from(answer) {
            Ok(method) => Ok(method),
            Err(_) => Err(
                SparrowError::BasicMessage(String::from_str("Enter 'pomodoro' or 'ivylee'")),
            ),
        }
    }
}

/// A schedule, made by one of the two methods.
#[derive(Debug)]
pub enum Schedule {
    Pomodoro(PomodoroSchedule),
    IvyLee(IvyLeeSchedule),
}

/// What a [`Schedule`] is in contracts.
pub enum ScheduleView {
    Pomodoro(PomodoroScheduleView),
    IvyLee(IvyLeeScheduleView),
}

impl View for Schedule {
    type V = ScheduleView;

    open spec fn view(&self) -> ScheduleView {
        match self {
            Schedule::Pomodoro(schedule) => ScheduleView::Pomodoro(schedule@),
            Schedule::IvyLee(schedule) => ScheduleView::IvyLee(schedule@),
        }
    }
}

impl Schedule {
    /// The method by which the schedule was made.
    pub fn method(&self) -> (method: ScheduleType)
        ensures
            method is Pomodoro <==> self is Pomodoro,
    {
        match self {
            Schedule::Pomodoro(_) => ScheduleType::Pomodoro,
            Schedule::IvyLee(_) => ScheduleType::IvyLee,
        }
    }

    /// Tells whether a schedule can be made of these inputs: the settings
    /// and the events are well formed where the Pomodoro method is asked
    /// for, the tasks are due at valid instants, the sleep window starts at
    /// a time of day, and `now` is a valid instant.
    pub fn can_make(
        method: ScheduleType,
        config: &Config,
        tasks: &Vec<Task>,
        events: &Vec<CalendarEvent>,
        bedtime: &Bedtime,
        now: i64,
    ) -> (ok: bool)
        ensures
            ok == ((method is Pomodoro ==> config.wf() && events_wf(event_views(events@)))
                && tasks_wf(task_views(tasks@)) && bedtime.wf() && valid_instant(now as int)),
    {
        let method_ok = match method {
            ScheduleType::Pomodoro => config.is_wf() && events_are_wf(events),
            ScheduleType::IvyLee => true,
        };
        method_ok && tasks_are_wf(tasks) && bedtime.start < 86_400 && is_valid_instant(now)
    }

    /// Makes a schedule at `now` by the method asked for. Fails without
    /// tasks; fails too when the local time zone gives no single valid
    /// instant where one is needed.
    pub fn make(
        method: ScheduleType,
        config: &Config,
        tasks: &Vec<Task>,
        events: &Vec<CalendarEvent>,
        bedtime: &Bedtime,
        now: i64,
    ) -> (schedule: Result<Self, SparrowError>)
        requires
            method is Pomodoro ==> config.wf() && events_wf(event_views(events@)),
            tasks_wf(task_views(tasks@)),
            bedtime.wf(),
            valid_instant(now as int),
        ensures
            tasks@.len() == 0 ==> schedule is Err,
            schedule matches Err(e) ==> (e is NoTasks <==> tasks@.len() == 0) && (e is NoTasks
                || e is InvalidTimezoneConversion),
            schedule matches Ok(Schedule::Pomodoro(s)) ==> method is Pomodoro && ascending(
                s@.entries,
            ) && entries_wf(s@.entries) && exists|sleep: TimeSpan|
                is_first_sleep(sleep, *bedtime, now as int) && s@ == #[trigger] pomodoro_schedule(
                    *config,
                    task_views(tasks@),
                    event_views(events@),
                    sleep,
                    now as int,
                ),
            schedule matches Ok(Schedule::IvyLee(s)) ==> method is IvyLee && (exists|
                first_day: int,
                starts: Seq<Option<i64>>,
            |
                is_walk_of(
                    *config,
                    *bedtime,
                    now as int,
                    latest_due_date(task_views(tasks@)),
                    first_day,
                    starts,
                ) && s@ == #[trigger] ivy_lee_plan(
                    *config,
                    by_due_date(task_views(tasks@)),
                    first_day,
                    starts,
                )) && (forall|day: int|
                skipped(*config, day) ==> !(#[trigger] s@.task_days.contains_key(day))),
    {
        match method {
            ScheduleType::Pomodoro => match PomodoroSchedule::make(
                config,
                tasks,
                events,
                bedtime,
                now,
            ) {
                Ok(schedule) => Ok(Schedule::Pomodoro(schedule)),
                Err(e) => Err(e),
            },
            ScheduleType::IvyLee => match IvyLeeSchedule::make(
                config,
                tasks,
                events,
                bedtime,
                now,
            ) {
                Ok(schedule) => Ok(Schedule::IvyLee(schedule)),
                Err(e) => Err(e),
            },
        }
    }
}

} // verus!
