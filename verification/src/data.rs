//! What the user keeps: settings, tasks, events and schedules.

use crate::calendar::WeekdaySet;
use crate::methods::ivy_lee::IvyLeeSchedule;
use crate::methods::pomodoro::PomodoroSchedule;
use crate::spans::{Bedtime, CalendarEvent};
use crate::task::Task;
use vstd::prelude::*;
use vstd::string::*;

verus! {

/// The user's settings.
#[derive(Debug)]
pub struct Config {
    /// Date format used when parsing/formatting dates.
    pub date_format: String,
    /// Time format used when parsing/formatting time.
    pub time_format: String,
    /// How long a work period should last.
    pub work_minutes: u32,
    /// How long to take a break between single work periods.
    pub short_break_minutes: u32,
    /// How long to take a break between job sessions.
    pub long_break_minutes: u32,
    /// How many work periods make up a job session.
    pub work_periods_per_job_session: u32,
    /// Allow repeating job sessions for the same task one after another.
    pub allow_repeats: bool,
    /// How long before the next job/break starts the user is notified.
    pub next_event_warning_minutes: u32,
    /// Weekdays to skip, if any.
    pub skip_days: WeekdaySet,
    /// Maximum number of tasks allowed to be scheduled per day with the
    /// Ivy-Lee method.
    pub ivy_lee_tasks_per_day: u32,
}

impl Config {
    /// The settings make sense for scheduling: a work period takes some time,
    /// a job session holds at least one, and the length of a whole job
    /// session in minutes fits the length of a span of time.
    pub open spec fn wf(self) -> bool {
        &&& self.work_minutes > 0
        &&& self.work_periods_per_job_session > 0
        &&& self.session_minutes() <= u32::MAX
    }

    /// The length of a whole job session in minutes: its work periods, the
    /// short breaks between them and the long break that closes it.
    pub open spec fn session_minutes(self) -> int {
        self.work_periods_per_job_session * self.work_minutes + (
        self.work_periods_per_job_session - 1) * self.short_break_minutes
            + self.long_break_minutes
    }

    /// Tells whether the settings make sense for scheduling.
    pub fn is_wf(&self) -> (ok: bool)
        ensures
            ok == self.wf(),
    {
        if self.work_minutes == 0 || self.work_periods_per_job_session == 0 {
            return false;
        }
        let periods = self.work_periods_per_job_session as u128;
        assert(periods * self.work_minutes <= 0xffff_ffff * 0xffff_ffff) by (nonlinear_arith)
            requires
                periods <= 0xffff_ffff,
                self.work_minutes <= 0xffff_ffff,
        ;
        assert((periods - 1) * self.short_break_minutes <= 0xffff_ffff * 0xffff_ffff)
            by (nonlinear_arith)
            requires
                1 <= periods <= 0xffff_ffff,
                self.short_break_minutes <= 0xffff_ffff,
        ;
        let minutes: u128 = periods * self.work_minutes as u128 + (periods - 1)
            * self.short_break_minutes as u128 + self.long_break_minutes as u128;
        minutes <= u32::MAX as u128
    }
}

impl Clone for Config {
    fn clone(&self) -> (copy: Self)
        ensures
            copy == *self,
    {
        Config {
            date_format: self.date_format.clone(),
            time_format: self.time_format.clone(),
            work_minutes: self.work_minutes,
            short_break_minutes: self.short_break_minutes,
            long_break_minutes: self.long_break_minutes,
            work_periods_per_job_session: self.work_periods_per_job_session,
            allow_repeats: self.allow_repeats,
            next_event_warning_minutes: self.next_event_warning_minutes,
            skip_days: self.skip_days,
            ivy_lee_tasks_per_day: self.ivy_lee_tasks_per_day,
        }
    }
}

impl Default for Config {
    fn default() -> (config: Self)
        ensures
            config.date_format@ == "%Y/%m/%d"@,
            config.time_format@ == "%H:%M"@,
            config.work_minutes == 25,
            config.short_break_minutes == 5,
            config.long_break_minutes == 15,
            config.work_periods_per_job_session == 4,
            !config.allow_repeats,
            config.next_event_warning_minutes == 5,
            config.skip_days@ == Set::<crate::calendar::Weekday>::empty(),
            config.ivy_lee_tasks_per_day == 6,
            config.wf(),
    {
        Self {
            date_format: String::from_str("%Y/%m/%d"),
            time_format: String::from_str("%H:%M"),
            work_minutes: 25,
            short_break_minutes: 5,
            long_break_minutes: 15,
            work_periods_per_job_session: 4,
            allow_repeats: false,
            next_event_warning_minutes: 5,
            skip_days: WeekdaySet::new(),
            ivy_lee_tasks_per_day: 6,
        }
    }
}

/// Everything the user keeps: settings, sleep window, tasks, events and the
/// schedules made last.
#[derive(Debug)]
pub struct UserData {
    pub config: Config,
    pub bedtime: Bedtime,
    pub tasks: Vec<Task>,
    pub events: Vec<CalendarEvent>,
    pub pomodoro_schedule: Option<PomodoroSchedule>,
    pub ivy_lee_schedule: Option<IvyLeeSchedule>,
}

impl Default for UserData {
    /// Default settings and sleep window, no tasks, no events, no
    /// schedules.
    fn default() -> (data: Self)
        ensures
            data.config.wf(),
            data.config.work_minutes == 25,
            data.bedtime == (Bedtime { start: 72_000, minutes: 600 }),
            data.tasks@.len() == 0,
            data.events@.len() == 0,
            data.pomodoro_schedule is None,
            data.ivy_lee_schedule is None,
    {
        UserData {
            config: Config::default(),
            bedtime: Bedtime::default(),
            tasks: Vec::new(),
            events: Vec::new(),
            pomodoro_schedule: None,
            ivy_lee_schedule: None,
        }
    }
}

impl UserData {
    pub fn add_task(&mut self, task: Task)
        ensures
            final(self).tasks@ == old(self).tasks@.push(task),
            final(self).config == old(self).config,
            final(self).bedtime == old(self).bedtime,
            final(self).events == old(self).events,
            final(self).pomodoro_schedule == old(self).pomodoro_schedule,
            final(self).ivy_lee_schedule == old(self).ivy_lee_schedule,
    {
        self.tasks.push(task);
    }

    pub fn add_event(&mut self, event: CalendarEvent)
        ensures
            final(self).events@ == old(self).events@.push(event),
            final(self).config == old(self).config,
            final(self).bedtime == old(self).bedtime,
            final(self).tasks == old(self).tasks,
            final(self).pomodoro_schedule == old(self).pomodoro_schedule,
            final(self).ivy_lee_schedule == old(self).ivy_lee_schedule,
    {
        self.events.push(event);
    }

    pub fn get_config(&self) -> (config: &Config)
        ensures
            *config == self.config,
    {
        &self.config
    }

    pub fn get_tasks(&self) -> (tasks: &Vec<Task>)
        ensures
            *tasks == self.tasks,
    {
        &self.tasks
    }

    pub fn get_events(&self) -> (events: &Vec<CalendarEvent>)
        ensures
            *events == self.events,
    {
        &self.events
    }

    pub fn get_pomodoro_schedule(&self) -> (schedule: &Option<PomodoroSchedule>)
        ensures
            *schedule == self.pomodoro_schedule,
    {
        &self.pomodoro_schedule
    }

    pub fn set_pomodoro_schedule(&mut self, schedule: PomodoroSchedule)
        ensures
            final(self).pomodoro_schedule == Some(schedule),
            final(self).config == old(self).config,
            final(self).bedtime == old(self).bedtime,
            final(self).tasks == old(self).tasks,
            final(self).events == old(self).events,
            final(self).ivy_lee_schedule == old(self).ivy_lee_schedule,
    {
        self.pomodoro_schedule = Some(schedule);
    }

    pub fn get_ivy_lee_schedule(&self) -> (schedule: &Option<IvyLeeSchedule>)
        ensures
            *schedule == self.ivy_lee_schedule,
    {
        &self.ivy_lee_schedule
    }

    pub fn set_ivy_lee_schedule(&mut self, schedule: IvyLeeSchedule)
        ensures
            final(self).ivy_lee_schedule == Some(schedule),
            final(self).config == old(self).config,
            final(self).bedtime == old(self).bedtime,
            final(self).tasks == old(self).tasks,
            final(self).events == old(self).events,
            final(self).pomodoro_schedule == old(self).pomodoro_schedule,
    {
        self.ivy_lee_schedule = Some(schedule);
    }

    pub fn delete_pomodoro_schedule(&mut self)
        ensures
            final(self).pomodoro_schedule is None,
            final(self).config == old(self).config,
            final(self).bedtime == old(self).bedtime,
            final(self).tasks == old(self).tasks,
            final(self).events == old(self).events,
            final(self).ivy_lee_schedule == old(self).ivy_lee_schedule,
    {
        self.pomodoro_schedule = None;
    }

    pub fn get_bedtime(&self) -> (bedtime: &Bedtime)
        ensures
            *bedtime == self.bedtime,
    {
        &self.bedtime
    }
}

} // verus!
