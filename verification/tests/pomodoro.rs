use chrono::TimeZone;
use sparrow::methods::pomodoro::{
    breaks_to_schedule_entries, entries_are_wf, events_are_wf, expand, fill_session,
    first_sleep, last_due_date, sort_entries, sort_tasks, tasks_are_wf, unfinished,
    unscheduled_periods_from_tasks, PomodoroSchedule, PomodoroScheduleEntry, UnscheduledPeriod,
    WorkSession,
};
use sparrow::{
    Bedtime, CalendarEvent, CalendarEventType, Config, Repeat, Schedule, ScheduleType,
    SparrowError, Subtask, Task, TaskDuration, TimeSpan, WeekdaySet, MAX_INSTANT,
};

const DAY: i64 = 86_400;

fn at(day: i64, hour: i64, minute: i64) -> i64 {
    day * DAY + hour * 3600 + minute * 60
}

fn task(name: &str, due_date: i64, minutes: u64) -> Task {
    Task {
        name: name.to_string(),
        due_date,
        duration: TaskDuration::Minutes(minutes),
        done: false,
        consideration_period_days: 3,
    }
}

fn event(name: &str, start: i64, minutes: u32, repeat: Repeat) -> CalendarEvent {
    CalendarEvent {
        name: name.to_string(),
        time_span: TimeSpan::new(start, minutes),
        event_type: CalendarEventType::Event,
        repeat,
    }
}

fn line(entry: &PomodoroScheduleEntry) -> (&'static str, String, i64, u32) {
    let kind = match entry {
        PomodoroScheduleEntry::Job { .. } => "job",
        PomodoroScheduleEntry::Calendar { .. } => "calendar",
        PomodoroScheduleEntry::Break(_) => "break",
        PomodoroScheduleEntry::Sleep(_) => "sleep",
    };
    (kind, entry.title().to_string(), entry.span().start(), entry.span().minutes())
}

fn lines(entries: &[PomodoroScheduleEntry]) -> Vec<(&'static str, String, i64, u32)> {
    entries.iter().map(line).collect()
}

fn job(title: &str, start: i64, minutes: u32) -> (&'static str, String, i64, u32) {
    ("job", title.to_string(), start, minutes)
}

fn pause(start: i64, minutes: u32) -> (&'static str, String, i64, u32) {
    ("break", "Break".to_string(), start, minutes)
}

fn sleep(start: i64, minutes: u32) -> (&'static str, String, i64, u32) {
    ("sleep", "Sleep".to_string(), start, minutes)
}

fn units(list: &[(&str, u64)]) -> Vec<UnscheduledPeriod> {
    list.iter()
        .map(|(name, periods)| UnscheduledPeriod { name: name.to_string(), periods_left: *periods })
        .collect()
}

fn unit_lines(list: &[UnscheduledPeriod]) -> Vec<(String, u64)> {
    list.iter().map(|u| (u.name.clone(), u.periods_left)).collect()
}

#[test]
fn a_span_that_never_repeats_occurs_once() {
    let anchor = TimeSpan::new(at(19_000, 10, 0), 30);
    assert_eq!(expand(&anchor, &Repeat::Never, at(19_010, 0, 0)), vec![anchor]);
}

#[test]
fn nothing_occurs_at_or_after_the_horizon() {
    let anchor = TimeSpan::new(at(19_000, 10, 0), 30);
    let weekly = Repeat::Weekly(WeekdaySet::new());
    for repeat in [Repeat::Never, Repeat::Daily, weekly] {
        assert_eq!(expand(&anchor, &repeat, at(19_000, 10, 0)), vec![]);
        assert_eq!(expand(&anchor, &repeat, at(18_000, 0, 0)), vec![]);
        assert_eq!(expand(&anchor, &repeat, at(19_000, 10, 0) + 1), vec![anchor]);
    }
}

#[test]
fn a_daily_span_occurs_every_day_before_the_horizon() {
    let anchor = TimeSpan::new(at(19_000, 10, 0), 30);
    let spans = expand(&anchor, &Repeat::Daily, at(19_003, 10, 0));
    assert_eq!(
        spans,
        vec![
            TimeSpan::new(at(19_000, 10, 0), 30),
            TimeSpan::new(at(19_001, 10, 0), 30),
            TimeSpan::new(at(19_002, 10, 0), 30),
        ]
    );
    assert_eq!(expand(&anchor, &Repeat::Daily, at(19_003, 10, 0) + 1).len(), 4);
}

#[test]
fn a_weekly_span_occurs_at_multiples_of_seven_days() {
    let anchor = TimeSpan::new(at(19_000, 10, 0), 45);
    let horizon = at(19_030, 0, 0);
    let spans = expand(&anchor, &Repeat::Weekly(WeekdaySet::new()), horizon);
    assert_eq!(spans.len(), 5);
    for (k, span) in spans.iter().enumerate() {
        assert_eq!(span.start(), anchor.start() + k as i64 * 7 * DAY);
        assert_eq!(span.minutes(), 45);
        assert!(span.start() < horizon);
    }
    assert!(anchor.start() + 5 * 7 * DAY >= horizon);
}

#[test]
fn entry_titles_and_spans() {
    let span = TimeSpan::new(at(19_000, 10, 0), 30);
    let work = PomodoroScheduleEntry::Job { title: "write".to_string(), span };
    let meeting = PomodoroScheduleEntry::Calendar { name: "standup".to_string(), span };
    assert_eq!(work.title(), "write");
    assert_eq!(meeting.title(), "standup");
    assert_eq!(PomodoroScheduleEntry::Break(span).title(), "Break");
    assert_eq!(PomodoroScheduleEntry::Sleep(span).title(), "Sleep");
    assert_eq!(*work.span(), span);
    assert_eq!(*PomodoroScheduleEntry::Sleep(span).span(), span);
}

#[test]
fn sorting_entries_is_stable() {
    let early = TimeSpan::new(at(19_000, 8, 0), 10);
    let late = TimeSpan::new(at(19_000, 9, 0), 10);
    let entries = vec![
        PomodoroScheduleEntry::Job { title: "b".to_string(), span: late },
        PomodoroScheduleEntry::Job { title: "a".to_string(), span: early },
        PomodoroScheduleEntry::Break(late),
        PomodoroScheduleEntry::Sleep(early),
        PomodoroScheduleEntry::Job { title: "c".to_string(), span: late },
    ];
    let sorted = sort_entries(&entries);
    assert_eq!(
        lines(&sorted),
        vec![
            job("a", early.start(), 10),
            sleep(early.start(), 10),
            job("b", late.start(), 10),
            pause(late.start(), 10),
            job("c", late.start(), 10),
        ]
    );
}

#[test]
fn fixed_entries_hold_events_breaks_and_sleep_in_order() {
    let events = vec![
        event("lunch", at(19_000, 12, 0), 60, Repeat::Daily),
        CalendarEvent {
            name: String::new(),
            time_span: TimeSpan::new(at(19_000, 15, 0), 20),
            event_type: CalendarEventType::Break,
            repeat: Repeat::Never,
        },
        event("review", at(19_001, 9, 0), 30, Repeat::Weekly(WeekdaySet::new())),
    ];
    let sleep_span = TimeSpan::new(at(18_999, 22, 0), 480);
    let entries = breaks_to_schedule_entries(&events, at(19_001, 12, 0), &sleep_span);
    assert_eq!(
        lines(&entries),
        vec![
            sleep(at(18_999, 22, 0), 480),
            ("calendar", "lunch".to_string(), at(19_000, 12, 0), 60),
            pause(at(19_000, 15, 0), 20),
            sleep(at(19_000, 22, 0), 480),
            ("calendar", "review".to_string(), at(19_001, 9, 0), 30),
        ]
    );
}

#[test]
fn work_is_cut_into_whole_periods_rounded_up() {
    let config = Config::default();
    let now = at(19_000, 9, 0);
    let tasks = vec![
        task("exact", now + DAY, 50),
        task("over", now + DAY, 51),
        task("tiny", now + DAY, 1),
        task("none", now + DAY, 0),
    ];
    let found = unscheduled_periods_from_tasks(&config, &tasks, now);
    assert_eq!(
        unit_lines(&found),
        vec![
            ("exact".to_string(), 2),
            ("over".to_string(), 3),
            ("tiny".to_string(), 1),
            ("none".to_string(), 0),
        ]
    );
}

#[test]
fn subtasks_give_one_unit_each() {
    let config = Config::default();
    let now = at(19_000, 9, 0);
    let tasks = vec![Task {
        name: "essay".to_string(),
        due_date: now + DAY,
        duration: TaskDuration::Subtasks(vec![
            Subtask { name: "outline".to_string(), duration: 20 },
            Subtask { name: "draft".to_string(), duration: 60 },
        ]),
        done: false,
        consideration_period_days: 3,
    }];
    let found = unscheduled_periods_from_tasks(&config, &tasks, now);
    assert_eq!(
        unit_lines(&found),
        vec![("essay: outline".to_string(), 1), ("essay: draft".to_string(), 3)]
    );
}

#[test]
fn done_and_overdue_tasks_give_no_work() {
    let config = Config::default();
    let now = at(19_000, 9, 0);
    let mut finished = task("finished", now + DAY, 50);
    finished.done = true;
    let tasks =
        vec![finished, task("late", now - 1, 50), task("due now", now, 50), task("open", now + 1, 50)];
    let found = unscheduled_periods_from_tasks(&config, &tasks, now);
    assert_eq!(unit_lines(&found), vec![("open".to_string(), 2)]);
}

#[test]
fn huge_durations_do_not_overflow() {
    let mut config = Config::default();
    config.work_minutes = 1;
    let now = at(19_000, 9, 0);
    let found = unscheduled_periods_from_tasks(&config, &vec![task("forever", now + DAY, u64::MAX)], now);
    assert_eq!(unit_lines(&found), vec![("forever".to_string(), u64::MAX)]);
    config.work_minutes = u32::MAX;
    let unit = UnscheduledPeriod { name: "forever".to_string(), periods_left: u64::MAX };
    assert_eq!(unit.minutes_left(&config), u64::MAX as u128 * u32::MAX as u128);
}

#[test]
fn tasks_sort_by_due_date_and_ties_keep_their_order() {
    let tasks = vec![
        task("c", at(19_003, 0, 0), 10),
        task("a1", at(19_001, 0, 0), 10),
        task("b", at(19_002, 0, 0), 10),
        task("a2", at(19_001, 0, 0), 10),
    ];
    let sorted = sort_tasks(&tasks);
    let names: Vec<&str> = sorted.iter().map(|t| t.name.as_str()).collect();
    assert_eq!(names, vec!["a1", "a2", "b", "c"]);
    assert_eq!(last_due_date(&tasks), Some(at(19_003, 0, 0)));
    assert_eq!(last_due_date(&vec![]), None);
}

#[test]
fn session_length_counts_work_short_breaks_and_the_long_break() {
    let mut config = Config::default();
    assert_eq!(WorkSession::len_minutes(&config), 4 * 25 + 3 * 5 + 15);
    config.work_periods_per_job_session = 1;
    assert_eq!(WorkSession::len_minutes(&config), 25 + 15);
    config.work_periods_per_job_session = 3;
    config.work_minutes = 50;
    config.short_break_minutes = 10;
    config.long_break_minutes = 30;
    assert_eq!(WorkSession::len_minutes(&config), 3 * 50 + 2 * 10 + 30);
}

#[test]
fn a_session_takes_jobs_until_it_is_full() {
    let config = Config::default();
    let start = at(19_000, 9, 0);
    let mut session = WorkSession::new(start, &config);
    assert!(!session.full());
    assert_eq!(session.ending(), start);
    assert!(session.into_entries().is_empty());
    for name in ["a", "b", "c"] {
        session.add_job(name);
        assert!(!session.full());
    }
    session.add_job("d");
    assert!(session.full());
    assert_eq!(session.job_names, vec!["a", "b", "c", "d"]);
    assert_eq!(session.ending(), start + (4 * 25 + 3 * 5) * 60);
}

#[test]
fn a_session_turns_into_jobs_with_breaks_between_them() {
    let config = Config::default();
    let start = at(19_000, 9, 0);
    let mut session = WorkSession::new(start, &config);
    session.add_job("a");
    assert_eq!(lines(&session.into_entries()), vec![job("a", start, 25)]);
    assert_eq!(session.ending(), start + 25 * 60);
    session.add_job("b");
    session.add_job("c");
    assert_eq!(
        lines(&session.into_entries()),
        vec![
            job("a", start, 25),
            pause(start + 25 * 60, 25),
            job("b", start + 30 * 60, 25),
            pause(start + 55 * 60, 25),
            job("c", start + 60 * 60, 25),
        ]
    );
    assert_eq!(session.ending(), start + 85 * 60);
}

#[test]
fn a_break_inside_a_session_is_entered_with_the_length_of_a_work_period() {
    let mut config = Config::default();
    config.work_minutes = 40;
    config.short_break_minutes = 7;
    let start = at(19_000, 9, 0);
    let mut session = WorkSession::new(start, &config);
    session.add_job("a");
    session.add_job("b");
    assert_eq!(
        lines(&session.into_entries()),
        vec![job("a", start, 40), pause(start + 40 * 60, 40), job("b", start + 47 * 60, 40)]
    );
}

#[test]
fn free_time_is_cut_into_whole_sessions() {
    let config = Config::default();
    let now = at(19_000, 9, 0);
    let schedule = PomodoroSchedule {
        entries: vec![
            PomodoroScheduleEntry::Sleep(TimeSpan::new(at(18_999, 22, 0), 480)),
            PomodoroScheduleEntry::Calendar {
                name: "lunch".to_string(),
                span: TimeSpan::new(at(19_000, 12, 0), 60),
            },
            PomodoroScheduleEntry::Calendar {
                name: "call".to_string(),
                span: TimeSpan::new(at(19_000, 15, 20), 30),
            },
        ],
        unscheduled: vec![],
    };
    let sessions = schedule.get_open_work_sessions(&config, now, at(19_000, 20, 0));
    let starts: Vec<i64> = sessions.iter().map(|s| s.start).collect();
    assert_eq!(
        starts,
        vec![at(19_000, 9, 0), at(19_000, 13, 0), at(19_000, 15, 50)]
    );
    let longer = schedule.get_open_work_sessions(&config, now, at(19_000, 20, 10));
    assert_eq!(longer.len(), 4);
    assert_eq!(longer[3].start, at(19_000, 18, 0));
    for session in sessions.iter() {
        assert!(session.job_names.is_empty());
        assert_eq!(session.max_jobs, 4);
        assert_eq!(session.job_len_minutes, 25);
        assert_eq!(session.break_len_minutes, 5);
    }
}

#[test]
fn free_time_ends_at_the_horizon_and_starts_now() {
    let config = Config::default();
    let now = at(19_000, 9, 0);
    let schedule = PomodoroSchedule {
        entries: vec![
            PomodoroScheduleEntry::Break(TimeSpan::new(at(19_000, 8, 0), 120)),
            PomodoroScheduleEntry::Break(TimeSpan::new(at(19_000, 14, 0), 60)),
            PomodoroScheduleEntry::Break(TimeSpan::new(at(19_000, 20, 0), 60)),
        ],
        unscheduled: vec![],
    };
    let sessions = schedule.get_open_work_sessions(&config, now, at(19_000, 17, 30));
    let starts: Vec<i64> = sessions.iter().map(|s| s.start).collect();
    assert_eq!(starts, vec![at(19_000, 10, 0), at(19_000, 15, 0)]);
    let none = schedule.get_open_work_sessions(&config, now, at(19_000, 9, 0));
    assert!(none.is_empty());
    let exact = PomodoroSchedule { entries: vec![], unscheduled: vec![] }
        .get_open_work_sessions(&config, now, now + 130 * 60);
    assert_eq!(exact.len(), 1);
    let short = PomodoroSchedule { entries: vec![], unscheduled: vec![] }
        .get_open_work_sessions(&config, now, now + 130 * 60 - 1);
    assert!(short.is_empty());
}

#[test]
fn time_under_an_entry_that_covers_another_is_not_free() {
    let config = Config::default();
    let now = at(19_000, 9, 0);
    let schedule = PomodoroSchedule {
        entries: vec![
            PomodoroScheduleEntry::Sleep(TimeSpan::new(at(19_000, 10, 0), 600)),
            PomodoroScheduleEntry::Calendar {
                name: "alarm".to_string(),
                span: TimeSpan::new(at(19_000, 11, 0), 10),
            },
        ],
        unscheduled: vec![],
    };
    let sessions = schedule.get_open_work_sessions(&config, now, at(19_001, 0, 0));
    let starts: Vec<i64> = sessions.iter().map(|s| s.start).collect();
    assert_eq!(starts, vec![at(19_000, 20, 0)]);
}

#[test]
fn a_session_is_filled_from_the_front_of_the_queue() {
    let config = Config::default();
    let mut session = WorkSession::new(at(19_000, 9, 0), &config);
    let rest = fill_session(&mut session, &units(&[("a", 1), ("none", 0), ("b", 5), ("c", 2)]));
    assert_eq!(session.job_names, vec!["a", "b", "b", "b"]);
    assert_eq!(unit_lines(&rest), vec![("b".to_string(), 2), ("c".to_string(), 2)]);
    let mut next = WorkSession::new(at(19_000, 12, 0), &config);
    let rest = fill_session(&mut next, &rest);
    assert_eq!(next.job_names, vec!["b", "b", "c", "c"]);
    assert!(rest.is_empty());
    let mut last = WorkSession::new(at(19_000, 15, 0), &config);
    let rest = fill_session(&mut last, &rest);
    assert!(last.job_names.is_empty());
    assert!(rest.is_empty());
}

#[test]
fn a_full_session_takes_nothing() {
    let config = Config::default();
    let mut session = WorkSession::new(at(19_000, 9, 0), &config);
    for name in ["w", "x", "y", "z"] {
        session.add_job(name);
    }
    let rest = fill_session(&mut session, &units(&[("a", 1), ("b", 0)]));
    assert_eq!(session.job_names, vec!["w", "x", "y", "z"]);
    assert_eq!(unit_lines(&rest), vec![("a".to_string(), 1), ("b".to_string(), 0)]);
    assert_eq!(unit_lines(&unfinished(&rest)), vec![("a".to_string(), 1)]);
}

#[test]
fn one_task_of_fifty_minutes_gets_two_jobs() {
    let config = Config::default();
    let now = at(19_000, 9, 0);
    let due = now + 2 * DAY;
    let tasks = vec![task("report", due, 50)];
    let first_night = TimeSpan::new(at(18_999, 20, 0), 600);
    let schedule =
        PomodoroSchedule::assemble(&config, &tasks, &vec![], &first_night, now).unwrap();
    let all = lines(schedule.get_entries());
    let jobs: Vec<_> = all.iter().filter(|l| l.0 == "job").cloned().collect();
    assert_eq!(jobs, vec![job("report", at(19_000, 9, 0), 25), job("report", at(19_000, 9, 30), 25)]);
    for (_, _, start, minutes) in jobs.iter() {
        assert!(start + *minutes as i64 * 60 <= due);
    }
    assert_eq!(
        all,
        vec![
            sleep(at(18_999, 20, 0), 600),
            job("report", at(19_000, 9, 0), 25),
            pause(at(19_000, 9, 25), 25),
            job("report", at(19_000, 9, 30), 25),
            pause(at(19_000, 9, 55), 15),
            sleep(at(19_000, 20, 0), 600),
            sleep(at(19_001, 20, 0), 600),
        ]
    );
    assert!(all.windows(2).all(|pair| pair[0].2 <= pair[1].2));
    assert!(schedule.get_unscheduled().is_empty());
}

#[test]
fn a_session_without_a_job_adds_nothing() {
    let config = Config::default();
    let now = at(19_000, 9, 0);
    let mut finished = task("finished", now + 150 * 60, 50);
    finished.done = true;
    let mut schedule = PomodoroSchedule { entries: vec![], unscheduled: vec![] };
    let open = schedule.get_open_work_sessions(&config, now, now + 150 * 60);
    assert_eq!(open.len(), 1);
    schedule.fill_free_time(&config, &vec![finished], now, now + 150 * 60);
    assert!(schedule.get_entries().is_empty());
    assert!(schedule.get_unscheduled().is_empty());
}

#[test]
fn the_long_break_follows_the_last_job_of_each_session_that_has_one() {
    let config = Config::default();
    let now = at(19_000, 9, 0);
    let until = now + 3 * 130 * 60;
    let tasks = vec![task("a", until, 125)];
    let mut schedule = PomodoroSchedule { entries: vec![], unscheduled: vec![] };
    assert_eq!(schedule.get_open_work_sessions(&config, now, until).len(), 3);
    schedule.fill_free_time(&config, &tasks, now, until);
    let second = now + 130 * 60;
    assert_eq!(
        lines(schedule.get_entries()),
        vec![
            job("a", now, 25),
            pause(now + 25 * 60, 25),
            job("a", now + 30 * 60, 25),
            pause(now + 55 * 60, 25),
            job("a", now + 60 * 60, 25),
            pause(now + 85 * 60, 25),
            job("a", now + 90 * 60, 25),
            pause(now + 115 * 60, 15),
            job("a", second, 25),
            pause(second + 25 * 60, 15),
        ]
    );
    assert!(schedule.get_unscheduled().is_empty());
}

#[test]
fn work_that_does_not_fit_is_reported() {
    let config = Config::default();
    let now = at(19_000, 9, 0);
    let due = at(19_000, 16, 0);
    let tasks = vec![task("thesis", due, 2000)];
    let events = vec![event("lunch", at(19_000, 12, 0), 60, Repeat::Never)];
    let first_night = TimeSpan::new(at(18_999, 20, 0), 600);
    let schedule = PomodoroSchedule::assemble(&config, &tasks, &events, &first_night, now).unwrap();
    let all = lines(schedule.get_entries());
    let jobs: Vec<_> = all.iter().filter(|l| l.0 == "job").cloned().collect();
    assert_eq!(jobs.len(), 8);
    assert_eq!(jobs[0], job("thesis", at(19_000, 9, 0), 25));
    assert_eq!(jobs[4], job("thesis", at(19_000, 13, 0), 25));
    assert_eq!(jobs[7], job("thesis", at(19_000, 14, 30), 25));
    for (_, _, start, minutes) in jobs.iter() {
        assert!(start + *minutes as i64 * 60 <= due);
    }
    let left = schedule.get_unscheduled();
    assert_eq!(unit_lines(left), vec![("thesis".to_string(), 72)]);
    assert_eq!(left[0].minutes_left(&config), 1800);
    assert!(left[0].minutes_left(&config) > 0);
}

#[test]
fn work_is_packed_in_order_of_due_date() {
    let config = Config::default();
    let now = at(19_000, 9, 0);
    let tasks = vec![
        task("later", at(19_000, 20, 0), 75),
        task("sooner", at(19_000, 18, 0), 50),
    ];
    let first_night = TimeSpan::new(at(18_999, 20, 0), 600);
    let schedule =
        PomodoroSchedule::assemble(&config, &tasks, &vec![], &first_night, now).unwrap();
    let titles: Vec<String> = lines(schedule.get_entries())
        .into_iter()
        .filter(|l| l.0 == "job")
        .map(|l| l.1)
        .collect();
    assert_eq!(titles, vec!["sooner", "sooner", "later", "later", "later"]);
}

#[test]
fn the_same_inputs_give_the_same_schedule() {
    let config = Config::default();
    let now = at(19_000, 9, 0);
    let tasks = vec![task("a", now + DAY, 300), task("b", now + 3 * DAY, 45)];
    let events = vec![event("lunch", at(19_000, 12, 0), 60, Repeat::Daily)];
    let first_night = TimeSpan::new(at(18_999, 22, 0), 480);
    let first = PomodoroSchedule::assemble(&config, &tasks, &events, &first_night, now).unwrap();
    let second = PomodoroSchedule::assemble(&config, &tasks, &events, &first_night, now).unwrap();
    assert_eq!(lines(first.get_entries()), lines(second.get_entries()));
    assert_eq!(unit_lines(first.get_unscheduled()), unit_lines(second.get_unscheduled()));
    assert_eq!(format!("{:?}", first), format!("{:?}", second));
    let copy = first.clone();
    assert_eq!(format!("{:?}", first), format!("{:?}", copy));
}

#[test]
fn no_schedule_without_tasks() {
    let config = Config::default();
    let now = at(19_000, 9, 0);
    let first_night = TimeSpan::new(at(18_999, 22, 0), 480);
    let assembled = PomodoroSchedule::assemble(&config, &vec![], &vec![], &first_night, now);
    assert!(matches!(assembled, Err(SparrowError::NoTasks)));
    let made = PomodoroSchedule::make(&config, &vec![], &vec![], &Bedtime::default(), now);
    assert!(matches!(made, Err(SparrowError::NoTasks)));
}

#[test]
fn filling_without_tasks_changes_nothing() {
    let config = Config::default();
    let now = at(19_000, 9, 0);
    let mut schedule = PomodoroSchedule {
        entries: vec![PomodoroScheduleEntry::Sleep(TimeSpan::new(at(19_000, 20, 0), 600))],
        unscheduled: vec![],
    };
    schedule.fill_free_time(&config, &vec![], now, now + DAY);
    assert_eq!(lines(schedule.get_entries()), vec![sleep(at(19_000, 20, 0), 600)]);
}

#[test]
fn sleep_is_laid_down_from_the_night_before() {
    let bedtime = Bedtime::new(21 * 3600 + 1800, 510);
    let now = at(19_000, 2, 0);
    let local_now = chrono::Local.timestamp_opt(now, 0).unwrap();
    let yesterday = local_now.date_naive().pred_opt().unwrap();
    let reading = yesterday.and_hms_opt(21, 30, 0).unwrap();
    let expected = chrono::Local.from_local_datetime(&reading).single();
    match (first_sleep(&bedtime, now), expected) {
        (Ok(span), Some(start)) => {
            assert_eq!(span, TimeSpan::new(start.timestamp(), 510));
            assert!(span.start() < now);
            assert!(now - span.start() < 3 * DAY);
        }
        (Err(SparrowError::InvalidTimezoneConversion), None) => {}
        (got, wanted) => panic!("{:?} does not match {:?}", got, wanted),
    }
}

#[test]
fn making_a_schedule_lays_down_sleep_in_local_time() {
    let config = Config::default();
    let bedtime = Bedtime::default();
    let now = at(19_000, 9, 0);
    let tasks = vec![task("report", now + 2 * DAY, 50)];
    let events = vec![event("lunch", at(19_000, 12, 0), 60, Repeat::Daily)];
    let made = PomodoroSchedule::make(&config, &tasks, &events, &bedtime, now);
    match first_sleep(&bedtime, now) {
        Ok(first_night) => {
            let expected =
                PomodoroSchedule::assemble(&config, &tasks, &events, &first_night, now).unwrap();
            let made = made.unwrap();
            assert_eq!(lines(made.get_entries()), lines(expected.get_entries()));
            assert_eq!(made.get_entries()[0].title(), "Sleep");
            assert_eq!(first_night.minutes(), 600);
        }
        Err(_) => assert!(matches!(made, Err(SparrowError::InvalidTimezoneConversion))),
    }
}

#[test]
fn no_job_falls_into_an_event_or_a_night() {
    let config = Config::default();
    let now = at(19_000, 7, 15);
    let tasks = vec![task("a", now + 3 * DAY, 700), task("b", now + 2 * DAY, 333)];
    let events = vec![
        event("lunch", at(19_000, 12, 0), 60, Repeat::Daily),
        event("call", at(19_000, 12, 30), 90, Repeat::Never),
        event("night shift", at(19_000, 23, 0), 30, Repeat::Weekly(WeekdaySet::new())),
    ];
    let first_night = TimeSpan::new(at(18_999, 22, 0), 480);
    let schedule = PomodoroSchedule::assemble(&config, &tasks, &events, &first_night, now).unwrap();
    let entries = schedule.get_entries();
    let mut jobs = 0;
    for a in entries.iter() {
        if !matches!(a, PomodoroScheduleEntry::Job { .. }) {
            continue;
        }
        jobs += 1;
        assert!(a.span().start() >= now);
        assert!(a.span().end() <= now + 3 * DAY);
        for b in entries.iter() {
            let fixed = matches!(
                b,
                PomodoroScheduleEntry::Calendar { .. } | PomodoroScheduleEntry::Sleep(_)
            );
            if fixed {
                assert!(!a.span().overlaps(b.span()), "{:?} and {:?}", a, b);
                assert!(a.span().end() <= b.span().start() || b.span().end() <= a.span().start());
            }
        }
    }
    assert_eq!(jobs, 28 + 14);
    assert!(schedule.get_unscheduled().is_empty());
}

#[test]
fn every_work_period_is_placed_or_reported() {
    let config = Config::default();
    let now = at(19_000, 9, 0);
    let tasks = vec![
        task("a", at(19_000, 18, 0), 260),
        task("b", at(19_000, 19, 0), 90),
        task("c", at(19_000, 19, 0), 1000),
    ];
    let first_night = TimeSpan::new(at(18_999, 20, 0), 600);
    let schedule =
        PomodoroSchedule::assemble(&config, &tasks, &vec![], &first_night, now).unwrap();
    let jobs =
        schedule.get_entries().iter().filter(|e| matches!(e, PomodoroScheduleEntry::Job { .. })).count();
    let left: u64 = schedule.get_unscheduled().iter().map(|u| u.periods_left).sum();
    assert_eq!(jobs, 4 * 4);
    assert_eq!(jobs as u64 + left, 11 + 4 + 40);
    assert_eq!(unit_lines(schedule.get_unscheduled()), vec![("c".to_string(), 39)]);
}

#[test]
fn inputs_are_checked_for_valid_instants() {
    let config = Config::default();
    let bedtime = Bedtime::default();
    let now = at(19_000, 9, 0);
    let good = vec![task("a", now + DAY, 10)];
    let bad = vec![task("a", now + DAY, 10), task("b", MAX_INSTANT + 1, 10)];
    assert!(tasks_are_wf(&good));
    assert!(!tasks_are_wf(&bad));
    assert!(tasks_are_wf(&vec![]));
    let far = vec![event("far", MAX_INSTANT + 1, 10, Repeat::Never)];
    assert!(events_are_wf(&vec![event("near", now, 10, Repeat::Never)]));
    assert!(!events_are_wf(&far));
    assert!(entries_are_wf(&vec![PomodoroScheduleEntry::Break(TimeSpan::new(now, 5))]));
    assert!(!entries_are_wf(&vec![PomodoroScheduleEntry::Break(TimeSpan::new(i64::MIN, 5))]));
    assert!(Schedule::can_make(ScheduleType::Pomodoro, &config, &good, &vec![], &bedtime, now));
    assert!(!Schedule::can_make(ScheduleType::Pomodoro, &config, &bad, &vec![], &bedtime, now));
    assert!(!Schedule::can_make(ScheduleType::Pomodoro, &config, &good, &far, &bedtime, now));
    assert!(Schedule::can_make(ScheduleType::IvyLee, &config, &good, &far, &bedtime, now));
    assert!(!Schedule::can_make(ScheduleType::IvyLee, &config, &good, &vec![], &bedtime, i64::MAX));
    let mut broken = Config::default();
    broken.work_minutes = 0;
    assert!(!Schedule::can_make(ScheduleType::Pomodoro, &broken, &good, &vec![], &bedtime, now));
    assert!(Schedule::can_make(ScheduleType::IvyLee, &broken, &good, &vec![], &bedtime, now));
    let late = Bedtime { start: 86_400, minutes: 60 };
    assert!(!Schedule::can_make(ScheduleType::IvyLee, &config, &good, &vec![], &late, now));
}
