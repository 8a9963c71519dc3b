use chrono::{Datelike, TimeZone};
use sparrow::methods::ivy_lee::{IvyLeeSchedule, IvyLeeScheduleDisplay};
use sparrow::{Bedtime, Config, SparrowError, Task, TaskDuration, Weekday};

const DAY: i64 = 86_400;
const SATURDAY: i64 = 19_000;

fn wake(day: i64) -> Option<i64> {
    Some(day * DAY + 6 * 3600)
}

fn chore(name: &str, due_date: i64, consideration_period_days: u32) -> Task {
    Task {
        name: name.to_string(),
        due_date,
        duration: TaskDuration::Minutes(60),
        done: false,
        consideration_period_days,
    }
}

fn labels(schedule: &IvyLeeSchedule, day: i64) -> Option<Vec<String>> {
    schedule.get(day).cloned()
}

fn list(items: &[&str]) -> Option<Vec<String>> {
    Some(items.iter().map(|s| s.to_string()).collect())
}

#[test]
fn a_task_due_in_three_days_is_split_over_three_days() {
    let config = Config::default();
    let tasks = vec![chore("X", (SATURDAY + 2) * DAY + 18 * 3600, 3)];
    let starts = vec![wake(SATURDAY), wake(SATURDAY + 1), wake(SATURDAY + 2)];
    let schedule = IvyLeeSchedule::plan(&config, &tasks, SATURDAY, &starts);
    assert_eq!(labels(&schedule, SATURDAY), list(&["1/3 of remaining X"]));
    assert_eq!(labels(&schedule, SATURDAY + 1), list(&["1/2 of remaining X"]));
    assert_eq!(labels(&schedule, SATURDAY + 2), list(&["Finish X"]));
    assert_eq!(labels(&schedule, SATURDAY + 3), None);
    assert_eq!(labels(&schedule, SATURDAY - 1), None);
    assert_eq!(schedule.task_days.len(), 3);
    assert!(schedule.unscheduled.is_empty());
}

#[test]
fn a_skipped_day_has_no_labels_and_defers_its_tasks() {
    let mut config = Config::default();
    config.skip_days.insert(Weekday::Sun);
    let tasks = vec![
        chore("X", (SATURDAY + 2) * DAY + 18 * 3600, 3),
        chore("Y", (SATURDAY + 1) * DAY + 18 * 3600, 3),
    ];
    let starts = vec![wake(SATURDAY), None, wake(SATURDAY + 2)];
    let schedule = IvyLeeSchedule::plan(&config, &tasks, SATURDAY, &starts);
    assert_eq!(
        labels(&schedule, SATURDAY),
        list(&["1/3 of remaining X", "1/2 of remaining Y"])
    );
    assert_eq!(labels(&schedule, SATURDAY + 1), None);
    assert_eq!(labels(&schedule, SATURDAY + 2), list(&["Finish X"]));
    assert!(!schedule.task_days.contains_key(&(SATURDAY + 1)));
    assert_eq!(schedule.unscheduled, vec!["Y"]);
}

#[test]
fn a_day_takes_no_more_tasks_than_its_quota() {
    let mut config = Config::default();
    config.ivy_lee_tasks_per_day = 2;
    let due = SATURDAY * DAY + 18 * 3600;
    let tasks = vec![chore("a", due, 3), chore("b", due + DAY, 3), chore("c", due + DAY, 3)];
    let starts = vec![wake(SATURDAY), wake(SATURDAY + 1)];
    let schedule = IvyLeeSchedule::plan(&config, &tasks, SATURDAY, &starts);
    assert_eq!(labels(&schedule, SATURDAY), list(&["Finish a", "1/2 of remaining b"]));
    assert_eq!(labels(&schedule, SATURDAY + 1), list(&["Finish b", "Finish c"]));
    assert!(schedule.unscheduled.is_empty());
}

#[test]
fn a_quota_of_nothing_schedules_nothing() {
    let mut config = Config::default();
    config.ivy_lee_tasks_per_day = 0;
    let tasks = vec![chore("a", SATURDAY * DAY + 18 * 3600, 3)];
    let schedule = IvyLeeSchedule::plan(&config, &tasks, SATURDAY, &vec![wake(SATURDAY)]);
    assert_eq!(labels(&schedule, SATURDAY), list(&[]));
    assert_eq!(schedule.unscheduled, vec!["a"]);
}

#[test]
fn a_task_waits_for_its_consideration_period() {
    let config = Config::default();
    let tasks = vec![chore("far", (SATURDAY + 3) * DAY + 6 * 3600, 2)];
    let starts = vec![
        wake(SATURDAY),
        wake(SATURDAY + 1),
        wake(SATURDAY + 2),
        wake(SATURDAY + 3),
    ];
    let schedule = IvyLeeSchedule::plan(&config, &tasks, SATURDAY, &starts);
    assert_eq!(labels(&schedule, SATURDAY), list(&[]));
    assert_eq!(labels(&schedule, SATURDAY + 1), list(&["1/3 of remaining far"]));
    assert_eq!(labels(&schedule, SATURDAY + 2), list(&["1/2 of remaining far"]));
    assert_eq!(labels(&schedule, SATURDAY + 3), list(&[]));
    assert_eq!(schedule.unscheduled, vec!["far"]);
}

#[test]
fn a_task_that_is_due_before_the_day_starts_is_left_over() {
    let config = Config::default();
    let tasks = vec![
        chore("early", SATURDAY * DAY + 5 * 3600, 3),
        chore("on time", SATURDAY * DAY + 6 * 3600 + 1, 3),
    ];
    let schedule = IvyLeeSchedule::plan(&config, &tasks, SATURDAY, &vec![wake(SATURDAY)]);
    assert_eq!(labels(&schedule, SATURDAY), list(&["Finish on time"]));
    assert_eq!(schedule.unscheduled, vec!["early"]);
}

#[test]
fn labels_count_the_days_in_decimal() {
    let config = Config::default();
    let tasks = vec![chore("big", (SATURDAY + 11) * DAY + 12 * 3600, 400)];
    let schedule = IvyLeeSchedule::plan(&config, &tasks, SATURDAY, &vec![wake(SATURDAY)]);
    assert_eq!(labels(&schedule, SATURDAY), list(&["1/12 of remaining big"]));
    let tasks = vec![chore("huge", (SATURDAY + 1204) * DAY + 12 * 3600, 4000)];
    let schedule = IvyLeeSchedule::plan(&config, &tasks, SATURDAY, &vec![wake(SATURDAY)]);
    assert_eq!(labels(&schedule, SATURDAY), list(&["1/1205 of remaining huge"]));
}

#[test]
fn no_days_leave_every_task_unscheduled() {
    let config = Config::default();
    let tasks = vec![chore("a", SATURDAY * DAY, 3), chore("b", SATURDAY * DAY, 3)];
    let schedule = IvyLeeSchedule::plan(&config, &tasks, SATURDAY, &vec![]);
    assert!(schedule.task_days.is_empty());
    assert_eq!(schedule.unscheduled, vec!["a", "b"]);
}

#[test]
fn display_shows_today_and_tomorrow() {
    let config = Config::default();
    let tasks = vec![
        chore("X", (SATURDAY + 1) * DAY + 18 * 3600, 3),
        chore("Y", SATURDAY * DAY + 18 * 3600, 3),
    ];
    let starts = vec![wake(SATURDAY), wake(SATURDAY + 1)];
    let schedule = IvyLeeSchedule::plan(&config, &tasks, SATURDAY, &starts);
    let shown = schedule.display(SATURDAY);
    assert_eq!(
        shown.render(),
        "Here are tasks for you to do today:\n-\t1/2 of remaining X\n-\tFinish Y\n\n\
         There are tasks for you to do tomorrow:\n-\tFinish X\n"
    );
    let later = schedule.display(SATURDAY + 1);
    assert_eq!(
        later.render(),
        "Here are tasks for you to do today:\n-\tFinish X\n\n\
         Nothing to do tomorrow :) Have a good day!\n"
    );
    let nothing = schedule.display(SATURDAY + 5);
    assert_eq!(
        nothing.render(),
        "Nothing to do today :) Enjoy your day off!\n\nNothing to do tomorrow :) Have a good day!\n"
    );
    assert!(schedule.display(i64::MAX).tomorrow.is_none());
}

#[test]
fn display_of_a_day_without_tasks_has_only_the_heading() {
    let empty: Vec<String> = vec![];
    let shown = IvyLeeScheduleDisplay { today: Some(&empty), tomorrow: None };
    assert_eq!(
        shown.render(),
        "Here are tasks for you to do today:\n\nNothing to do tomorrow :) Have a good day!\n"
    );
}

#[test]
fn no_ivy_lee_schedule_without_tasks() {
    let made =
        IvyLeeSchedule::make(&Config::default(), &vec![], &vec![], &Bedtime::default(), SATURDAY * DAY);
    assert!(matches!(made, Err(SparrowError::NoTasks)));
}

#[test]
fn making_an_ivy_lee_schedule_walks_the_local_days() {
    let mut config = Config::default();
    config.skip_days.insert(Weekday::Mon);
    let bedtime = Bedtime::new(23 * 3600, 7 * 60 + 30);
    let now = SATURDAY * DAY + 10 * 3600;
    let tasks = vec![
        chore("later", now + 4 * DAY, 3),
        chore("sooner", now + 2 * DAY, 1),
        chore("gone", now - 2 * DAY, 3),
    ];
    let epoch = chrono::NaiveDate::from_ymd_opt(1970, 1, 1).unwrap();
    let day_of = |instant: i64| {
        let date = chrono::Local.timestamp_opt(instant, 0).unwrap().date_naive();
        date.signed_duration_since(epoch).num_days()
    };
    let first_day = day_of(now);
    let last_day = day_of(now + 4 * DAY);
    let mut starts = vec![];
    let mut representable = true;
    for day in first_day..=last_day {
        let date = epoch + chrono::Duration::days(day);
        if date.weekday() == chrono::Weekday::Mon {
            starts.push(None);
            continue;
        }
        let reading = date.and_hms_opt(6, 30, 0).unwrap();
        match chrono::Local.from_local_datetime(&reading).single() {
            Some(start) => starts.push(Some(start.timestamp())),
            None => representable = false,
        }
    }
    let made = IvyLeeSchedule::make(&config, &tasks, &vec![], &bedtime, now);
    if !representable {
        assert!(matches!(made, Err(SparrowError::InvalidTimezoneConversion)));
        return;
    }
    let made = made.unwrap();
    let sorted = vec![tasks[2].clone(), tasks[1].clone(), tasks[0].clone()];
    let expected = IvyLeeSchedule::plan(&config, &sorted, first_day, &starts);
    assert_eq!(made.task_days, expected.task_days);
    assert_eq!(made.unscheduled, expected.unscheduled);
    assert_eq!(made.unscheduled[0], "gone");
    assert!(made.task_days.len() >= 3);
    for day in made.task_days.keys() {
        let date = epoch + chrono::Duration::days(*day);
        assert!(date.weekday() != chrono::Weekday::Mon);
        assert!(first_day <= *day && *day <= last_day);
    }
}
