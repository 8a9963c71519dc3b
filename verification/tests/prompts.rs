use chrono::TimeZone;
use sparrow::calendar::{earliest_instant, earliest_local_instant, LocalOffsets};
use sparrow::daemon::{current_and_next, DaemonAction, DaemonState};
use sparrow::methods::ivy_lee::IvyLeeSchedule;
use sparrow::methods::pomodoro::{PomodoroSchedule, PomodoroScheduleEntry};
use sparrow::prompts::{
    day_of_parsed, is_blank, is_prefix_of, local_moment, means_midnight, moment_of_reading,
    parse_day, parse_repeat, parse_task_name, parse_time_of_day, parse_yn, repeat_of,
    task_name_of, time_of_parsed, time_prompt_format, yes_no, AddType, Decision, YesNoAnswer,
};
use sparrow::text::signed_decimal_string;
use sparrow::{
    Bedtime, CalendarEvent, CalendarEventType, Config, Repeat, Schedule, ScheduleType,
    SparrowError, Task, TaskDuration, TimeSpan, UserData, WeekdaySet, MAX_INSTANT,
};

const NINE: i64 = 19_000 * 86_400 + 9 * 3600;

fn refusal<T: std::fmt::Debug>(result: Result<T, SparrowError>) -> String {
    match result {
        Err(SparrowError::BasicMessage(message)) => message,
        other => panic!("{:?} is no refusal", other),
    }
}

fn entry(title: &str, start: i64, minutes: u32) -> PomodoroScheduleEntry {
    PomodoroScheduleEntry::Job { title: title.to_string(), span: TimeSpan::new(start, minutes) }
}

fn title_of(entry: &Option<PomodoroScheduleEntry>) -> Option<String> {
    entry.as_ref().map(|e| e.title().to_string())
}

#[test]
fn prefixes() {
    assert!(is_prefix_of("", "task"));
    assert!(is_prefix_of("ta", "task"));
    assert!(is_prefix_of("task", "task"));
    assert!(!is_prefix_of("tasks", "task"));
    assert!(!is_prefix_of("as", "task"));
    assert!(!is_prefix_of("t", ""));
    assert!(is_prefix_of("", ""));
}

#[test]
fn decisions() {
    assert!(Decision::Yes.is_yes());
    assert!(!Decision::Yes.is_no());
    assert!(Decision::No.is_no());
    assert!(!Decision::No.is_yes());
}

#[test]
fn yes_and_no_go_by_the_first_letter() {
    assert_eq!(yes_no(""), YesNoAnswer::Blank);
    assert_eq!(yes_no("y"), YesNoAnswer::Decided(Decision::Yes));
    assert_eq!(yes_no("yup"), YesNoAnswer::Decided(Decision::Yes));
    assert_eq!(yes_no("no"), YesNoAnswer::Decided(Decision::No));
    assert_eq!(yes_no("maybe"), YesNoAnswer::Unclear);
    assert_eq!(yes_no("Y"), YesNoAnswer::Unclear);
}

#[test]
fn yes_and_no_ignore_case_and_white_space() {
    assert_eq!(parse_yn("  YES \n"), YesNoAnswer::Decided(Decision::Yes));
    assert_eq!(parse_yn("\tNope"), YesNoAnswer::Decided(Decision::No));
    assert_eq!(parse_yn("   \n"), YesNoAnswer::Blank);
    assert_eq!(parse_yn(""), YesNoAnswer::Blank);
    assert_eq!(parse_yn(" what "), YesNoAnswer::Unclear);
}

#[test]
fn repeats_go_by_the_start_of_a_word() {
    assert_eq!(repeat_of("").unwrap(), Repeat::Never);
    assert_eq!(repeat_of("n").unwrap(), Repeat::Never);
    assert_eq!(repeat_of("no").unwrap(), Repeat::Never);
    assert_eq!(repeat_of("d").unwrap(), Repeat::Daily);
    assert_eq!(repeat_of("daily").unwrap(), Repeat::Daily);
    assert_eq!(repeat_of("w").unwrap(), Repeat::Weekly(WeekdaySet::new()));
    assert_eq!(repeat_of("week").unwrap(), Repeat::Weekly(WeekdaySet::new()));
    assert_eq!(refusal(repeat_of("never")), "What?");
    assert_eq!(refusal(repeat_of("dailyy")), "What?");
    assert_eq!(parse_repeat(" Daily\n").unwrap(), Repeat::Daily);
    assert_eq!(parse_repeat("  ").unwrap(), Repeat::Never);
    assert_eq!(parse_repeat("WEEK").unwrap(), Repeat::Weekly(WeekdaySet::new()));
    assert_eq!(refusal(parse_repeat("monthly")), "What?");
}

#[test]
fn add_types_go_by_the_start_of_a_word() {
    assert_eq!(AddType::try_from("task").unwrap(), AddType::Task);
    assert_eq!(AddType::try_from("T").unwrap(), AddType::Task);
    assert_eq!(AddType::try_from("").unwrap(), AddType::Task);
    assert_eq!(AddType::try_from("Br").unwrap(), AddType::Break);
    assert_eq!(AddType::try_from("EVENT").unwrap(), AddType::Event);
    assert_eq!(refusal(AddType::try_from("Meeting")), "'meeting' isn't something you can add");
    assert_eq!(AddType::of_word("e").unwrap(), AddType::Event);
    assert_eq!(refusal(AddType::of_word("E")), "'E' isn't something you can add");
    assert_eq!(AddType::of_answer("").unwrap(), AddType::Task);
    assert_eq!(AddType::of_answer("b").unwrap(), AddType::Break);
    assert_eq!(refusal(AddType::of_answer("x")), "Enter 'type', 'break', or 'event'");
}

#[test]
fn schedule_types_go_by_the_start_of_a_word() {
    assert_eq!(ScheduleType::try_from("pomodoro").unwrap(), ScheduleType::Pomodoro);
    assert_eq!(ScheduleType::try_from("P").unwrap(), ScheduleType::Pomodoro);
    assert_eq!(ScheduleType::try_from("ivylee").unwrap(), ScheduleType::IvyLee);
    assert_eq!(ScheduleType::try_from("Ivy_Lee").unwrap(), ScheduleType::IvyLee);
    assert_eq!(ScheduleType::try_from("i").unwrap(), ScheduleType::IvyLee);
    assert_eq!(ScheduleType::try_from("").unwrap(), ScheduleType::IvyLee);
    assert_eq!(
        refusal(ScheduleType::try_from("Kanban")),
        "'kanban' isn't a supported type of schedule"
    );
    assert_eq!(refusal(ScheduleType::of_answer("ivy lee")), "Enter 'pomodoro' or 'ivylee'");
    assert_eq!(ScheduleType::of_answer("pomo").unwrap(), ScheduleType::Pomodoro);
}

#[test]
fn task_names_must_not_be_blank() {
    assert_eq!(task_name_of("write").unwrap(), "write");
    assert_eq!(
        refusal(task_name_of("")),
        "Trust me, you don't want a task with a blank name"
    );
    assert_eq!(parse_task_name("  write report \n").unwrap(), "write report");
    assert_eq!(
        refusal(parse_task_name(" \t\n")),
        "Trust me, you don't want a task with a blank name"
    );
}

#[test]
fn time_questions() {
    assert_eq!(time_prompt_format("%H:%M", true), "%H:%M, or empty for midnight");
    assert_eq!(time_prompt_format("%H:%M", false), "%H:%M");
    assert!(means_midnight("", true));
    assert!(!means_midnight("", false));
    assert!(!means_midnight("12:00", true));
}

#[test]
fn signed_numbers_are_written_in_decimal() {
    assert_eq!(signed_decimal_string(0), "0");
    assert_eq!(signed_decimal_string(42), "42");
    assert_eq!(signed_decimal_string(-7), "-7");
    assert_eq!(signed_decimal_string(i64::MIN), i64::MIN.to_string());
    assert_eq!(signed_decimal_string(i64::MAX), i64::MAX.to_string());
}

#[test]
fn new_tasks_and_events() {
    let task = Task::new("write".to_string(), NINE, TaskDuration::Minutes(30));
    assert_eq!(task.name, "write");
    assert_eq!(task.due_date, NINE);
    assert!(matches!(task.duration, TaskDuration::Minutes(30)));
    assert!(!task.done);
    assert_eq!(task.consideration_period_days, 3);
    assert!(!task.is_past_due(NINE - 1));
    assert!(task.is_past_due(NINE));
    assert!(task.is_considered(NINE - 3 * 86_400));
    assert!(!task.is_considered(NINE - 3 * 86_400 - 1));
    let span = TimeSpan::new(NINE, 30);
    let event = CalendarEvent::event("standup".to_string(), span, Repeat::Daily);
    assert_eq!(event.name, "standup");
    assert_eq!(event.event_type, CalendarEventType::Event);
    assert_eq!(event.repeat, Repeat::Daily);
    let pause = CalendarEvent::break_time(span, Repeat::Never);
    assert_eq!(pause.name, "");
    assert_eq!(pause.event_type, CalendarEventType::Break);
    assert_eq!(pause.time_span, span);
    let copy = event.clone();
    assert_eq!(copy.name, "standup");
    assert_eq!(task.clone().name, "write");
}

#[test]
fn user_data_keeps_what_it_is_given() {
    let mut data = UserData::default();
    assert!(data.get_tasks().is_empty());
    assert!(data.get_events().is_empty());
    assert!(data.get_pomodoro_schedule().is_none());
    assert!(data.get_ivy_lee_schedule().is_none());
    assert_eq!(*data.get_bedtime(), Bedtime::default());
    assert_eq!(data.get_config().work_minutes, 25);
    data.add_task(Task::new("a".to_string(), NINE + 86_400, TaskDuration::Minutes(50)));
    data.add_task(Task::new("b".to_string(), NINE + 86_400, TaskDuration::Minutes(10)));
    data.add_event(CalendarEvent::break_time(TimeSpan::new(NINE, 10), Repeat::Never));
    assert_eq!(data.get_tasks().len(), 2);
    assert_eq!(data.get_tasks()[1].name, "b");
    assert_eq!(data.get_events().len(), 1);
    let first_night = TimeSpan::new(NINE - 13 * 3600, 600);
    let pomodoro = PomodoroSchedule::assemble(
        data.get_config(),
        data.get_tasks(),
        data.get_events(),
        &first_night,
        NINE,
    )
    .unwrap();
    let entries = pomodoro.get_entries().len();
    data.set_pomodoro_schedule(pomodoro);
    assert_eq!(data.get_pomodoro_schedule().as_ref().unwrap().get_entries().len(), entries);
    let ivy_lee = IvyLeeSchedule::plan(data.get_config(), data.get_tasks(), 19_000, &vec![]);
    data.set_ivy_lee_schedule(ivy_lee);
    assert_eq!(data.get_ivy_lee_schedule().as_ref().unwrap().unscheduled, vec!["a", "b"]);
    data.delete_pomodoro_schedule();
    assert!(data.get_pomodoro_schedule().is_none());
    assert!(data.get_ivy_lee_schedule().is_some());
    assert_eq!(data.get_tasks().len(), 2);
}

#[test]
fn either_method_makes_a_schedule() {
    let config = Config::default();
    let bedtime = Bedtime::default();
    let tasks = vec![Task::new("a".to_string(), NINE + 86_400, TaskDuration::Minutes(50))];
    match Schedule::make(ScheduleType::Pomodoro, &config, &tasks, &vec![], &bedtime, NINE) {
        Ok(schedule) => {
            assert_eq!(schedule.method(), ScheduleType::Pomodoro);
            assert!(matches!(schedule, Schedule::Pomodoro(_)));
        }
        Err(e) => assert!(matches!(e, SparrowError::InvalidTimezoneConversion)),
    }
    match Schedule::make(ScheduleType::IvyLee, &config, &tasks, &vec![], &bedtime, NINE) {
        Ok(schedule) => {
            assert_eq!(schedule.method(), ScheduleType::IvyLee);
            assert!(matches!(schedule, Schedule::IvyLee(_)));
        }
        Err(e) => assert!(matches!(e, SparrowError::InvalidTimezoneConversion)),
    }
    for method in [ScheduleType::Pomodoro, ScheduleType::IvyLee] {
        let made = Schedule::make(method, &config, &vec![], &vec![], &bedtime, NINE);
        assert!(matches!(made, Err(SparrowError::NoTasks)));
    }
}

#[test]
fn upcoming_entries_have_not_ended() {
    let schedule = PomodoroSchedule {
        entries: vec![
            entry("past", NINE - 3600, 30),
            entry("ends now", NINE - 600, 10),
            entry("under way", NINE - 60, 25),
            entry("later", NINE + 3600, 25),
        ],
        unscheduled: vec![],
    };
    let titles: Vec<String> =
        schedule.upcoming(NINE).iter().map(|e| e.title().to_string()).collect();
    assert_eq!(titles, vec!["ends now", "under way", "later"]);
}

#[test]
fn the_current_entry_is_the_first_that_has_not_ended() {
    let entries = vec![
        entry("past", NINE - 3600, 30),
        entry("ends now", NINE - 600, 10),
        entry("under way", NINE - 60, 25),
        entry("later", NINE + 3600, 25),
    ];
    let found = current_and_next(&entries, NINE);
    assert_eq!(title_of(&found.0), Some("under way".to_string()));
    assert_eq!(title_of(&found.1), Some("later".to_string()));
    let found = current_and_next(&entries, NINE + 3600);
    assert_eq!(title_of(&found.0), Some("later".to_string()));
    assert_eq!(title_of(&found.1), None);
    let found = current_and_next(&entries, NINE + 86_400);
    assert_eq!(title_of(&found.0), None);
    assert_eq!(title_of(&found.1), None);
    let found = current_and_next(&vec![], NINE);
    assert!(found.0.is_none() && found.1.is_none());
}

#[test]
fn the_notifier_announces_once_and_warns_once() {
    let entries = vec![entry("write", NINE, 30), entry("read", NINE + 1800, 25)];
    let mut state = DaemonState::new();
    assert!(matches!(state.step(&entries, NINE, 5), DaemonAction::Again));
    assert_eq!(title_of(&state.current_event), Some("write".to_string()));
    assert_eq!(title_of(&state.next_event), Some("read".to_string()));
    assert!(!state.notified_of_current_event && !state.warned_of_next_event);
    match state.step(&entries, NINE, 5) {
        DaemonAction::Notify(text) => assert_eq!(text, "Now: write\nNext: read"),
        other => panic!("{:?}", other),
    }
    assert!(state.notified_of_current_event);
    assert!(matches!(state.step(&entries, NINE + 30, 5), DaemonAction::Wait));
    assert!(!state.warned_of_next_event);
    match state.step(&entries, NINE + 1800 - 299, 5) {
        DaemonAction::Notify(text) => assert_eq!(text, "In 4 minutes: read"),
        other => panic!("{:?}", other),
    }
    assert!(state.warned_of_next_event);
    assert!(matches!(state.step(&entries, NINE + 1800 - 200, 5), DaemonAction::Wait));
    assert!(matches!(state.step(&entries, NINE + 1800, 5), DaemonAction::Again));
    assert_eq!(title_of(&state.current_event), Some("read".to_string()));
    assert_eq!(title_of(&state.next_event), None);
    match state.step(&entries, NINE + 1800, 5) {
        DaemonAction::Notify(text) => assert_eq!(text, "Now: read"),
        other => panic!("{:?}", other),
    }
    assert!(matches!(state.step(&entries, NINE + 1830, 5), DaemonAction::Wait));
    assert!(state.warned_of_next_event);
    assert!(matches!(state.step(&entries, NINE + 1860, 5), DaemonAction::Wait));
}

#[test]
fn the_notifier_warns_exactly_when_the_warning_time_starts() {
    let entries = vec![entry("write", NINE, 30), entry("read", NINE + 1800, 25)];
    let mut state = DaemonState::new();
    state.reassign_current_next_events(&entries, NINE);
    state.notified_of_current_event = true;
    assert!(matches!(state.step(&entries, NINE + 1800 - 301, 5), DaemonAction::Wait));
    match state.step(&entries, NINE + 1800 - 300, 5) {
        DaemonAction::Notify(text) => assert_eq!(text, "In 5 minutes: read"),
        other => panic!("{:?}", other),
    }
}

#[test]
fn the_notifier_looks_again_when_there_is_nothing() {
    let mut state = DaemonState::new();
    assert!(matches!(state.step(&vec![], NINE, 5), DaemonAction::Again));
    assert!(matches!(state.step(&vec![], NINE, 5), DaemonAction::Again));
    assert!(state.current_event.is_none() && state.next_event.is_none());
}

#[test]
fn blank_lines() {
    assert!(is_blank(""));
    assert!(is_blank(" \t \n"));
    assert!(!is_blank(" x "));
}

#[test]
fn days_are_read_in_the_given_format() {
    assert_eq!(parse_day("1970/01/01", "%Y/%m/%d").unwrap(), 0);
    assert_eq!(parse_day(" 2022/01/08 \n", "%Y/%m/%d").unwrap(), 19_000);
    assert_eq!(parse_day("1969/12/31", "%Y/%m/%d").unwrap(), -1);
    assert_eq!(parse_day("08.01.2022", "%d.%m.%Y").unwrap(), 19_000);
    let expected = chrono::NaiveDate::parse_from_str("2022/13/08", "%Y/%m/%d").unwrap_err();
    match parse_day("2022/13/08", "%Y/%m/%d") {
        Err(SparrowError::ChronoParse(words)) => {
            assert_eq!(words, expected.to_string());
            assert_eq!(SparrowError::ChronoParse(words).message(), expected.to_string());
        }
        other => panic!("{:?}", other),
    }
    assert!(matches!(parse_day("", "%Y/%m/%d"), Err(SparrowError::ChronoParse(_))));
    assert!(matches!(parse_day("tomorrow", "%Y/%m/%d"), Err(SparrowError::ChronoParse(_))));
}

#[test]
fn times_of_day_are_read_in_the_given_format() {
    assert_eq!(parse_time_of_day("00:00", "%H:%M", false).unwrap(), Some(0));
    assert_eq!(parse_time_of_day("09:30", "%H:%M", true).unwrap(), Some(9 * 3600 + 1800));
    assert_eq!(parse_time_of_day("23:59:59", "%H:%M:%S", false).unwrap(), Some(86_399));
    assert_eq!(parse_time_of_day("", "%H:%M", true).unwrap(), None);
    assert!(matches!(
        parse_time_of_day("", "%H:%M", false),
        Err(SparrowError::ChronoParse(_))
    ));
    let expected = chrono::NaiveTime::parse_from_str("25:00", "%H:%M").unwrap_err();
    match parse_time_of_day("25:00", "%H:%M", true) {
        Err(SparrowError::ChronoParse(words)) => assert_eq!(words, expected.to_string()),
        other => panic!("{:?}", other),
    }
    assert_eq!(time_of_parsed(Ok(60), false).unwrap(), Some(60));
    assert_eq!(time_of_parsed(Ok(60), true).unwrap(), None);
    assert_eq!(time_of_parsed(Err("no".to_string()), true).unwrap(), None);
    assert!(matches!(
        time_of_parsed(Err("no".to_string()), false),
        Err(SparrowError::ChronoParse(_))
    ));
    assert_eq!(day_of_parsed(Ok(19_000 * 86_400)).unwrap(), 19_000);
    assert!(matches!(day_of_parsed(Err("no".to_string())), Err(SparrowError::ChronoParse(_))));
}

#[test]
fn a_reading_names_its_earliest_instant() {
    let noon = 19_000 * 86_400 + 12 * 3600;
    assert_eq!(moment_of_reading(19_000, Some(12 * 3600), LocalOffsets::Once(3600)).unwrap(), noon - 3600);
    assert_eq!(
        moment_of_reading(19_000, Some(12 * 3600), LocalOffsets::Twice(7200, 3600)).unwrap(),
        noon - 7200
    );
    assert_eq!(moment_of_reading(19_000, None, LocalOffsets::Once(-3600)).unwrap(), 19_000 * 86_400 + 3600);
    assert_eq!(
        refusal(moment_of_reading(19_000, Some(60), LocalOffsets::Never)),
        "Sorry, the time you entered can't be converted to your local timezone."
    );
    assert_eq!(
        refusal(moment_of_reading(19_000, None, LocalOffsets::Never)),
        "Sorry, the date you entered can't be converted to your local timezone."
    );
    assert_eq!(
        refusal(moment_of_reading(100_000_000, None, LocalOffsets::Once(0))),
        "Sorry, the date you entered can't be converted to your local timezone."
    );
    assert_eq!(earliest_instant(1000, LocalOffsets::Once(100)), Some(900));
    assert_eq!(earliest_instant(1000, LocalOffsets::Twice(100, -100)), Some(900));
    assert_eq!(earliest_instant(MAX_INSTANT, LocalOffsets::Twice(100, -100)), None);
    assert_eq!(earliest_instant(1000, LocalOffsets::Never), None);
}

#[test]
fn a_local_moment_agrees_with_chrono() {
    for (day, time) in [(19_000_i64, Some(34_200_u32)), (19_100, None), (12_000, Some(7_200))] {
        let date = chrono::NaiveDate::from_ymd_opt(1970, 1, 1).unwrap() + chrono::Duration::days(day);
        let seconds = time.unwrap_or(0);
        let clock = chrono::NaiveTime::from_num_seconds_from_midnight_opt(seconds, 0).unwrap();
        let expected = chrono::Local.from_local_datetime(&date.and_time(clock)).earliest();
        match (local_moment(day, time), expected) {
            (Ok(instant), Some(moment)) => assert_eq!(instant, moment.timestamp()),
            (Err(SparrowError::BasicMessage(_)), None) => {}
            (got, wanted) => panic!("{:?} does not match {:?}", got, wanted),
        }
        assert_eq!(earliest_local_instant(day, seconds), expected.map(|m| m.timestamp()));
    }
}
