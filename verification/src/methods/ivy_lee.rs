//! The Ivy-Lee method: day after day, a few tasks are picked in order of
//! due date, and each day's picks are noted down as a list of labels.

use crate::calendar::{
    is_instant_of, is_local_day_of, lemma_local_day_bounds, local_day_of,
    local_offsets_of_wall_clock, single_instant, wall_clock, wall_clock_at, weekday_of,
    weekday_of_day,
};
use crate::data::Config;
use crate::errors::SparrowError;
use crate::methods::pomodoro::{
    by_due_date, last_due_date, latest_due_date, lemma_latest_due_date, sort_tasks, tasks_wf,
};
use crate::spans::{valid_instant, Bedtime, CalendarEvent};
use crate::task::{task_views, Task, TaskView};
use crate::text::{decimal, decimal_string, name_views};
use std::collections::HashMap;
use vstd::prelude::*;
use vstd::string::*;

verus! {

broadcast use vstd::std_specs::hash::group_hash_axioms;

/// A task can be picked for a day that starts at `start_of_day` when it is
/// not past due then and is already considered.
pub open spec fn eligible(task: TaskView, start_of_day: int) -> bool {
    !task.past_due(start_of_day) && task.considered(start_of_day)
}

/// The whole days from the start of a day to the due date of a task,
/// counting the day itself.
pub open spec fn days_until_due(task: TaskView, start_of_day: int) -> int {
    (task.due_date - start_of_day) / 86_400 + 1
}

/// The label under which a task is noted down for a day: to be finished
/// when it is due within the day, else to be done in part.
pub open spec fn label(task: TaskView, start_of_day: int) -> Seq<char> {
    if days_until_due(task, start_of_day) == 1 {
        "Finish "@ + task.name
    } else {
        "1/"@ + decimal(days_until_due(task, start_of_day) as nat) + " of remaining "@
            + task.name
    }
}

/// Plans one day that starts at `start_of_day`: the queue of tasks is gone
/// through in order, and a task that can be picked is noted down while
/// fewer than `room` tasks are. The result holds the day's labels and the
/// queue for the next day: a task that is to be finished leaves the queue,
/// every other task stays in it.
pub open spec fn plan_day(queue: Seq<TaskView>, start_of_day: int, room: nat) -> (
    Seq<Seq<char>>,
    Seq<TaskView>,
)
    decreases queue.len(),
{
    if queue.len() == 0 {
        (Seq::empty(), Seq::empty())
    } else {
        let before = plan_day(queue.drop_last(), start_of_day, room);
        let task = queue.last();
        if before.0.len() < room && eligible(task, start_of_day) {
            (
                before.0.push(label(task, start_of_day)),
                if days_until_due(task, start_of_day) == 1 {
                    before.1
                } else {
                    before.1.push(task)
                },
            )
        } else {
            (before.0, before.1.push(task))
        }
    }
}

/// Whether the weekday of `day` is one that the settings leave out.
pub open spec fn skipped(config: Config, day: int) -> bool {
    config.skip_days@.contains(weekday_of_day(day))
}

/// Walks through the first `days` days from `first_day`. The result holds
/// the labels noted down for each day that was planned, and the queue of
/// tasks after the last of them. A skipped day is not planned and leaves
/// the queue as it is; any other day is planned from its start of day,
/// which `starts` gives.
pub open spec fn walk(
    config: Config,
    tasks: Seq<TaskView>,
    first_day: int,
    starts: Seq<Option<i64>>,
    days: nat,
) -> (Map<int, Seq<Seq<char>>>, Seq<TaskView>)
    decreases days,
{
    if days == 0 {
        (Map::empty(), tasks)
    } else {
        let before = walk(config, tasks, first_day, starts, (days - 1) as nat);
        let day = first_day + days - 1;
        if skipped(config, day) {
            before
        } else {
            let today = plan_day(
                before.1,
                starts[days - 1]->Some_0 as int,
                config.ivy_lee_tasks_per_day as nat,
            );
            (before.0.insert(day, today.0), today.1)
        }
    }
}

/// What an [`IvyLeeSchedule`] is in contracts.
pub struct IvyLeeScheduleView {
    pub task_days: Map<int, Seq<Seq<char>>>,
    pub unscheduled: Seq<Seq<char>>,
}

/// The names of a list of tasks.
pub open spec fn task_names(tasks: Seq<TaskView>) -> Seq<Seq<char>> {
    tasks.map_values(|t: TaskView| t.name)
}

/// The schedule that the Ivy-Lee method makes for the days from `first_day`
/// on, one for each entry of `starts`: the labels of every planned day, and
/// the names of the tasks that are still in the queue after the last day.
pub open spec fn ivy_lee_plan(
    config: Config,
    tasks: Seq<TaskView>,
    first_day: int,
    starts: Seq<Option<i64>>,
) -> IvyLeeScheduleView {
    let end = walk(config, tasks, first_day, starts, starts.len());
    IvyLeeScheduleView { task_days: end.0, unscheduled: task_names(end.1) }
}

/// A skipped day changes nothing: no labels are noted down for it, and the
/// queue of tasks goes on to the next day as it is.
pub proof fn lemma_skipped_day_defers(
    config: Config,
    tasks: Seq<TaskView>,
    first_day: int,
    starts: Seq<Option<i64>>,
    days: nat,
)
    requires
        days > 0,
        skipped(config, first_day + days - 1),
    ensures
        walk(config, tasks, first_day, starts, days) == walk(
            config,
            tasks,
            first_day,
            starts,
            (days - 1) as nat,
        ),
{
}

/// Labels are noted down for the days of the walk that are not skipped,
/// and for no other day.
pub proof fn lemma_walk_days(
    config: Config,
    tasks: Seq<TaskView>,
    first_day: int,
    starts: Seq<Option<i64>>,
    days: nat,
)
    ensures
        forall|day: int| #[trigger]
            walk(config, tasks, first_day, starts, days).0.contains_key(day) <==> first_day
                <= day < first_day + days && !skipped(config, day),
    decreases days,
{
    if days > 0 {
        lemma_walk_days(config, tasks, first_day, starts, (days - 1) as nat);
        let before = walk(config, tasks, first_day, starts, (days - 1) as nat);
        let after = walk(config, tasks, first_day, starts, days);
        let last = first_day + days - 1;
        assert forall|day: int| #[trigger]
            after.0.contains_key(day) <==> first_day <= day < first_day + days && !skipped(
                config,
                day,
            ) by {
            assert(before.0.contains_key(day) <==> first_day <= day < first_day + days - 1
                && !skipped(config, day));
            if !skipped(config, last) {
                assert(after.0.contains_key(day) <==> day == last || before.0.contains_key(day));
            }
        }
    }
}

/// Planning a day drops no task but those it labels to be finished: every
/// task of the queue is either kept for the next day or was picked, and no
/// more tasks are picked than the day has room for.
pub proof fn lemma_plan_day(queue: Seq<TaskView>, start_of_day: int, room: nat)
    ensures
        plan_day(queue, start_of_day, room).0.len() <= room,
        plan_day(queue, start_of_day, room).0.len() <= queue.len(),
        plan_day(queue, start_of_day, room).1.len() <= queue.len(),
        forall|i: int|
            0 <= i < queue.len() ==> plan_day(queue, start_of_day, room).1.contains(
                #[trigger] queue[i],
            ) || (eligible(queue[i], start_of_day) && days_until_due(queue[i], start_of_day)
                == 1),
    decreases queue.len(),
{
    if queue.len() > 0 {
        let rest = queue.drop_last();
        lemma_plan_day(rest, start_of_day, room);
        let before = plan_day(rest, start_of_day, room);
        let after = plan_day(queue, start_of_day, room);
        assert forall|i: int| 0 <= i < queue.len() implies after.1.contains(#[trigger] queue[i])
            || (eligible(queue[i], start_of_day) && days_until_due(queue[i], start_of_day)
            == 1) by {
            if i < rest.len() {
                assert(queue[i] == rest[i]);
                if before.1.contains(rest[i]) {
                    let at = choose|at: int| 0 <= at < before.1.len() && before.1[at] == rest[i];
                    assert(after.1[at] == rest[i]);
                }
            } else {
                if after.1.len() > before.1.len() {
                    assert(after.1[after.1.len() - 1] == queue[i]);
                }
            }
        }
    }
}

/// A schedule made with the Ivy-Lee method: for each planned day, counted
/// in days since 1 January 1970, the labels of the tasks picked for it; and
/// the names of the tasks that could not be scheduled completely.
#[derive(Clone, Debug)]
pub struct IvyLeeSchedule {
    pub task_days: HashMap<i64, Vec<String>>,
    pub unscheduled: Vec<String>,
}

/// The labels of each day as they are in contracts.
pub open spec fn day_labels(days: Map<i64, Vec<String>>) -> Map<int, Seq<Seq<char>>> {
    Map::new(
        |day: int| i64::MIN <= day <= i64::MAX && days.contains_key(day as i64),
        |day: int| name_views(days[day as i64]@),
    )
}

impl View for IvyLeeSchedule {
    type V = IvyLeeScheduleView;

    open spec fn view(&self) -> IvyLeeScheduleView {
        IvyLeeScheduleView {
            task_days: day_labels(self.task_days@),
            unscheduled: name_views(self.unscheduled@),
        }
    }
}

/// The tasks that a queue of positions stands for.
pub open spec fn picked(tasks: Seq<TaskView>, queue: Seq<usize>) -> Seq<TaskView> {
    Seq::new(queue.len(), |i: int| tasks[queue[i] as int])
}

/// Every position of the queue names a task.
pub open spec fn queue_wf(tasks: Seq<TaskView>, queue: Seq<usize>) -> bool {
    forall|i: int| 0 <= i < queue.len() ==> (#[trigger] queue[i]) < tasks.len()
}

/// The label under which a task is noted down for a day.
fn label_for(task: &Task, start_of_day: i64) -> (text: String)
    requires
        task.due_date > start_of_day,
    ensures
        text@ == label(task@, start_of_day as int),
{
    let days: i128 = (task.due_date as i128 - start_of_day as i128) / 86_400 + 1;
    if days == 1 {
        let mut text = String::from_str("Finish ");
        text.append(task.name.as_str());
        text
    } else {
        let mut text = String::from_str("1/");
        let number = decimal_string(days as u64);
        text.append(number.as_str());
        text.append(" of remaining ");
        text.append(task.name.as_str());
        text
    }
}

/// Plans one day that starts at `start_of_day`. The queue names the tasks
/// by their positions in `tasks`.
fn plan_one_day(tasks: &Vec<Task>, queue: &Vec<usize>, start_of_day: i64, room: u32) -> (out: (
    Vec<String>,
    Vec<usize>,
))
    requires
        queue_wf(task_views(tasks@), queue@),
    ensures
        name_views(out.0@) == plan_day(
            picked(task_views(tasks@), queue@),
            start_of_day as int,
            room as nat,
        ).0,
        picked(task_views(tasks@), out.1@) == plan_day(
            picked(task_views(tasks@), queue@),
            start_of_day as int,
            room as nat,
        ).1,
        queue_wf(task_views(tasks@), out.1@),
{
    let ghost views = task_views(tasks@);
    let ghost all = picked(views, queue@);
    let mut labels: Vec<String> = Vec::new();
    let mut kept: Vec<usize> = Vec::new();
    let mut i: usize = 0;
    proof {
        assert(name_views(labels@) =~= plan_day(all.take(0), start_of_day as int, room as nat).0);
        assert(picked(views, kept@) =~= plan_day(all.take(0), start_of_day as int, room as nat).1);
    }
    while i < queue.len()
        invariant
            i <= queue.len(),
            views == task_views(tasks@),
            all == picked(views, queue@),
            queue_wf(views, queue@),
            queue_wf(views, kept@),
            labels@.len() <= i,
            name_views(labels@) == plan_day(all.take(i as int), start_of_day as int, room as nat).0,
            picked(views, kept@) == plan_day(all.take(i as int), start_of_day as int, room as nat).1,
        decreases queue.len() - i,
    {
        let position = queue[i];
        let task = &tasks[position];
        let ghost labels_before = name_views(labels@);
        let ghost kept_before = picked(views, kept@);
        proof {
            assert(all.take(i + 1).drop_last() =~= all.take(i as int));
            assert(all.take(i + 1).last() == task@);
        }
        if labels.len() < room as usize && !task.is_past_due(start_of_day) && task.is_considered(
            start_of_day,
        ) {
            let days: i128 = (task.due_date as i128 - start_of_day as i128) / 86_400 + 1;
            labels.push(label_for(task, start_of_day));
            assert(name_views(labels@) =~= labels_before.push(label(task@, start_of_day as int)));
            if days != 1 {
                kept.push(position);
                assert(picked(views, kept@) =~= kept_before.push(task@));
            }
        } else {
            kept.push(position);
            assert(picked(views, kept@) =~= kept_before.push(task@));
        }
        i += 1;
    }
    assert(all.take(queue@.len() as int) =~= all);
    (labels, kept)
}

/// Every day of the walk that is not skipped has a start of day.
pub open spec fn starts_given(config: Config, first_day: int, starts: Seq<Option<i64>>) -> bool {
    forall|i: int|
        0 <= i < starts.len() && !skipped(config, first_day + i) ==> (#[trigger] starts[i]) is Some
}

/// What the label lists of a schedule show of two days that follow each
/// other.
pub struct IvyLeeScheduleDisplay<'a> {
    pub today: Option<&'a Vec<String>>,
    pub tomorrow: Option<&'a Vec<String>>,
}

/// The labels of a day, if the day was planned.
pub open spec fn labels_of(labels: Option<&Vec<String>>) -> Option<Seq<Seq<char>>> {
    match labels {
        Some(list) => Some(name_views(list@)),
        None => None,
    }
}

/// The labels of a day as lines of text, each behind a dash and a tab.
pub open spec fn label_lines(labels: Seq<Seq<char>>) -> Seq<char>
    decreases labels.len(),
{
    if labels.len() == 0 {
        Seq::empty()
    } else {
        label_lines(labels.drop_last()) + "-\t"@ + labels.last() + "\n"@
    }
}

/// The text that tells what there is to do today and tomorrow.
pub open spec fn display_text(
    today: Option<Seq<Seq<char>>>,
    tomorrow: Option<Seq<Seq<char>>>,
) -> Seq<char> {
    (match today {
        Some(labels) => "Here are tasks for you to do today:\n"@ + label_lines(labels),
        None => "Nothing to do today :) Enjoy your day off!\n"@,
    }) + "\n"@ + (match tomorrow {
        Some(labels) => "There are tasks for you to do tomorrow:\n"@ + label_lines(labels),
        None => "Nothing to do tomorrow :) Have a good day!\n"@,
    })
}

/// Adds the labels of a day to a text, line by line.
fn push_label_lines(text: &mut String, labels: &Vec<String>)
    ensures
        final(text)@ == old(text)@ + label_lines(name_views(labels@)),
{
    let ghost before = text@;
    let ghost all = name_views(labels@);
    let mut i: usize = 0;
    assert(text@ =~= before + label_lines(all.take(0)));
    while i < labels.len()
        invariant
            i <= labels.len(),
            all == name_views(labels@),
            text@ == before + label_lines(all.take(i as int)),
        decreases labels.len() - i,
    {
        proof {
            assert(all.take(i + 1).drop_last() =~= all.take(i as int));
            assert(all.take(i + 1).last() == labels@[i as int]@);
        }
        text.append("-\t");
        text.append(labels[i].as_str());
        text.append("\n");
        assert(text@ =~= before + label_lines(all.take(i + 1)));
        i += 1;
    }
    assert(all.take(labels@.len() as int) =~= all);
}

impl<'a> IvyLeeScheduleDisplay<'a> {
    /// The text that tells what there is to do today and tomorrow.
    pub fn render(&self) -> (text: String)
        ensures
            text@ == display_text(labels_of(self.today), labels_of(self.tomorrow)),
    {
        let mut text = String::new();
        match self.today {
            Some(labels) => {
                text.append("Here are tasks for you to do today:\n");
                push_label_lines(&mut text, labels);
            },
            None => {
                text.append("Nothing to do today :) Enjoy your day off!\n");
            },
        }
        text.append("\n");
        match self.tomorrow {
            Some(labels) => {
                text.append("There are tasks for you to do tomorrow:\n");
                push_label_lines(&mut text, labels);
            },
            None => {
                text.append("Nothing to do tomorrow :) Have a good day!\n");
            },
        }
        assert(text@ =~= display_text(labels_of(self.today), labels_of(self.tomorrow)));
        text
    }
}

/// How many days lie between two days, both counted.
pub open spec fn days_between(first_day: int, last_day: int) -> nat {
    if last_day >= first_day {
        (last_day - first_day + 1) as nat
    } else {
        0
    }
}

/// `first_day` and `starts` are the days of a walk made at `now` for tasks
/// of which the last is due at `latest`: the walk goes from the local day
/// of `now` through the local day of `latest`; it has no start for a
/// skipped day; and any other day starts at the instant at which the local
/// wall clock reads the end of the sleep window on that day.
pub open spec fn is_walk_of(
    config: Config,
    bedtime: Bedtime,
    now: int,
    latest: int,
    first_day: int,
    starts: Seq<Option<i64>>,
) -> bool {
    &&& is_local_day_of(first_day, now)
    &&& exists|last_day: int| #[trigger]
        is_local_day_of(last_day, latest) && starts.len() == days_between(first_day, last_day)
    &&& forall|i: int|
        0 <= i < starts.len() ==> match #[trigger] starts[i] {
            None => skipped(config, first_day + i),
            Some(start) => !skipped(config, first_day + i) && is_instant_of(
                start as int,
                wall_clock(first_day + i, bedtime.end_spec()),
            ),
        }
}

impl IvyLeeSchedule {
    /// Makes the schedule at `now`: the days from today through the day of
    /// the latest due date are walked through, and each day that is not
    /// skipped starts when the sleep window ends. Fails without tasks;
    /// fails too when the local time zone gives no single valid instant for
    /// today, for the last day or for the start of a day.
    pub fn make(
        config: &Config,
        tasks: &Vec<Task>,
        _events: &Vec<CalendarEvent>,
        bedtime: &Bedtime,
        now: i64,
    ) -> (schedule: Result<Self, SparrowError>)
        requires
            tasks_wf(task_views(tasks@)),
            bedtime.wf(),
            valid_instant(now as int),
        ensures
            tasks@.len() == 0 ==> schedule is Err,
            schedule matches Err(e) ==> (e is NoTasks <==> tasks@.len() == 0) && (e is NoTasks
                || e is InvalidTimezoneConversion),
            schedule matches Ok(s) ==> (exists|first_day: int, starts: Seq<Option<i64>>|
                is_walk_of(
                    *config,
                    *bedtime,
                    now as int,
                    latest_due_date(task_views(tasks@)),
                    first_day,
                    starts,
                ) && s@ == #[trigger] ivy_lee_plan(
                    *config,
                    by_due_date(task_views(tasks@)),
                    first_day,
                    starts,
                )) && (forall|day: int|
                skipped(*config, day) ==> !(#[trigger] s@.task_days.contains_key(day))),
    {
        let latest = match last_due_date(tasks) {
            Some(due) => due,
            None => {
                return Err(SparrowError::NoTasks);
            },
        };
        proof {
            lemma_latest_due_date(task_views(tasks@));
        }
        let sorted = sort_tasks(tasks);
        let today = match local_day_of(now) {
            Ok(day) => day,
            Err(e) => {
                return Err(e);
            },
        };
        let last_day = match local_day_of(latest) {
            Ok(day) => day,
            Err(e) => {
                return Err(e);
            },
        };
        proof {
            lemma_local_day_bounds(today as int, now as int);
            lemma_local_day_bounds(last_day as int, latest as int);
        }
        let wake = bedtime.end();
        let mut starts: Vec<Option<i64>> = Vec::new();
        let mut day: i64 = today;
        while day <= last_day
            invariant
                -100_000_000 <= today <= 100_000_000,
                -100_000_000 <= last_day <= 100_000_000,
                tasks@.len() > 0,
                today <= day,
                today <= last_day ==> day <= last_day + 1,
                last_day < today ==> day == today,
                starts@.len() == day - today,
                wake == bedtime.end_spec(),
                forall|i: int|
                    0 <= i < starts@.len() ==> match #[trigger] starts@[i] {
                        None => skipped(*config, today + i),
                        Some(start) => !skipped(*config, today + i) && is_instant_of(
                            start as int,
                            wall_clock(today + i, bedtime.end_spec()),
                        ),
                    },
            decreases
                    if day <= last_day {
                        last_day - day + 1
                    } else {
                        0
                    },
        {
            if config.skip_days.contains(weekday_of(day)) {
                starts.push(None);
            } else {
                let reading = wall_clock_at(day, wake);
                let offsets = local_offsets_of_wall_clock(reading);
                match single_instant(reading, offsets) {
                    Ok(start) => {
                        starts.push(Some(start));
                    },
                    Err(e) => {
                        return Err(e);
                    },
                }
            }
            day += 1;
        }
        assert(starts@.len() == days_between(today as int, last_day as int));
        assert(starts_given(*config, today as int, starts@));
        let schedule = Self::plan(config, &sorted, today, &starts);
        proof {
            lemma_walk_days(
                *config,
                task_views(sorted@),
                today as int,
                starts@,
                starts@.len(),
            );
            assert(is_walk_of(
                *config,
                *bedtime,
                now as int,
                latest as int,
                today as int,
                starts@,
            ));
        }
        Ok(schedule)
    }

    /// Plans the days from `first_day` on, one for each entry of `starts`,
    /// which gives the start of each day that is not skipped. The tasks are
    /// taken in the order given.
    pub fn plan(
        config: &Config,
        tasks: &Vec<Task>,
        first_day: i64,
        starts: &Vec<Option<i64>>,
    ) -> (schedule: Self)
        requires
            -0x4000_0000_0000_0000 <= first_day,
            first_day + starts@.len() <= 0x4000_0000_0000_0000,
            starts_given(*config, first_day as int, starts@),
        ensures
            schedule@ == ivy_lee_plan(*config, task_views(tasks@), first_day as int, starts@),
    {
        let ghost views = task_views(tasks@);
        let mut task_days: HashMap<i64, Vec<String>> = HashMap::new();
        let mut queue: Vec<usize> = Vec::new();
        let mut t: usize = 0;
        while t < tasks.len()
            invariant
                t <= tasks.len(),
                queue@.len() == t,
                forall|k: int| 0 <= k < t ==> queue@[k] == k,
            decreases tasks.len() - t,
        {
            queue.push(t);
            t += 1;
        }
        let mut i: usize = 0;
        proof {
            assert(picked(views, queue@) =~= views);
            assert(day_labels(task_days@) =~= Map::<int, Seq<Seq<char>>>::empty());
        }
        while i < starts.len()
            invariant
                i <= starts.len(),
                views == task_views(tasks@),
                -0x4000_0000_0000_0000 <= first_day,
                first_day + starts@.len() <= 0x4000_0000_0000_0000,
                starts_given(*config, first_day as int, starts@),
                queue_wf(views, queue@),
                day_labels(task_days@) == walk(*config, views, first_day as int, starts@, i as nat).0,
                picked(views, queue@) == walk(*config, views, first_day as int, starts@, i as nat).1,
            decreases starts.len() - i,
        {
            let day: i64 = first_day + i as i64;
            if !config.skip_days.contains(weekday_of(day)) {
                assert(!skipped(*config, first_day + i));
                match starts[i] {
                    Some(start_of_day) => {
                        let ghost before = day_labels(task_days@);
                        let out = plan_one_day(
                            tasks,
                            &queue,
                            start_of_day,
                            config.ivy_lee_tasks_per_day,
                        );
                        let ghost labels = name_views(out.0@);
                        task_days.insert(day, out.0);
                        queue = out.1;
                        assert(day_labels(task_days@) =~= before.insert(day as int, labels));
                    },
                    None => {
                        assert(false);
                    },
                }
            }
            i += 1;
        }
        let mut unscheduled: Vec<String> = Vec::new();
        let mut q: usize = 0;
        let ghost left = picked(views, queue@);
        while q < queue.len()
            invariant
                q <= queue.len(),
                views == task_views(tasks@),
                queue_wf(views, queue@),
                left == picked(views, queue@),
                name_views(unscheduled@) == task_names(left).take(q as int),
            decreases queue.len() - q,
        {
            let ghost so_far = name_views(unscheduled@);
            unscheduled.push(tasks[queue[q]].name.clone());
            assert(name_views(unscheduled@) =~= so_far.push(task_names(left)[q as int]));
            assert(so_far.push(task_names(left)[q as int]) =~= task_names(left).take(q + 1));
            q += 1;
        }
        assert(task_names(left).take(queue@.len() as int) =~= task_names(left));
        IvyLeeSchedule { task_days, unscheduled }
    }

    /// The labels noted down for `day`, if the day was planned.
    pub fn get(&self, day: i64) -> (labels: Option<&Vec<String>>)
        ensures
            labels is Some <==> self@.task_days.contains_key(day as int),
            labels matches Some(list) ==> name_views(list@) == self@.task_days[day as int],
    {
        self.task_days.get(&day)
    }

    /// What there is to do on `today` and on the day after it.
    pub fn display(&self, today: i64) -> (shown: IvyLeeScheduleDisplay<'_>)
        ensures
            labels_of(shown.today) == (if self@.task_days.contains_key(today as int) {
                Some(self@.task_days[today as int])
            } else {
                None
            }),
            labels_of(shown.tomorrow) == (if today < i64::MAX && self@.task_days.contains_key(
                today + 1,
            ) {
                Some(self@.task_days[today + 1])
            } else {
                None
            }),
    {
        IvyLeeScheduleDisplay {
            today: self.get(today),
            tomorrow: if today < i64::MAX {
                self.get(today + 1)
            } else {
                None
            },
        }
    }
}

} // verus!
