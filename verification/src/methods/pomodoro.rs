//! The Pomodoro method: free time is cut into job sessions of a fixed
//! cadence, and the sessions are filled with work in order of due date.

use crate::calendar::{
    is_instant_of, is_local_day_of, lemma_local_day_bounds, local_day_of,
    local_offsets_of_wall_clock, single_instant, wall_clock, wall_clock_at,
};
use crate::data::Config;
use crate::errors::SparrowError;
use crate::order::{
    as_ints, as_positions, in_order, lemma_stable_order, stable_order, stable_order_of,
};
use crate::spans::{
    event_views, is_valid_instant, valid_instant, Bedtime, CalendarEvent, CalendarEventType,
    CalendarEventView, Repeat, TimeSpan, MAX_INSTANT, MIN_INSTANT,
};
use crate::task::{task_views, SubtaskView, Task, TaskDuration, TaskDurationView, TaskView};
use crate::text::name_views;
use vstd::prelude::*;
use vstd::string::*;

verus! {

/// One line of a schedule.
#[derive(Debug)]
pub enum PomodoroScheduleEntry {
    /// Work time, part of a task.
    Job { title: String, span: TimeSpan },
    /// Event time.
    Calendar { name: String, span: TimeSpan },
    /// Break time.
    Break(TimeSpan),
    /// Sleep time.
    Sleep(TimeSpan),
}

/// What a [`PomodoroScheduleEntry`] is in contracts.
pub enum EntryView {
    Job { title: Seq<char>, span: TimeSpan },
    Calendar { name: Seq<char>, span: TimeSpan },
    Break(TimeSpan),
    Sleep(TimeSpan),
}

impl EntryView {
    /// The time the entry takes up.
    pub open spec fn span(self) -> TimeSpan {
        match self {
            EntryView::Job { span, .. } => span,
            EntryView::Calendar { span, .. } => span,
            EntryView::Break(span) => span,
            EntryView::Sleep(span) => span,
        }
    }

    /// What the entry is called.
    pub open spec fn title(self) -> Seq<char> {
        match self {
            EntryView::Job { title, .. } => title,
            EntryView::Calendar { name, .. } => name,
            EntryView::Break(_) => "Break"@,
            EntryView::Sleep(_) => "Sleep"@,
        }
    }
}

impl View for PomodoroScheduleEntry {
    type V = EntryView;

    open spec fn view(&self) -> EntryView {
        match self {
            PomodoroScheduleEntry::Job { title, span } => EntryView::Job {
                title: title@,
                span: *span,
            },
            PomodoroScheduleEntry::Calendar { name, span } => EntryView::Calendar {
                name: name@,
                span: *span,
            },
            PomodoroScheduleEntry::Break(span) => EntryView::Break(*span),
            PomodoroScheduleEntry::Sleep(span) => EntryView::Sleep(*span),
        }
    }
}

impl Clone for PomodoroScheduleEntry {
    fn clone(&self) -> (copy: Self)
        ensures
            copy == *self,
    {
        match self {
            PomodoroScheduleEntry::Job { title, span } => PomodoroScheduleEntry::Job {
                title: title.clone(),
                span: *span,
            },
            PomodoroScheduleEntry::Calendar { name, span } => PomodoroScheduleEntry::Calendar {
                name: name.clone(),
                span: *span,
            },
            PomodoroScheduleEntry::Break(span) => PomodoroScheduleEntry::Break(*span),
            PomodoroScheduleEntry::Sleep(span) => PomodoroScheduleEntry::Sleep(*span),
        }
    }
}

impl PomodoroScheduleEntry {
    pub fn span(&self) -> (span: &TimeSpan)
        ensures
            *span == self@.span(),
    {
        match self {
            Self::Job { span, .. } => span,
            Self::Calendar { span, .. } => span,
            Self::Break(span) => span,
            Self::Sleep(span) => span,
        }
    }

    pub fn title(&self) -> (title: &str)
        ensures
            title@ == self@.title(),
    {
        match self {
            Self::Job { title, .. } => title.as_str(),
            Self::Calendar { name, .. } => name.as_str(),
            Self::Break(_) => "Break",
            Self::Sleep(_) => "Sleep",
        }
    }
}

/// The entries of a list, each as it is in contracts.
pub open spec fn entry_views(entries: Seq<PomodoroScheduleEntry>) -> Seq<EntryView> {
    entries.map_values(|e: PomodoroScheduleEntry| e@)
}

/// The instants at which the entries of a list start.
pub open spec fn entry_starts(entries: Seq<EntryView>) -> Seq<int> {
    entries.map_values(|e: EntryView| e.span().start as int)
}

/// Every entry of the list starts at a valid instant.
pub open spec fn entries_wf(entries: Seq<EntryView>) -> bool {
    forall|i: int| 0 <= i < entries.len() ==> (#[trigger] entries[i]).span().wf()
}

/// The entries of the list start in ascending order.
pub open spec fn ascending(entries: Seq<EntryView>) -> bool {
    forall|i: int, j: int|
        0 <= i < j < entries.len() ==> (#[trigger] entries[i]).span().start <= (
        #[trigger] entries[j]).span().start
}

/// The entries of a list in ascending order of their starts; entries that
/// start together keep their order.
pub open spec fn sorted_by_start(entries: Seq<EntryView>) -> Seq<EntryView> {
    in_order(entries, stable_order(entry_starts(entries)))
}

/// How many occurrences of a span that starts at `start` and repeats every
/// `step` seconds start before `horizon`.
pub open spec fn occurrence_count(start: int, step: Option<int>, horizon: int) -> nat {
    if start >= horizon {
        0
    } else {
        match step {
            None => 1,
            Some(d) => ((horizon - start - 1) / d + 1) as nat,
        }
    }
}

/// The occurrences of `anchor` that start before `horizon`: the anchor
/// itself, then one more for every whole step after it. A span that does
/// not repeat occurs once.
pub open spec fn occurrences(anchor: TimeSpan, repeat: Repeat, horizon: int) -> Seq<TimeSpan> {
    Seq::new(
        occurrence_count(anchor.start as int, repeat.step_spec(), horizon),
        |k: int|
            TimeSpan {
                start: (anchor.start + k * match repeat.step_spec() {
                    Some(d) => d,
                    None => 0,
                }) as i64,
                minutes: anchor.minutes,
            },
    )
}

/// A step count `k` is the number of occurrences before the horizon when
/// occurrence `k - 1` starts before it and occurrence `k` does not.
proof fn lemma_occurrence_count(start: int, d: int, horizon: int, k: int)
    requires
        d > 0,
        k >= 1,
        start + (k - 1) * d < horizon <= start + k * d,
    ensures
        occurrence_count(start, Some(d), horizon) == k,
{
    let x = horizon - start - 1;
    assert((k - 1) * d <= x < (k - 1) * d + d) by (nonlinear_arith)
        requires
            start + (k - 1) * d < horizon <= start + k * d,
            x == horizon - start - 1,
    ;
    vstd::arithmetic::div_mod::lemma_div_multiples_vanish_fancy(k - 1, x - (k - 1) * d, d);
    assert(d * (k - 1) + (x - (k - 1) * d) == x) by (nonlinear_arith);
}

/// Occurrence `k` of a repeating span starts `k` whole steps after the
/// anchor and before the horizon; the occurrence after the last one would
/// start at the horizon or later. A weekly span therefore occurs at whole
/// multiples of seven days after its anchor, and never at or after the
/// horizon.
pub proof fn lemma_occurrences(anchor: TimeSpan, repeat: Repeat, horizon: int)
    requires
        anchor.wf(),
        valid_instant(horizon),
    ensures
        forall|k: int|
            0 <= k < occurrences(anchor, repeat, horizon).len() ==> {
                let occurrence = #[trigger] occurrences(anchor, repeat, horizon)[k];
                &&& occurrence.minutes == anchor.minutes
                &&& occurrence.start < horizon
                &&& repeat is Never ==> occurrence.start == anchor.start
                &&& repeat is Daily ==> occurrence.start == anchor.start + k * 86_400
                &&& repeat is Weekly ==> occurrence.start == anchor.start + k * (7 * 86_400)
            },
        repeat is Never ==> occurrences(anchor, repeat, horizon).len() == (if anchor.start
            < horizon {
            1nat
        } else {
            0nat
        }),
        repeat is Daily ==> anchor.start + occurrences(anchor, repeat, horizon).len() * 86_400
            >= horizon,
        repeat is Weekly ==> anchor.start + occurrences(anchor, repeat, horizon).len() * (7
            * 86_400) >= horizon,
{
    let n = occurrences(anchor, repeat, horizon).len() as int;
    match repeat.step_spec() {
        None => {},
        Some(d) => {
            if anchor.start < horizon {
                let x = horizon - anchor.start - 1;
                vstd::arithmetic::div_mod::lemma_fundamental_div_mod(x, d);
                vstd::arithmetic::div_mod::lemma_mod_bound(x, d);
                vstd::arithmetic::div_mod::lemma_div_pos_is_pos(x, d);
                assert(n == x / d + 1);
                assert(d * (x / d) <= x < d * (x / d) + d);
                assert forall|k: int| 0 <= k < n implies ({
                    let occurrence = #[trigger] occurrences(anchor, repeat, horizon)[k];
                    occurrence.start == anchor.start + k * d && occurrence.start < horizon
                }) by {
                    assert(0 <= k * d <= (x / d) * d) by (nonlinear_arith)
                        requires
                            0 <= k <= x / d,
                            d > 0,
                    ;
                    assert((x / d) * d == d * (x / d)) by (nonlinear_arith);
                }
                assert(n * d == d * (x / d) + d) by (nonlinear_arith)
                    requires
                        n == x / d + 1,
                ;
            }
        },
    }
}

/// Expands one span that may repeat into its occurrences before `horizon`.
pub fn expand(anchor: &TimeSpan, repeat: &Repeat, horizon: i64) -> (spans: Vec<TimeSpan>)
    requires
        anchor.wf(),
        valid_instant(horizon as int),
    ensures
        spans@ == occurrences(*anchor, *repeat, horizon as int),
{
    let mut spans: Vec<TimeSpan> = Vec::new();
    let ghost all = occurrences(*anchor, *repeat, horizon as int);
    if anchor.start >= horizon {
        assert(spans@ =~= all);
        return spans;
    }
    match repeat.step() {
        None => {
            spans.push(*anchor);
            assert(spans@ =~= all);
        },
        Some(d) => {
            let mut start: i64 = anchor.start;
            while start < horizon
                invariant
                    anchor.wf(),
                    valid_instant(horizon as int),
                    anchor.start < horizon,
                    repeat.step_spec() == Some(d as int),
                    d == 86_400 || d == 604_800,
                    start == anchor.start + spans@.len() * d,
                    spans@.len() >= 1 ==> start - d < horizon,
                    all == occurrences(*anchor, *repeat, horizon as int),
                    spans@.len() <= all.len(),
                    spans@ == all.take(spans@.len() as int),
                decreases
                        if start < horizon {
                            horizon - start
                        } else {
                            0
                        },
            {
                let ghost k = spans@.len() as int;
                proof {
                    lemma_occurrences(*anchor, *repeat, horizon as int);
                    if k >= all.len() {
                        assert(anchor.start + all.len() * d >= horizon);
                        assert(k * d >= all.len() * d) by (nonlinear_arith)
                            requires
                                k >= all.len(),
                                d > 0,
                        ;
                    }
                    assert(k < all.len());
                }
                spans.push(TimeSpan { start, minutes: anchor.minutes });
                proof {
                    assert(all[k].start == anchor.start + k * d);
                    assert(spans@ =~= all.take(k + 1));
                    assert((k + 1) * d == k * d + d) by (nonlinear_arith);
                }
                start = start + d;
            }
            proof {
                let k = spans@.len() as int;
                assert((k - 1) * d == k * d - d) by (nonlinear_arith);
                lemma_occurrence_count(anchor.start as int, d as int, horizon as int, k);
                assert(all.take(k) =~= all);
            }
        },
    }
    spans
}

/// The entry that stands for one occurrence of a calendar event: event
/// time under the event's name, or break time.
pub open spec fn event_entry(event: CalendarEventView, span: TimeSpan) -> EntryView {
    match event.event_type {
        CalendarEventType::Event => EntryView::Calendar { name: event.name, span },
        CalendarEventType::Break => EntryView::Break(span),
    }
}

/// The entries of one calendar event: one for each of its occurrences
/// before `horizon`.
pub open spec fn event_entries(event: CalendarEventView, horizon: int) -> Seq<EntryView> {
    occurrences(event.time_span, event.repeat, horizon).map_values(
        |span: TimeSpan| event_entry(event, span),
    )
}

/// The entries of all calendar events, event after event.
pub open spec fn all_event_entries(events: Seq<CalendarEventView>, horizon: int) -> Seq<
    EntryView,
>
    decreases events.len(),
{
    if events.len() == 0 {
        Seq::empty()
    } else {
        all_event_entries(events.drop_last(), horizon) + event_entries(events.last(), horizon)
    }
}

/// The nightly sleep entries: the first night's sleep is `first`, and it
/// repeats daily up to `horizon`.
pub open spec fn sleep_entries(first: TimeSpan, horizon: int) -> Seq<EntryView> {
    occurrences(first, Repeat::Daily, horizon).map_values(|span: TimeSpan| EntryView::Sleep(span))
}

/// The time that is already taken up to `horizon`: every occurrence of
/// every calendar event and every night's sleep, in ascending order of
/// their starts.
pub open spec fn fixed_entries(
    events: Seq<CalendarEventView>,
    sleep: TimeSpan,
    horizon: int,
) -> Seq<EntryView> {
    sorted_by_start(all_event_entries(events, horizon) + sleep_entries(sleep, horizon))
}

/// Every event of the list starts at a valid instant.
pub open spec fn events_wf(events: Seq<CalendarEventView>) -> bool {
    forall|i: int| 0 <= i < events.len() ==> (#[trigger] events[i]).time_span.wf()
}

/// Sorting by start keeps every entry, adds none, and leaves the entries in
/// ascending order of their starts.
pub proof fn lemma_sorted_by_start(entries: Seq<EntryView>)
    ensures
        sorted_by_start(entries).len() == entries.len(),
        ascending(sorted_by_start(entries)),
        forall|i: int|
            0 <= i < entries.len() ==> entries.contains(#[trigger] sorted_by_start(entries)[i]),
        forall|i: int|
            0 <= i < entries.len() ==> sorted_by_start(entries).contains(#[trigger] entries[i]),
        entries_wf(entries) ==> entries_wf(sorted_by_start(entries)),
{
    let keys = entry_starts(entries);
    let order = stable_order(keys);
    let sorted = sorted_by_start(entries);
    lemma_stable_order(keys);
    assert forall|i: int, j: int| 0 <= i < j < sorted.len() implies (#[trigger] sorted[i]).span().start
        <= (#[trigger] sorted[j]).span().start by {
        assert(keys[order[i]] <= keys[order[j]]);
    }
    assert forall|i: int| 0 <= i < entries.len() implies entries.contains(
        #[trigger] sorted[i],
    ) by {
        assert(entries[order[i]] == sorted[i]);
    }
    assert forall|i: int| 0 <= i < entries.len() implies sorted.contains(
        #[trigger] entries[i],
    ) by {
        assert(order.contains(i));
        let at = choose|at: int| 0 <= at < order.len() && order[at] == i;
        assert(sorted[at] == entries[i]);
    }
    if entries_wf(entries) {
        assert forall|i: int| 0 <= i < sorted.len() implies (#[trigger] sorted[i]).span().wf() by {
            assert(entries[order[i]] == sorted[i]);
        }
    }
}

/// Brings entries into ascending order of their starts. Entries that start
/// at the same instant stay in the order they came in.
pub fn sort_entries(entries: &Vec<PomodoroScheduleEntry>) -> (sorted: Vec<PomodoroScheduleEntry>)
    ensures
        entry_views(sorted@) == sorted_by_start(entry_views(entries@)),
        sorted@.len() == entries@.len(),
        ascending(entry_views(sorted@)),
{
    let ghost views = entry_views(entries@);
    let mut keys: Vec<i64> = Vec::new();
    let mut i: usize = 0;
    while i < entries.len()
        invariant
            i <= entries.len(),
            keys@.len() == i,
            forall|k: int| 0 <= k < i ==> keys@[k] == entries@[k]@.span().start,
        decreases entries.len() - i,
    {
        keys.push(entries[i].span().start);
        i += 1;
    }
    assert(as_ints(keys@) =~= entry_starts(views));
    let order = stable_order_of(&keys);
    let ghost positions = as_positions(order@);
    let mut sorted: Vec<PomodoroScheduleEntry> = Vec::new();
    let mut j: usize = 0;
    while j < order.len()
        invariant
            j <= order.len(),
            order@.len() == entries@.len(),
            positions == as_positions(order@),
            views == entry_views(entries@),
            forall|k: int| 0 <= k < order@.len() ==> order@[k] < entries@.len(),
            sorted@.len() == j,
            forall|k: int| 0 <= k < j ==> sorted@[k]@ == views[positions[k]],
        decreases order.len() - j,
    {
        sorted.push(entries[order[j]].clone());
        j += 1;
    }
    proof {
        assert(entry_views(sorted@) =~= in_order(views, positions));
        lemma_sorted_by_start(views);
    }
    sorted
}

/// The entry that stands for one occurrence of a calendar event.
fn event_entry_of(event: &CalendarEvent, span: TimeSpan) -> (entry: PomodoroScheduleEntry)
    ensures
        entry@ == event_entry(event@, span),
{
    match event.event_type {
        CalendarEventType::Event => PomodoroScheduleEntry::Calendar {
            name: event.name.clone(),
            span,
        },
        CalendarEventType::Break => PomodoroScheduleEntry::Break(span),
    }
}

/// Lays down the time that is already taken: every occurrence of every
/// calendar event before `until`, and every night's sleep before `until`,
/// the first night's being `sleep`. The entries come out in ascending order
/// of their starts.
pub fn breaks_to_schedule_entries(
    events: &Vec<CalendarEvent>,
    until: i64,
    sleep: &TimeSpan,
) -> (entries: Vec<PomodoroScheduleEntry>)
    requires
        events_wf(event_views(events@)),
        sleep.wf(),
        valid_instant(until as int),
    ensures
        entry_views(entries@) == fixed_entries(event_views(events@), *sleep, until as int),
        ascending(entry_views(entries@)),
        entries_wf(entry_views(entries@)),
{
    let ghost views = event_views(events@);
    let mut entries: Vec<PomodoroScheduleEntry> = Vec::new();
    let mut i: usize = 0;
    assert(entry_views(entries@) =~= all_event_entries(views.take(0), until as int));
    while i < events.len()
        invariant
            i <= events.len(),
            views == event_views(events@),
            events_wf(views),
            valid_instant(until as int),
            entry_views(entries@) == all_event_entries(views.take(i as int), until as int),
            entries_wf(entry_views(entries@)),
        decreases events.len() - i,
    {
        let event = &events[i];
        assert(event@ == views[i as int]);
        let spans = expand(&event.time_span, &event.repeat, until);
        let ghost before = entry_views(entries@);
        let ghost new = event_entries(event@, until as int);
        proof {
            lemma_occurrences(event.time_span, event.repeat, until as int);
        }
        let mut j: usize = 0;
        while j < spans.len()
            invariant
                j <= spans.len(),
                spans@ == occurrences(event.time_span, event.repeat, until as int),
                new == event_entries(event@, until as int),
                entry_views(entries@) == before + new.take(j as int),
                entries_wf(entry_views(entries@)),
                forall|k: int| 0 <= k < spans@.len() ==> (#[trigger] spans@[k]).wf(),
            decreases spans.len() - j,
        {
            let ghost so_far = entry_views(entries@);
            let entry = event_entry_of(event, spans[j]);
            entries.push(entry);
            proof {
                assert(entry_views(entries@) =~= so_far.push(entry@));
                assert(so_far.push(entry@) =~= before + new.take(j + 1));
            }
            j += 1;
        }
        proof {
            assert(new.take(spans@.len() as int) =~= new);
            assert(views.take(i + 1).drop_last() =~= views.take(i as int));
            assert(views.take(i + 1).last() == views[i as int]);
        }
        i += 1;
    }
    assert(views.take(events@.len() as int) =~= views);
    let nights = expand(sleep, &Repeat::Daily, until);
    let ghost before = entry_views(entries@);
    let ghost new = sleep_entries(*sleep, until as int);
    proof {
        lemma_occurrences(*sleep, Repeat::Daily, until as int);
    }
    let mut j: usize = 0;
    while j < nights.len()
        invariant
            j <= nights.len(),
            nights@ == occurrences(*sleep, Repeat::Daily, until as int),
            new == sleep_entries(*sleep, until as int),
            entry_views(entries@) == before + new.take(j as int),
            entries_wf(entry_views(entries@)),
            forall|k: int| 0 <= k < nights@.len() ==> (#[trigger] nights@[k]).wf(),
        decreases nights.len() - j,
    {
        let ghost so_far = entry_views(entries@);
        let entry = PomodoroScheduleEntry::Sleep(nights[j]);
        entries.push(entry);
        proof {
            assert(entry_views(entries@) =~= so_far.push(entry@));
            assert(so_far.push(entry@) =~= before + new.take(j + 1));
        }
        j += 1;
    }
    proof {
        assert(new.take(nights@.len() as int) =~= new);
        lemma_sorted_by_start(entry_views(entries@));
    }
    sort_entries(&entries)
}

/// Work that waits to be scheduled: the name under which its jobs appear,
/// and how many whole work periods of it are left.
#[derive(Debug)]
pub struct UnscheduledPeriod {
    pub name: String,
    pub periods_left: u64,
}

/// What an [`UnscheduledPeriod`] is in contracts.
pub struct UnscheduledPeriodView {
    pub name: Seq<char>,
    pub periods_left: nat,
}

impl View for UnscheduledPeriod {
    type V = UnscheduledPeriodView;

    open spec fn view(&self) -> UnscheduledPeriodView {
        UnscheduledPeriodView { name: self.name@, periods_left: self.periods_left as nat }
    }
}

impl Clone for UnscheduledPeriod {
    fn clone(&self) -> (copy: Self)
        ensures
            copy == *self,
    {
        UnscheduledPeriod { name: self.name.clone(), periods_left: self.periods_left }
    }
}

impl UnscheduledPeriod {
    /// The minutes of work that are left: a work period's length for each
    /// period.
    pub fn minutes_left(&self, config: &Config) -> (minutes: u128)
        ensures
            minutes == self.periods_left * config.work_minutes,
    {
        assert(self.periods_left * config.work_minutes <= 0xffff_ffff_ffff_ffff * 0xffff_ffff)
            by (nonlinear_arith)
            requires
                self.periods_left <= 0xffff_ffff_ffff_ffff,
                config.work_minutes <= 0xffff_ffff,
        ;
        self.periods_left as u128 * config.work_minutes as u128
    }
}

/// The units of a list, each as it is in contracts.
pub open spec fn unit_views(units: Seq<UnscheduledPeriod>) -> Seq<UnscheduledPeriodView> {
    units.map_values(|u: UnscheduledPeriod| u@)
}

/// The whole work periods that `minutes` minutes of work take up: the
/// minutes divided by the length of a work period, rounded up.
pub open spec fn periods_needed(minutes: nat, work_minutes: nat) -> nat {
    ((minutes + work_minutes - 1) / (work_minutes as int)) as nat
}

/// The unit of work that one subtask gives: it is named after the task and
/// the subtask.
pub open spec fn subtask_unit(
    task_name: Seq<char>,
    subtask: SubtaskView,
    work_minutes: nat,
) -> UnscheduledPeriodView {
    UnscheduledPeriodView {
        name: task_name + ": "@ + subtask.name,
        periods_left: periods_needed(subtask.duration, work_minutes),
    }
}

/// The units of work that one task gives: one for a task with a flat
/// duration, one per subtask for a task with subtasks.
pub open spec fn task_units(task: TaskView, work_minutes: nat) -> Seq<UnscheduledPeriodView> {
    match task.duration {
        TaskDurationView::Minutes(m) => seq![
            UnscheduledPeriodView {
                name: task.name,
                periods_left: periods_needed(m, work_minutes),
            },
        ],
        TaskDurationView::Subtasks(subtasks) => subtasks.map_values(
            |subtask: SubtaskView| subtask_unit(task.name, subtask, work_minutes),
        ),
    }
}

/// A task takes part in scheduling at `now` when it is not done and not
/// past due.
pub open spec fn schedulable(task: TaskView, now: int) -> bool {
    !task.done && !task.past_due(now)
}

/// The units of work of all tasks that take part in scheduling, task after
/// task.
pub open spec fn work_units(tasks: Seq<TaskView>, work_minutes: nat, now: int) -> Seq<
    UnscheduledPeriodView,
>
    decreases tasks.len(),
{
    if tasks.len() == 0 {
        Seq::empty()
    } else {
        work_units(tasks.drop_last(), work_minutes, now) + (if schedulable(tasks.last(), now) {
            task_units(tasks.last(), work_minutes)
        } else {
            Seq::empty()
        })
    }
}

/// The due dates of a list of tasks.
pub open spec fn due_dates(tasks: Seq<TaskView>) -> Seq<int> {
    tasks.map_values(|t: TaskView| t.due_date)
}

/// The tasks in ascending order of their due dates; tasks that are due
/// together keep their order.
pub open spec fn by_due_date(tasks: Seq<TaskView>) -> Seq<TaskView> {
    in_order(tasks, stable_order(due_dates(tasks)))
}

/// The latest due date among the tasks.
pub open spec fn latest_due_date(tasks: Seq<TaskView>) -> int
    decreases tasks.len(),
{
    if tasks.len() == 0 {
        0
    } else if tasks.len() == 1 {
        tasks[0].due_date
    } else {
        let before = latest_due_date(tasks.drop_last());
        if tasks.last().due_date > before {
            tasks.last().due_date
        } else {
            before
        }
    }
}

/// The latest due date is the due date of some task, and no task is due
/// later.
pub proof fn lemma_latest_due_date(tasks: Seq<TaskView>)
    requires
        tasks.len() > 0,
    ensures
        exists|i: int|
            0 <= i < tasks.len() && (#[trigger] tasks[i]).due_date == latest_due_date(tasks),
        forall|i: int|
            0 <= i < tasks.len() ==> (#[trigger] tasks[i]).due_date <= latest_due_date(tasks),
    decreases tasks.len(),
{
    if tasks.len() > 1 {
        let rest = tasks.drop_last();
        lemma_latest_due_date(rest);
        let at = choose|i: int|
            0 <= i < rest.len() && (#[trigger] rest[i]).due_date == latest_due_date(rest);
        assert(tasks[at] == rest[at]);
        assert(tasks[tasks.len() - 1] == tasks.last());
        assert forall|i: int| 0 <= i < tasks.len() implies (#[trigger] tasks[i]).due_date
            <= latest_due_date(tasks) by {
            if i < rest.len() {
                assert(tasks[i] == rest[i]);
            }
        }
        if tasks.last().due_date > latest_due_date(rest) {
            assert(tasks[tasks.len() - 1].due_date == latest_due_date(tasks));
        } else {
            assert(tasks[at].due_date == latest_due_date(tasks));
        }
    } else {
        assert(tasks[0].due_date == latest_due_date(tasks));
    }
}

/// The latest due date among the tasks; none when there is no task.
pub fn last_due_date(tasks: &Vec<Task>) -> (latest: Option<i64>)
    ensures
        latest is None <==> tasks@.len() == 0,
        latest matches Some(due) ==> due == latest_due_date(task_views(tasks@)),
{
    if tasks.len() == 0 {
        return None;
    }
    let ghost views = task_views(tasks@);
    let mut latest: i64 = tasks[0].due_date;
    let mut i: usize = 1;
    assert(views.take(1).len() == 1);
    while i < tasks.len()
        invariant
            1 <= i <= tasks.len(),
            views == task_views(tasks@),
            latest == latest_due_date(views.take(i as int)),
        decreases tasks.len() - i,
    {
        assert(views.take(i + 1).drop_last() =~= views.take(i as int));
        assert(views.take(i + 1).last() == tasks@[i as int]@);
        if tasks[i].due_date > latest {
            latest = tasks[i].due_date;
        }
        i += 1;
    }
    assert(views.take(tasks@.len() as int) =~= views);
    Some(latest)
}

/// Brings tasks into ascending order of their due dates. Tasks that are due
/// at the same instant stay in the order they came in.
pub fn sort_tasks(tasks: &Vec<Task>) -> (sorted: Vec<Task>)
    ensures
        task_views(sorted@) == by_due_date(task_views(tasks@)),
        sorted@.len() == tasks@.len(),
{
    let ghost views = task_views(tasks@);
    let mut keys: Vec<i64> = Vec::new();
    let mut i: usize = 0;
    while i < tasks.len()
        invariant
            i <= tasks.len(),
            keys@.len() == i,
            forall|k: int| 0 <= k < i ==> keys@[k] == tasks@[k].due_date,
        decreases tasks.len() - i,
    {
        keys.push(tasks[i].due_date);
        i += 1;
    }
    assert(as_ints(keys@) =~= due_dates(views));
    let order = stable_order_of(&keys);
    let ghost positions = as_positions(order@);
    let mut sorted: Vec<Task> = Vec::new();
    let mut j: usize = 0;
    while j < order.len()
        invariant
            j <= order.len(),
            order@.len() == tasks@.len(),
            positions == as_positions(order@),
            views == task_views(tasks@),
            forall|k: int| 0 <= k < order@.len() ==> order@[k] < tasks@.len(),
            sorted@.len() == j,
            forall|k: int| 0 <= k < j ==> sorted@[k]@ == views[positions[k]],
        decreases order.len() - j,
    {
        sorted.push(tasks[order[j]].clone());
        j += 1;
    }
    assert(task_views(sorted@) =~= in_order(views, positions));
    sorted
}

/// The whole work periods that `minutes` minutes of work take up.
fn periods_for(minutes: u64, work_minutes: u32) -> (periods: u64)
    requires
        work_minutes > 0,
    ensures
        periods == periods_needed(minutes as nat, work_minutes as nat),
{
    let total: u128 = minutes as u128 + work_minutes as u128 - 1;
    let periods: u128 = total / work_minutes as u128;
    proof {
        let m = minutes as int;
        let w = work_minutes as int;
        assert(m + w - 1 <= m * w + w - 1) by (nonlinear_arith)
            requires
                m >= 0,
                w >= 1,
        ;
        vstd::arithmetic::div_mod::lemma_div_is_ordered(m + w - 1, m * w + w - 1, w);
        vstd::arithmetic::div_mod::lemma_fundamental_div_mod_converse(m * w + w - 1, w, m, w - 1);
    }
    periods as u64
}

/// Breaks tasks down into units of work, in the order of the tasks. A task
/// that is done, or past due at `now`, gives none; how long before its due
/// date a task is considered plays no part. A task with a flat duration
/// gives one unit under its own name; a task with subtasks gives one unit
/// per subtask, named "task: subtask". Each unit needs as many work periods
/// as its minutes take up, rounded up.
pub fn unscheduled_periods_from_tasks(config: &Config, tasks: &Vec<Task>, now: i64) -> (units:
    Vec<UnscheduledPeriod>)
    requires
        config.work_minutes > 0,
    ensures
        unit_views(units@) == work_units(
            task_views(tasks@),
            config.work_minutes as nat,
            now as int,
        ),
{
    let ghost views = task_views(tasks@);
    let ghost w = config.work_minutes as nat;
    let mut units: Vec<UnscheduledPeriod> = Vec::new();
    let mut i: usize = 0;
    assert(unit_views(units@) =~= work_units(views.take(0), w, now as int));
    while i < tasks.len()
        invariant
            i <= tasks.len(),
            config.work_minutes > 0,
            w == config.work_minutes as nat,
            views == task_views(tasks@),
            unit_views(units@) == work_units(views.take(i as int), w, now as int),
        decreases tasks.len() - i,
    {
        let task = &tasks[i];
        let ghost before = unit_views(units@);
        proof {
            assert(views.take(i + 1).drop_last() =~= views.take(i as int));
            assert(views.take(i + 1).last() == task@);
        }
        if !task.done && !task.is_past_due(now) {
            match &task.duration {
                TaskDuration::Minutes(m) => {
                    units.push(
                        UnscheduledPeriod {
                            name: task.name.clone(),
                            periods_left: periods_for(*m, config.work_minutes),
                        },
                    );
                    assert(unit_views(units@) =~= before + task_units(task@, w));
                },
                TaskDuration::Subtasks(subtasks) => {
                    let ghost new = task_units(task@, w);
                    let mut j: usize = 0;
                    while j < subtasks.len()
                        invariant
                            j <= subtasks.len(),
                            config.work_minutes > 0,
                            w == config.work_minutes as nat,
                            task.duration == TaskDuration::Subtasks(*subtasks),
                            new == task_units(task@, w),
                            new.len() == subtasks@.len(),
                            unit_views(units@) == before + new.take(j as int),
                        decreases subtasks.len() - j,
                    {
                        let ghost so_far = unit_views(units@);
                        let subtask = &subtasks[j];
                        let mut name = task.name.clone();
                        name.append(": ");
                        name.append(subtask.name.as_str());
                        let unit = UnscheduledPeriod {
                            name,
                            periods_left: periods_for(subtask.duration, config.work_minutes),
                        };
                        units.push(unit);
                        proof {
                            assert(new[j as int] == subtask_unit(task@.name, subtask@, w));
                            assert(unit_views(units@) =~= so_far.push(new[j as int]));
                            assert(so_far.push(new[j as int]) =~= before + new.take(j + 1));
                        }
                        j += 1;
                    }
                    assert(new.take(subtasks@.len() as int) =~= new);
                },
            }
        } else {
            assert(unit_views(units@) =~= before + Seq::<UnscheduledPeriodView>::empty());
        }
        i += 1;
    }
    assert(views.take(tasks@.len() as int) =~= views);
    units
}

/// A job session: a block of work periods with short breaks between them.
/// It starts out empty and takes up to `max_jobs` jobs.
#[derive(Debug)]
pub struct WorkSession {
    pub start: i64,
    pub job_names: Vec<String>,
    pub max_jobs: usize,
    pub job_len_minutes: u32,
    pub break_len_minutes: u32,
}

/// What a [`WorkSession`] is in contracts.
pub struct WorkSessionView {
    pub start: int,
    pub job_names: Seq<Seq<char>>,
    pub max_jobs: nat,
    pub job_len_minutes: nat,
    pub break_len_minutes: nat,
}

impl View for WorkSession {
    type V = WorkSessionView;

    open spec fn view(&self) -> WorkSessionView {
        WorkSessionView {
            start: self.start as int,
            job_names: name_views(self.job_names@),
            max_jobs: self.max_jobs as nat,
            job_len_minutes: self.job_len_minutes as nat,
            break_len_minutes: self.break_len_minutes as nat,
        }
    }
}

impl WorkSessionView {
    /// The session starts at a valid instant, holds no more jobs than it
    /// has room for, and the minutes from its start to the end of its last
    /// possible job fit the length of a span of time.
    pub open spec fn wf(self) -> bool {
        &&& valid_instant(self.start)
        &&& 1 <= self.max_jobs <= u32::MAX
        &&& self.job_names.len() <= self.max_jobs
        &&& self.max_jobs * self.job_len_minutes + (self.max_jobs - 1) * self.break_len_minutes
            <= u32::MAX
    }

    /// The session has no room for another job.
    pub open spec fn full(self) -> bool {
        self.job_names.len() >= self.max_jobs
    }

    /// How many more jobs the session takes.
    pub open spec fn room(self) -> nat {
        if self.job_names.len() >= self.max_jobs {
            0
        } else {
            (self.max_jobs - self.job_names.len()) as nat
        }
    }

    /// The instant at which job number `i` of the session starts: `i` work
    /// periods and `i` short breaks after the start of the session.
    pub open spec fn job_start(self, i: int) -> int {
        self.start + i * (self.job_len_minutes + self.break_len_minutes) * 60
    }

    /// The instant at which the last job of the session ends; the start of
    /// the session when it holds no job.
    pub open spec fn ending(self) -> int {
        if self.job_names.len() == 0 {
            self.start
        } else {
            self.start + (self.job_names.len() * self.job_len_minutes + (self.job_names.len()
                - 1) * self.break_len_minutes) * 60
        }
    }

    /// The entries of the session: its jobs, each but the last followed by
    /// a break. Such a break starts when its job ends and is entered with
    /// the length of a work period.
    pub open spec fn entries(self) -> Seq<EntryView> {
        if self.job_names.len() == 0 {
            Seq::empty()
        } else {
            Seq::new(
                (2 * self.job_names.len() - 1) as nat,
                |k: int|
                    if k % 2 == 0 {
                        EntryView::Job {
                            title: self.job_names[k / 2],
                            span: TimeSpan {
                                start: self.job_start(k / 2) as i64,
                                minutes: self.job_len_minutes as u32,
                            },
                        }
                    } else {
                        EntryView::Break(
                            TimeSpan {
                                start: (self.job_start(k / 2) + self.job_len_minutes * 60) as i64,
                                minutes: self.job_len_minutes as u32,
                            },
                        )
                    },
            )
        }
    }

    /// The session with one more job at its end.
    pub open spec fn with_job(self, name: Seq<char>) -> WorkSessionView {
        WorkSessionView { job_names: self.job_names.push(name), ..self }
    }

    /// The session with more jobs at its end.
    pub open spec fn with_jobs(self, names: Seq<Seq<char>>) -> WorkSessionView {
        WorkSessionView { job_names: self.job_names + names, ..self }
    }
}

/// In a well-formed session, job number `i` ends no later than the last
/// possible job, so the minutes up to its end fit the length of a span.
pub proof fn lemma_job_offset(session: WorkSessionView, i: int)
    requires
        session.wf(),
        0 <= i < session.max_jobs,
    ensures
        0 <= i * (session.job_len_minutes + session.break_len_minutes),
        i * (session.job_len_minutes + session.break_len_minutes) + session.job_len_minutes
            <= session.max_jobs * session.job_len_minutes + (session.max_jobs - 1)
            * session.break_len_minutes <= u32::MAX,
        (i + 1) * session.job_len_minutes + i * session.break_len_minutes == i * (
        session.job_len_minutes + session.break_len_minutes) + session.job_len_minutes,
{
    let m = session.max_jobs as int;
    let j = session.job_len_minutes as int;
    let b = session.break_len_minutes as int;
    assert(0 <= i * (j + b) && i * (j + b) + j <= m * j + (m - 1) * b && (i + 1) * j + i * b == i
        * (j + b) + j) by (nonlinear_arith)
        requires
            0 <= i < m,
            j >= 0,
            b >= 0,
    ;
}

impl WorkSession {
    /// The length of a whole job session in minutes: its work periods, the
    /// short breaks between them and the long break that closes it.
    pub fn len_minutes(config: &Config) -> (minutes: u32)
        requires
            config.wf(),
        ensures
            minutes == config.session_minutes(),
            minutes > 0,
    {
        let periods = config.work_periods_per_job_session as u64;
        assert(1 <= periods * config.work_minutes <= config.session_minutes() && 0 <= (periods
            - 1) * config.short_break_minutes <= config.session_minutes()) by (nonlinear_arith)
            requires
                config.wf(),
                periods == config.work_periods_per_job_session,
        ;
        let minutes: u64 = periods * config.work_minutes as u64 + (periods - 1)
            * config.short_break_minutes as u64 + config.long_break_minutes as u64;
        minutes as u32
    }

    /// An empty session that starts at `start`, with the cadence of
    /// `config`.
    pub fn new(start: i64, config: &Config) -> (session: Self)
        requires
            config.wf(),
            valid_instant(start as int),
        ensures
            session@ == empty_session(start as int, *config),
            session@.wf(),
    {
        let session = Self {
            start,
            job_names: Vec::new(),
            max_jobs: config.work_periods_per_job_session as usize,
            job_len_minutes: config.work_minutes,
            break_len_minutes: config.short_break_minutes,
        };
        proof {
            assert(session@.job_names =~= Seq::<Seq<char>>::empty());
            lemma_empty_session_wf(start as int, *config);
        }
        session
    }

    /// Whether the session has no room for another job.
    pub fn full(&self) -> (yes: bool)
        ensures
            yes == self@.full(),
    {
        self.job_names.len() >= self.max_jobs
    }

    /// Puts one more job at the end of the session. The session must have
    /// room for it: ask [`Self::full`] first.
    pub fn add_job(&mut self, name: &str)
        requires
            !old(self)@.full(),
        ensures
            final(self)@ == old(self)@.with_job(name@),
    {
        self.job_names.push(String::from_str(name));
        assert(name_views(self.job_names@) =~= name_views(old(self).job_names@).push(name@));
    }

    /// The instant at which the last job of the session ends; the start of
    /// the session when it holds no job.
    pub fn ending(&self) -> (ending: i64)
        requires
            self@.wf(),
        ensures
            ending == self@.ending(),
    {
        if self.job_names.len() == 0 {
            self.start
        } else {
            let last: usize = self.job_names.len() - 1;
            proof {
                lemma_job_offset(self@, last as int);
            }
            let pace: i64 = self.job_len_minutes as i64 + self.break_len_minutes as i64;
            let minutes: i64 = last as i64 * pace + self.job_len_minutes as i64;
            self.start + minutes * 60
        }
    }

    /// The entries of the session: its jobs in order, each but the last
    /// followed by a break.
    pub fn into_entries(&self) -> (entries: Vec<PomodoroScheduleEntry>)
        requires
            self@.wf(),
        ensures
            entry_views(entries@) == self@.entries(),
    {
        let ghost all = self@.entries();
        let mut entries: Vec<PomodoroScheduleEntry> = Vec::new();
        let count: usize = self.job_names.len();
        let pace: i64 = self.job_len_minutes as i64 + self.break_len_minutes as i64;
        let mut i: usize = 0;
        assert(entry_views(entries@) =~= all.take(0));
        while i < count
            invariant
                i <= count,
                count == self.job_names@.len(),
                self@.wf(),
                pace == self.job_len_minutes + self.break_len_minutes,
                all == self@.entries(),
                all.len() == 2 * count - 1 || count == 0,
                i < count ==> entry_views(entries@) == all.take(2 * i),
                i == count ==> entry_views(entries@) == all,
            decreases count - i,
        {
            let ghost so_far = entry_views(entries@);
            proof {
                lemma_job_offset(self@, i as int);
            }
            let job_start: i64 = self.start + i as i64 * pace * 60;
            let job = PomodoroScheduleEntry::Job {
                title: self.job_names[i].clone(),
                span: TimeSpan::new(job_start, self.job_len_minutes),
            };
            entries.push(job);
            proof {
                assert(all[2 * i] == job@);
                assert(entry_views(entries@) =~= so_far.push(job@));
                assert(so_far.push(job@) =~= all.take(2 * i + 1));
            }
            if i + 1 < count {
                let ghost with_job = entry_views(entries@);
                let pause = PomodoroScheduleEntry::Break(
                    TimeSpan::new(job_start + self.job_len_minutes as i64 * 60, self.job_len_minutes),
                );
                entries.push(pause);
                proof {
                    assert(all[2 * i + 1] == pause@);
                    assert(entry_views(entries@) =~= with_job.push(pause@));
                    assert(with_job.push(pause@) =~= all.take(2 * (i + 1)));
                }
            } else {
                assert(all.take(2 * i + 1) =~= all);
            }
            i += 1;
        }
        entries
    }
}

/// An empty session that starts at `start`, with the cadence of `config`.
pub open spec fn empty_session(start: int, config: Config) -> WorkSessionView {
    WorkSessionView {
        start,
        job_names: Seq::empty(),
        max_jobs: config.work_periods_per_job_session as nat,
        job_len_minutes: config.work_minutes as nat,
        break_len_minutes: config.short_break_minutes as nat,
    }
}

/// An empty session with the cadence of well-formed settings is well
/// formed.
pub proof fn lemma_empty_session_wf(start: int, config: Config)
    requires
        config.wf(),
        valid_instant(start),
    ensures
        empty_session(start, config).wf(),
{
    let p = config.work_periods_per_job_session as int;
    assert(p * config.work_minutes + (p - 1) * config.short_break_minutes
        <= config.session_minutes());
}

/// The sessions of a list, each as it is in contracts.
pub open spec fn session_views(sessions: Seq<WorkSession>) -> Seq<WorkSessionView> {
    sessions.map_values(|s: WorkSession| s@)
}

/// How many whole job sessions fit into the free time from `free_start` to
/// `free_end`: its whole minutes divided by the length of a session.
pub open spec fn session_count(free_start: int, free_end: int, config: Config) -> nat {
    if free_end > free_start {
        (((free_end - free_start) / 60) / config.session_minutes()) as nat
    } else {
        0
    }
}

/// The empty job sessions that fit into the free time from `free_start` to
/// `free_end`, one behind the other from its start.
pub open spec fn sessions_between(free_start: int, free_end: int, config: Config) -> Seq<
    WorkSessionView,
> {
    Seq::new(
        session_count(free_start, free_end, config),
        |i: int| empty_session(free_start + i * (config.session_minutes() * 60), config),
    )
}

/// The later of two instants.
pub open spec fn later(a: int, b: int) -> int {
    if a >= b {
        a
    } else {
        b
    }
}

/// The empty job sessions that fit into the free time from entry number `i`
/// on, when time is taken up to `busy_until` by what came before. Free time
/// lies between `busy_until` and the start of the next entry, and after the
/// last entry that starts before `until`, up to `until`.
pub open spec fn sessions_from(
    entries: Seq<EntryView>,
    i: int,
    busy_until: int,
    until: int,
    config: Config,
) -> Seq<WorkSessionView>
    decreases entries.len() - i,
{
    if 0 <= i < entries.len() && entries[i].span().start < until {
        sessions_between(busy_until, entries[i].span().start as int, config) + sessions_from(
            entries,
            i + 1,
            later(busy_until, entries[i].span().end_spec()),
            until,
            config,
        )
    } else {
        sessions_between(busy_until, until, config)
    }
}

/// The empty job sessions that fit into the free time between `now` and
/// `until` that the entries leave.
pub open spec fn open_sessions(entries: Seq<EntryView>, config: Config, now: int, until: int) -> Seq<
    WorkSessionView,
> {
    sessions_from(entries, 0, now, until, config)
}

/// The session and the long break that closes it lie between `from` and
/// `until`.
pub open spec fn session_within(
    session: WorkSessionView,
    config: Config,
    from: int,
    until: int,
) -> bool {
    from <= session.start && session.start + config.session_minutes() * 60 <= until
}

/// Every session of the list is well formed and lies, with its long break,
/// between `from` and `until`.
pub open spec fn sessions_within(
    sessions: Seq<WorkSessionView>,
    config: Config,
    from: int,
    until: int,
) -> bool {
    forall|k: int|
        0 <= k < sessions.len() ==> (#[trigger] sessions[k]).wf() && session_within(
            sessions[k],
            config,
            from,
            until,
        )
}

/// Every session of the list is empty and has the cadence of `config`.
pub open spec fn sessions_empty(sessions: Seq<WorkSessionView>, config: Config) -> bool {
    forall|k: int|
        0 <= k < sessions.len() ==> #[trigger] sessions[k] == empty_session(
            sessions[k].start,
            config,
        )
}

/// Session number `i` of a stretch of free time starts `i` whole sessions
/// after the start of the free time, and ends, with its long break, within
/// the free time.
pub proof fn lemma_session_fits(free_start: int, free_end: int, config: Config, i: int)
    requires
        config.wf(),
        0 <= i < session_count(free_start, free_end, config),
    ensures
        0 <= i * (config.session_minutes() * 60),
        i * (config.session_minutes() * 60) == i * config.session_minutes() * 60,
        i * (config.session_minutes() * 60) + config.session_minutes() * 60 <= free_end
            - free_start,
{
    let len = config.session_minutes();
    let free = (free_end - free_start) / 60;
    assert(len >= 1) by (nonlinear_arith)
        requires
            config.wf(),
            len == config.session_minutes(),
    ;
    vstd::arithmetic::div_mod::lemma_fundamental_div_mod(free, len);
    vstd::arithmetic::div_mod::lemma_mod_bound(free, len);
    assert(0 <= i * (len * 60) && i * (len * 60) == i * len * 60 && i * (len * 60) + len * 60
        <= (free / len) * len * 60) by (nonlinear_arith)
        requires
            0 <= i < free / len,
            len >= 1,
    ;
    assert((free / len) * len == len * (free / len)) by (nonlinear_arith);
}

/// Adds to `sessions` the empty job sessions that fit into the free time
/// from `free_start` to `free_end`.
fn push_sessions(sessions: &mut Vec<WorkSession>, free_start: i64, free_end: i64, config: &Config)
    requires
        config.wf(),
        MIN_INSTANT <= free_start <= MAX_INSTANT + 0x1_0000_0000 * 60,
        valid_instant(free_end as int),
    ensures
        session_views(final(sessions)@) == session_views(old(sessions)@) + sessions_between(
            free_start as int,
            free_end as int,
            *config,
        ),
        sessions_within(sessions_between(free_start as int, free_end as int, *config), *config,
            free_start as int, free_end as int),
{
    let ghost before = session_views(sessions@);
    let ghost new = sessions_between(free_start as int, free_end as int, *config);
    assert forall|k: int| 0 <= k < new.len() implies (#[trigger] new[k]).wf() && session_within(
        new[k],
        *config,
        free_start as int,
        free_end as int,
    ) by {
        lemma_session_fits(free_start as int, free_end as int, *config, k);
        lemma_empty_session_wf(new[k].start, *config);
    }
    if free_end > free_start {
        let len: i64 = WorkSession::len_minutes(config) as i64;
        let free_minutes: i64 = (free_end - free_start) / 60;
        let count: i64 = free_minutes / len;
        let mut i: i64 = 0;
        assert(session_views(sessions@) =~= before + new.take(0));
        while i < count
            invariant
                0 <= i <= count,
                config.wf(),
                MIN_INSTANT <= free_start < free_end,
                valid_instant(free_end as int),
                len == config.session_minutes(),
                count == session_count(free_start as int, free_end as int, *config),
                new == sessions_between(free_start as int, free_end as int, *config),
                session_views(sessions@) == before + new.take(i as int),
            decreases count - i,
        {
            let ghost so_far = session_views(sessions@);
            proof {
                lemma_session_fits(free_start as int, free_end as int, *config, i as int);
            }
            let session = WorkSession::new(free_start + i * len * 60, config);
            sessions.push(session);
            proof {
                assert(new[i as int] == session@);
                assert(session_views(sessions@) =~= so_far.push(session@));
                assert(so_far.push(session@) =~= before + new.take(i + 1));
            }
            i += 1;
        }
        assert(new.take(count as int) =~= new);
    } else {
        assert(session_views(sessions@) =~= before + new);
    }
}

/// The open sessions of a list of entries lie between `now` and `until`.
pub proof fn lemma_sessions_from_within(
    entries: Seq<EntryView>,
    i: int,
    busy_until: int,
    now: int,
    until: int,
    config: Config,
)
    requires
        config.wf(),
        valid_instant(now),
        valid_instant(until),
        0 <= i,
        now <= busy_until,
    ensures
        sessions_within(sessions_from(entries, i, busy_until, until, config), config, now, until),
        sessions_empty(sessions_from(entries, i, busy_until, until, config), config),
    decreases entries.len() - i,
{
    let all = sessions_from(entries, i, busy_until, until, config);
    if 0 <= i < entries.len() && entries[i].span().start < until {
        let first = sessions_between(busy_until, entries[i].span().start as int, config);
        let rest = sessions_from(
            entries,
            i + 1,
            later(busy_until, entries[i].span().end_spec()),
            until,
            config,
        );
        lemma_sessions_from_within(
            entries,
            i + 1,
            later(busy_until, entries[i].span().end_spec()),
            now,
            until,
            config,
        );
        assert forall|k: int| 0 <= k < all.len() implies (#[trigger] all[k]).wf()
            && session_within(all[k], config, now, until) by {
            if k < first.len() {
                lemma_session_fits(busy_until, entries[i].span().start as int, config, k);
                lemma_empty_session_wf_at(all[k].start, config);
            } else {
                assert(all[k] == rest[k - first.len()]);
            }
        }
        assert forall|k: int| 0 <= k < all.len() implies #[trigger] all[k] == empty_session(
            all[k].start,
            config,
        ) by {
            if k >= first.len() {
                assert(all[k] == rest[k - first.len()]);
            }
        }
    } else {
        assert forall|k: int| 0 <= k < all.len() implies (#[trigger] all[k]).wf()
            && session_within(all[k], config, now, until) by {
            lemma_session_fits(busy_until, until, config, k);
            lemma_empty_session_wf_at(all[k].start, config);
        }
    }
}

/// An empty session with the cadence of well-formed settings lacks nothing
/// to be well formed but a valid start.
pub proof fn lemma_empty_session_wf_at(start: int, config: Config)
    requires
        config.wf(),
    ensures
        valid_instant(start) ==> empty_session(start, config).wf(),
{
    if valid_instant(start) {
        lemma_empty_session_wf(start, config);
    }
}

/// `count` jobs under one name.
pub open spec fn repeated(name: Seq<char>, count: nat) -> Seq<Seq<char>> {
    Seq::new(count, |i: int| name)
}

/// Takes jobs for up to `room` work periods from the front of a queue of
/// units. The result holds the names of the jobs taken, one per work
/// period, and the queue that is left: units that were used up are gone
/// from its front, and the unit that was only begun has fewer periods left.
pub open spec fn take_jobs(units: Seq<UnscheduledPeriodView>, room: nat) -> (
    Seq<Seq<char>>,
    Seq<UnscheduledPeriodView>,
)
    decreases units.len(),
{
    if units.len() == 0 {
        (Seq::empty(), Seq::empty())
    } else {
        let unit = units[0];
        if unit.periods_left <= room {
            let later = take_jobs(units.drop_first(), (room - unit.periods_left) as nat);
            (repeated(unit.name, unit.periods_left) + later.0, later.1)
        } else {
            (
                repeated(unit.name, room),
                seq![
                    UnscheduledPeriodView {
                        name: unit.name,
                        periods_left: (unit.periods_left - room) as nat,
                    },
                ] + units.drop_first(),
            )
        }
    }
}

/// Fills the sessions in order from a queue of units: each session takes
/// as many jobs as it has room for. The result holds the filled sessions
/// and the queue that is left after the last one.
pub open spec fn fill_sessions(
    sessions: Seq<WorkSessionView>,
    units: Seq<UnscheduledPeriodView>,
) -> (Seq<WorkSessionView>, Seq<UnscheduledPeriodView>)
    decreases sessions.len(),
{
    if sessions.len() == 0 {
        (Seq::empty(), units)
    } else {
        let taken = take_jobs(units, sessions[0].room());
        let later = fill_sessions(sessions.drop_first(), taken.1);
        (seq![sessions[0].with_jobs(taken.0)] + later.0, later.1)
    }
}

/// The units of a queue that still have work periods left.
pub open spec fn with_work_left(units: Seq<UnscheduledPeriodView>) -> Seq<UnscheduledPeriodView>
    decreases units.len(),
{
    if units.len() == 0 {
        Seq::empty()
    } else {
        with_work_left(units.drop_last()) + (if units.last().periods_left > 0 {
            seq![units.last()]
        } else {
            Seq::empty()
        })
    }
}

/// What a session adds to a schedule: its own entries, and behind its last
/// job the long break that closes it. A session that holds no job adds
/// nothing.
pub open spec fn session_block(session: WorkSessionView, long_break_minutes: nat) -> Seq<
    EntryView,
> {
    if session.job_names.len() == 0 {
        Seq::empty()
    } else {
        session.entries().push(
            EntryView::Break(
                TimeSpan { start: session.ending() as i64, minutes: long_break_minutes as u32 },
            ),
        )
    }
}

/// What a list of sessions adds to a schedule, session after session.
pub open spec fn all_session_entries(sessions: Seq<WorkSessionView>, long_break_minutes: nat) -> Seq<
    EntryView,
>
    decreases sessions.len(),
{
    if sessions.len() == 0 {
        Seq::empty()
    } else {
        all_session_entries(sessions.drop_last(), long_break_minutes) + session_block(
            sessions.last(),
            long_break_minutes,
        )
    }
}

/// Fills one session from the front of a queue of units, as far as the
/// session has room, and returns the queue that is left.
pub fn fill_session(session: &mut WorkSession, units: &Vec<UnscheduledPeriod>) -> (rest: Vec<
    UnscheduledPeriod,
>)
    requires
        old(session)@.wf(),
    ensures
        final(session)@ == old(session)@.with_jobs(
            take_jobs(unit_views(units@), old(session)@.room()).0,
        ),
        unit_views(rest@) == take_jobs(unit_views(units@), old(session)@.room()).1,
        final(session)@.wf(),
{
    let ghost views = unit_views(units@);
    let ghost first = session@;
    let ghost target = take_jobs(views, first.room());
    let ghost taken: Seq<Seq<char>> = Seq::empty();
    let mut rest: Vec<UnscheduledPeriod> = Vec::new();
    let mut i: usize = 0;
    proof {
        assert(views.skip(0) =~= views);
        assert(first.with_jobs(taken).job_names =~= first.job_names);
    }
    while i < units.len()
        invariant
            i <= units.len(),
            views == unit_views(units@),
            first == old(session)@,
            first.wf(),
            session@.wf(),
            target == take_jobs(views, first.room()),
            session@ == first.with_jobs(taken),
            target.0 == taken + take_jobs(views.skip(i as int), session@.room()).0,
            target.1 == take_jobs(views.skip(i as int), session@.room()).1,
            rest@.len() == 0,
        decreases units.len() - i,
    {
        let unit = &units[i];
        let ghost at_unit = session@;
        let ghost room = at_unit.room();
        let mut left: u64 = unit.periods_left;
        proof {
            assert(views.skip(i as int)[0] == unit@);
            assert(views.skip(i as int).drop_first() =~= views.skip(i + 1));
            assert(at_unit.with_jobs(repeated(unit@.name, 0)).job_names =~= at_unit.job_names);
        }
        while left > 0 && !session.full()
            invariant
                left <= unit.periods_left,
                at_unit.wf(),
                session@.wf(),
                room == at_unit.room(),
                unit.periods_left - left <= room,
                session@ == at_unit.with_jobs(
                    repeated(unit@.name, (unit.periods_left - left) as nat),
                ),
            decreases left,
        {
            let ghost done = (unit.periods_left - left) as nat;
            session.add_job(unit.name.as_str());
            left -= 1;
            proof {
                assert(repeated(unit@.name, done).push(unit@.name) =~= repeated(
                    unit@.name,
                    done + 1,
                ));
                assert(session@.job_names =~= at_unit.job_names + repeated(unit@.name, done + 1));
            }
        }
        let ghost used = (unit.periods_left - left) as nat;
        proof {
            assert(session@.job_names =~= first.job_names + (taken + repeated(unit@.name, used)));
        }
        if left > 0 {
            proof {
                assert(used == room);
                taken = taken + repeated(unit@.name, used);
                assert(target.0 =~= taken);
            }
            rest.push(UnscheduledPeriod { name: unit.name.clone(), periods_left: left });
            let ghost head = unit_views(rest@);
            assert(head =~= seq![
                UnscheduledPeriodView {
                    name: unit@.name,
                    periods_left: (unit.periods_left - room) as nat,
                },
            ]);
            let mut j: usize = i + 1;
            proof {
                assert(head + views.subrange(i + 1, j as int) =~= head);
                assert(target.1 == head + views.skip(i + 1));
            }
            while j < units.len()
                invariant
                    i < j <= units.len(),
                    views == unit_views(units@),
                    first == old(session)@,
                    target == take_jobs(views, first.room()),
                    session@ == first.with_jobs(taken),
                    session@.wf(),
                    target.0 == taken,
                    target.1 == head + views.skip(i + 1),
                    unit_views(rest@) == head + views.subrange(i + 1, j as int),
                decreases units.len() - j,
            {
                let ghost so_far = unit_views(rest@);
                rest.push(units[j].clone());
                proof {
                    assert(unit_views(rest@) =~= so_far.push(views[j as int]));
                    assert(so_far.push(views[j as int]) =~= head + views.subrange(i + 1, j + 1));
                }
                j += 1;
            }
            proof {
                assert(views.subrange(i + 1, units@.len() as int) =~= views.skip(i + 1));
            }
            return rest;
        }
        proof {
            taken = taken + repeated(unit@.name, used);
            let later = take_jobs(views.skip(i + 1), (room - used) as nat);
            assert(session@.room() == room - used);
            assert(target.0 =~= taken + later.0);
        }
        i += 1;
    }
    proof {
        assert(views.skip(units@.len() as int) =~= Seq::<UnscheduledPeriodView>::empty());
        assert(target.0 =~= taken);
        assert(unit_views(rest@) =~= target.1);
    }
    rest
}

/// The units of a queue that still have work periods left.
pub fn unfinished(units: &Vec<UnscheduledPeriod>) -> (left: Vec<UnscheduledPeriod>)
    ensures
        unit_views(left@) == with_work_left(unit_views(units@)),
{
    let ghost views = unit_views(units@);
    let mut left: Vec<UnscheduledPeriod> = Vec::new();
    let mut i: usize = 0;
    assert(unit_views(left@) =~= with_work_left(views.take(0)));
    while i < units.len()
        invariant
            i <= units.len(),
            views == unit_views(units@),
            unit_views(left@) == with_work_left(views.take(i as int)),
        decreases units.len() - i,
    {
        let ghost so_far = unit_views(left@);
        proof {
            assert(views.take(i + 1).drop_last() =~= views.take(i as int));
            assert(views.take(i + 1).last() == views[i as int]);
        }
        if units[i].periods_left > 0 {
            left.push(units[i].clone());
            assert(unit_views(left@) =~= so_far + seq![views[i as int]]);
        } else {
            assert(unit_views(left@) =~= so_far + Seq::<UnscheduledPeriodView>::empty());
        }
        i += 1;
    }
    assert(views.take(units@.len() as int) =~= views);
    left
}

/// A schedule made with the Pomodoro method: its entries in ascending
/// order of their starts, and the work that found no room in it.
#[derive(Debug)]
pub struct PomodoroSchedule {
    pub entries: Vec<PomodoroScheduleEntry>,
    pub unscheduled: Vec<UnscheduledPeriod>,
}

/// What a [`PomodoroSchedule`] is in contracts.
pub struct PomodoroScheduleView {
    pub entries: Seq<EntryView>,
    pub unscheduled: Seq<UnscheduledPeriodView>,
}

impl View for PomodoroSchedule {
    type V = PomodoroScheduleView;

    open spec fn view(&self) -> PomodoroScheduleView {
        PomodoroScheduleView {
            entries: entry_views(self.entries@),
            unscheduled: unit_views(self.unscheduled@),
        }
    }
}

/// The entries of a list that have not ended before `now`.
pub open spec fn not_ended(entries: Seq<EntryView>, now: int) -> Seq<EntryView>
    decreases entries.len(),
{
    if entries.len() == 0 {
        Seq::empty()
    } else if entries.last().span().end_spec() >= now {
        not_ended(entries.drop_last(), now).push(entries.last())
    } else {
        not_ended(entries.drop_last(), now)
    }
}

/// Copies a list of entries.
fn copy_entries(entries: &Vec<PomodoroScheduleEntry>) -> (copy: Vec<PomodoroScheduleEntry>)
    ensures
        copy@ == entries@,
{
    let mut copy: Vec<PomodoroScheduleEntry> = Vec::new();
    let mut i: usize = 0;
    while i < entries.len()
        invariant
            i <= entries.len(),
            copy@ == entries@.take(i as int),
        decreases entries.len() - i,
    {
        copy.push(entries[i].clone());
        assert(entries@.take(i + 1) =~= entries@.take(i as int).push(entries@[i as int]));
        i += 1;
    }
    assert(entries@.take(entries@.len() as int) =~= entries@);
    copy
}

/// Copies a list of units.
fn copy_units(units: &Vec<UnscheduledPeriod>) -> (copy: Vec<UnscheduledPeriod>)
    ensures
        copy@ == units@,
{
    let mut copy: Vec<UnscheduledPeriod> = Vec::new();
    let mut i: usize = 0;
    while i < units.len()
        invariant
            i <= units.len(),
            copy@ == units@.take(i as int),
        decreases units.len() - i,
    {
        copy.push(units[i].clone());
        assert(units@.take(i + 1) =~= units@.take(i as int).push(units@[i as int]));
        i += 1;
    }
    assert(units@.take(units@.len() as int) =~= units@);
    copy
}

impl Clone for PomodoroSchedule {
    fn clone(&self) -> (copy: Self)
        ensures
            copy@ == self@,
    {
        PomodoroSchedule {
            entries: copy_entries(&self.entries),
            unscheduled: copy_units(&self.unscheduled),
        }
    }
}

impl PomodoroSchedule {
    pub fn get_entries(&self) -> (entries: &Vec<PomodoroScheduleEntry>)
        ensures
            entries@ == self.entries@,
    {
        &self.entries
    }

    /// The entries that have not ended before `now`, in the order of the
    /// schedule: what there is to show of it.
    pub fn upcoming(&self, now: i64) -> (entries: Vec<PomodoroScheduleEntry>)
        requires
            entries_wf(entry_views(self.entries@)),
        ensures
            entry_views(entries@) == not_ended(entry_views(self.entries@), now as int),
    {
        let ghost views = entry_views(self.entries@);
        let mut entries: Vec<PomodoroScheduleEntry> = Vec::new();
        let mut i: usize = 0;
        assert(entry_views(entries@) =~= not_ended(views.take(0), now as int));
        while i < self.entries.len()
            invariant
                i <= self.entries.len(),
                views == entry_views(self.entries@),
                entries_wf(views),
                entry_views(entries@) == not_ended(views.take(i as int), now as int),
            decreases self.entries.len() - i,
        {
            let ghost so_far = entry_views(entries@);
            proof {
                assert(views.take(i + 1).drop_last() =~= views.take(i as int));
                assert(views.take(i + 1).last() == self.entries@[i as int]@);
                assert(views[i as int].span().wf());
            }
            if self.entries[i].span().end() >= now {
                entries.push(self.entries[i].clone());
                assert(entry_views(entries@) =~= so_far.push(views[i as int]));
            }
            i += 1;
        }
        assert(views.take(self.entries@.len() as int) =~= views);
        entries
    }

    /// The work that found no room in the schedule.
    pub fn get_unscheduled(&self) -> (unscheduled: &Vec<UnscheduledPeriod>)
        ensures
            unscheduled@ == self.unscheduled@,
    {
        &self.unscheduled
    }

    /// Finds the free time between `now` and `until` that the entries of
    /// the schedule leave, and cuts it into empty job sessions. Time counts
    /// as taken up to the latest end of the entries gone through so far;
    /// what is left of a stretch of free time after its last whole session
    /// is not used.
    pub fn get_open_work_sessions(&self, config: &Config, now: i64, until: i64) -> (sessions: Vec<
        WorkSession,
    >)
        requires
            config.wf(),
            valid_instant(now as int),
            valid_instant(until as int),
            entries_wf(entry_views(self.entries@)),
        ensures
            session_views(sessions@) == open_sessions(
                entry_views(self.entries@),
                *config,
                now as int,
                until as int,
            ),
            sessions_within(session_views(sessions@), *config, now as int, until as int),
            sessions_empty(session_views(sessions@), *config),
    {
        let ghost views = entry_views(self.entries@);
        let ghost all = open_sessions(views, *config, now as int, until as int);
        let mut sessions: Vec<WorkSession> = Vec::new();
        let mut busy_until: i64 = now;
        let mut i: usize = 0;
        assert(session_views(sessions@) + all =~= all);
        while i < self.entries.len() && self.entries[i].span().start < until
            invariant
                i <= self.entries.len(),
                config.wf(),
                valid_instant(now as int),
                valid_instant(until as int),
                views == entry_views(self.entries@),
                entries_wf(views),
                now <= busy_until <= MAX_INSTANT + 0x1_0000_0000 * 60,
                all == session_views(sessions@) + sessions_from(
                    views,
                    i as int,
                    busy_until as int,
                    until as int,
                    *config,
                ),
            decreases self.entries.len() - i,
        {
            let span = self.entries[i].span();
            assert(views[i as int].span() == *span);
            assert(span.wf());
            let ghost before = session_views(sessions@);
            let ghost here = sessions_between(busy_until as int, span.start as int, *config);
            let ghost busy_before = busy_until as int;
            push_sessions(&mut sessions, busy_until, span.start, config);
            let end = span.end();
            if end > busy_until {
                busy_until = end;
            }
            proof {
                let rest = sessions_from(views, i + 1, busy_until as int, until as int, *config);
                assert(busy_until == later(busy_before, span.end_spec()));
                assert(all =~= (before + here) + rest);
            }
            i += 1;
        }
        push_sessions(&mut sessions, busy_until, until, config);
        proof {
            lemma_sessions_from_within(views, 0, now as int, now as int, until as int, *config);
        }
        sessions
    }
}

/// The schedule that comes of packing work into the free time that
/// `entries` leave between `now` and `until`: the open sessions are filled
/// in order from the units of work of `tasks`, every session that got a job
/// adds its jobs, its breaks and its closing long break behind the entries,
/// and the units with work periods left are reported as unscheduled.
pub open spec fn filled_schedule(
    entries: Seq<EntryView>,
    config: Config,
    tasks: Seq<TaskView>,
    now: int,
    until: int,
) -> PomodoroScheduleView {
    let filled = fill_sessions(
        open_sessions(entries, config, now, until),
        work_units(tasks, config.work_minutes as nat, now),
    );
    PomodoroScheduleView {
        entries: entries + all_session_entries(filled.0, config.long_break_minutes as nat),
        unscheduled: with_work_left(filled.1),
    }
}

/// The entries that a session adds to a schedule start at valid instants
/// when the session, with its long break, lies between two valid instants.
pub proof fn lemma_session_block_wf(
    session: WorkSessionView,
    config: Config,
    from: int,
    until: int,
)
    requires
        config.wf(),
        valid_instant(from),
        valid_instant(until),
        session.wf(),
        session_within(session, config, from, until),
        session.max_jobs == config.work_periods_per_job_session,
        session.job_len_minutes == config.work_minutes,
        session.break_len_minutes == config.short_break_minutes,
    ensures
        entries_wf(session_block(session, config.long_break_minutes as nat)),
        forall|k: int|
            0 <= k < session.entries().len() ==> from <= (
            #[trigger] session.entries()[k]).span().start && session.entries()[k].span().end_spec()
                <= until,
        from <= session.ending() <= until,
        forall|k: int|
            0 <= k < session_block(session, config.long_break_minutes as nat).len() ==> {
                let entry = #[trigger] session_block(session, config.long_break_minutes as nat)[k];
                &&& !(entry is Calendar) && !(entry is Sleep)
                &&& session.start <= entry.span().start
                &&& entry.span().end_spec() <= session.start + config.session_minutes() * 60
            },
{
    let block = session_block(session, config.long_break_minutes as nat);
    let n = session.job_names.len() as int;
    let j = config.work_minutes as int;
    let b = config.short_break_minutes as int;
    let p = config.work_periods_per_job_session as int;
    assert(p * j + (p - 1) * b + config.long_break_minutes == config.session_minutes());
    if n > 0 {
        lemma_job_offset(session, n - 1);
        assert((n - 1 + 1) * j + (n - 1) * b == n * j + (n - 1) * b) by (nonlinear_arith);
    }
    assert forall|k: int| 0 <= k < session.entries().len() implies from <= (
    #[trigger] session.entries()[k]).span().start && session.entries()[k].span().wf()
        && session.entries()[k].span().end_spec() <= until by {
        let i = k / 2;
        let offset = i * (j + b);
        lemma_job_offset(session, i);
        assert(session.job_start(i) == session.start + offset * 60);
        if k % 2 == 1 {
            lemma_job_offset(session, i + 1);
            assert((i + 1) * (j + b) == offset + j + b) by (nonlinear_arith)
                requires
                    offset == i * (j + b),
            ;
            assert(offset + 2 * j <= p * j + (p - 1) * b);
        } else {
            assert(offset + j <= p * j + (p - 1) * b);
        }
    }
    assert forall|k: int| 0 <= k < block.len() implies (#[trigger] block[k]).span().wf() by {
        if k < session.entries().len() {
            assert(block[k] == session.entries()[k]);
        }
    }
    assert forall|k: int| 0 <= k < block.len() implies {
        let entry = #[trigger] block[k];
        &&& !(entry is Calendar) && !(entry is Sleep)
        &&& session.start <= entry.span().start
        &&& entry.span().end_spec() <= session.start + config.session_minutes() * 60
    } by {
        if k < session.entries().len() {
            assert(block[k] == session.entries()[k]);
            let i = k / 2;
            let offset = i * (j + b);
            lemma_job_offset(session, i);
            assert(session.job_start(i) == session.start + offset * 60);
            if k % 2 == 1 {
                lemma_job_offset(session, i + 1);
                assert((i + 1) * (j + b) == offset + j + b) by (nonlinear_arith)
                    requires
                        offset == i * (j + b),
                ;
            }
        }
    }
}

/// Filling sessions leaves each where it was and as it was but for its
/// jobs, and gives none more jobs than it has room for.
pub proof fn lemma_fill_sessions(
    sessions: Seq<WorkSessionView>,
    units: Seq<UnscheduledPeriodView>,
)
    ensures
        fill_sessions(sessions, units).0.len() == sessions.len(),
        forall|k: int|
            0 <= k < sessions.len() ==> {
                let filled = #[trigger] fill_sessions(sessions, units).0[k];
                &&& filled.start == sessions[k].start
                &&& filled.max_jobs == sessions[k].max_jobs
                &&& filled.job_len_minutes == sessions[k].job_len_minutes
                &&& filled.break_len_minutes == sessions[k].break_len_minutes
                &&& filled.job_names.len() <= sessions[k].job_names.len() + sessions[k].room()
            },
    decreases sessions.len(),
{
    if sessions.len() > 0 {
        let taken = take_jobs(units, sessions[0].room());
        lemma_take_jobs(units, sessions[0].room());
        lemma_fill_sessions(sessions.drop_first(), taken.1);
        let later = fill_sessions(sessions.drop_first(), taken.1);
        let all = fill_sessions(sessions, units).0;
        assert forall|k: int| 0 <= k < sessions.len() implies {
            let filled = #[trigger] all[k];
            &&& filled.start == sessions[k].start
            &&& filled.max_jobs == sessions[k].max_jobs
            &&& filled.job_len_minutes == sessions[k].job_len_minutes
            &&& filled.break_len_minutes == sessions[k].break_len_minutes
            &&& filled.job_names.len() <= sessions[k].job_names.len() + sessions[k].room()
        } by {
            if k > 0 {
                assert(all[k] == later.0[k - 1]);
                assert(sessions.drop_first()[k - 1] == sessions[k]);
            }
        }
    }
}

/// Taking jobs for `room` work periods gives no more than `room` jobs.
pub proof fn lemma_take_jobs(units: Seq<UnscheduledPeriodView>, room: nat)
    ensures
        take_jobs(units, room).0.len() <= room,
    decreases units.len(),
{
    if units.len() > 0 && units[0].periods_left <= room {
        lemma_take_jobs(units.drop_first(), (room - units[0].periods_left) as nat);
    }
}

impl PomodoroSchedule {
    /// Packs the work of `tasks` into the free time that the entries of the
    /// schedule leave between `now` and `until`. The tasks are taken in the
    /// order given. Without tasks nothing changes.
    pub fn fill_free_time(&mut self, config: &Config, tasks: &Vec<Task>, now: i64, until: i64)
        requires
            config.wf(),
            valid_instant(now as int),
            valid_instant(until as int),
            entries_wf(entry_views(old(self).entries@)),
        ensures
            tasks@.len() == 0 ==> *final(self) == *old(self),
            tasks@.len() > 0 ==> final(self)@ == filled_schedule(
                entry_views(old(self).entries@),
                *config,
                task_views(tasks@),
                now as int,
                until as int,
            ),
            entries_wf(entry_views(final(self).entries@)),
    {
        if tasks.len() == 0 {
            return;
        }
        let units = unscheduled_periods_from_tasks(config, tasks, now);
        let open = self.get_open_work_sessions(config, now, until);
        let ghost fixed = entry_views(self.entries@);
        let ghost opens = session_views(open@);
        let ghost target = fill_sessions(opens, unit_views(units@));
        let ghost filled: Seq<WorkSessionView> = Seq::empty();
        let ghost long_break = config.long_break_minutes as nat;
        let mut queue = units;
        let mut k: usize = 0;
        proof {
            assert(opens.skip(0) =~= opens);
            assert(filled + target.0 =~= target.0);
            assert(fixed + all_session_entries(filled, long_break) =~= fixed);
        }
        while k < open.len()
            invariant
                k <= open.len(),
                config.wf(),
                valid_instant(now as int),
                valid_instant(until as int),
                long_break == config.long_break_minutes as nat,
                opens == session_views(open@),
                sessions_within(opens, *config, now as int, until as int),
                sessions_empty(opens, *config),
                target.0 == filled + fill_sessions(opens.skip(k as int), unit_views(queue@)).0,
                target.1 == fill_sessions(opens.skip(k as int), unit_views(queue@)).1,
                entry_views(self.entries@) == fixed + all_session_entries(filled, long_break),
                entries_wf(entry_views(self.entries@)),
                self.unscheduled == old(self).unscheduled,
            decreases open.len() - k,
        {
            let ghost before = entry_views(self.entries@);
            let ghost here = opens.skip(k as int);
            let ghost units_here = unit_views(queue@);
            proof {
                assert(here[0] == opens[k as int]);
                assert(here.drop_first() =~= opens.skip(k + 1));
                assert(opens[k as int] == open@[k as int]@);
                assert(opens[k as int].wf());
                assert(opens[k as int] == empty_session(opens[k as int].start, *config));
            }
            let mut session = WorkSession::new(open[k].start, config);
            queue = fill_session(&mut session, &queue);
            proof {
                lemma_take_jobs(units_here, opens[k as int].room());
                lemma_session_block_wf(session@, *config, now as int, until as int);
            }
            if session.job_names.len() > 0 {
                let mut block = session.into_entries();
                let closing = PomodoroScheduleEntry::Break(
                    TimeSpan::new(session.ending(), config.long_break_minutes),
                );
                self.entries.append(&mut block);
                self.entries.push(closing);
            }
            proof {
                let added = session_block(session@, long_break);
                assert(entry_views(self.entries@) =~= before + added);
                let more = filled.push(session@);
                assert(more.drop_last() =~= filled);
                assert(all_session_entries(more, long_break) == all_session_entries(
                    filled,
                    long_break,
                ) + added);
                assert(before + added =~= fixed + all_session_entries(more, long_break));
                let later = fill_sessions(opens.skip(k + 1), unit_views(queue@));
                assert(target.0 =~= more + later.0);
                filled = more;
                assert forall|i: int| 0 <= i < entry_views(self.entries@).len() implies (
                #[trigger] entry_views(self.entries@)[i]).span().wf() by {
                    if i < before.len() {
                        assert(entry_views(self.entries@)[i] == before[i]);
                    } else {
                        assert(entry_views(self.entries@)[i] == added[i - before.len()]);
                    }
                }
            }
            k += 1;
        }
        proof {
            assert(opens.skip(open@.len() as int) =~= Seq::<WorkSessionView>::empty());
            assert(target.0 =~= filled);
        }
        self.unscheduled = unfinished(&queue);
    }
}

/// Every task of the list is due at a valid instant.
pub open spec fn tasks_wf(tasks: Seq<TaskView>) -> bool {
    forall|i: int| 0 <= i < tasks.len() ==> valid_instant((#[trigger] tasks[i]).due_date)
}

/// The schedule that the Pomodoro method makes at `now`, where `sleep` is
/// the first night's sleep. It reaches up to the latest due date. The
/// calendar events and the nights' sleep are laid down first; the free time
/// they leave is cut into job sessions; the sessions are filled with the
/// work of the tasks in order of their due dates; and all entries are
/// brought into ascending order of their starts.
pub open spec fn pomodoro_schedule(
    config: Config,
    tasks: Seq<TaskView>,
    events: Seq<CalendarEventView>,
    sleep: TimeSpan,
    now: int,
) -> PomodoroScheduleView {
    let until = latest_due_date(tasks);
    let packed = filled_schedule(
        fixed_entries(events, sleep, until),
        config,
        by_due_date(tasks),
        now,
        until,
    );
    PomodoroScheduleView {
        entries: sorted_by_start(packed.entries),
        unscheduled: packed.unscheduled,
    }
}

/// `sleep` is the sleep of the night before `now`: it lasts as long as the
/// sleep window, and starts when the local wall clock reads the window's
/// start on the day before the local day of `now`.
pub open spec fn is_first_sleep(sleep: TimeSpan, bedtime: Bedtime, now: int) -> bool {
    &&& sleep.wf()
    &&& sleep.minutes == bedtime.minutes
    &&& exists|today: int| #[trigger]
        is_local_day_of(today, now) && is_instant_of(
            sleep.start as int,
            wall_clock(today - 1, bedtime.start as int),
        )
}

/// The sleep of the night before `now`. Sleep is laid down from the day
/// before, so that a night that is under way at `now` is in the schedule.
pub fn first_sleep(bedtime: &Bedtime, now: i64) -> (sleep: Result<TimeSpan, SparrowError>)
    requires
        bedtime.wf(),
        valid_instant(now as int),
    ensures
        sleep matches Ok(span) ==> is_first_sleep(span, *bedtime, now as int),
        sleep matches Err(e) ==> e is InvalidTimezoneConversion,
{
    let today = match local_day_of(now) {
        Ok(day) => day,
        Err(e) => {
            return Err(e);
        },
    };
    proof {
        lemma_local_day_bounds(today as int, now as int);
    }
    let reading = wall_clock_at(today - 1, bedtime.start);
    let offsets = local_offsets_of_wall_clock(reading);
    match single_instant(reading, offsets) {
        Ok(start) => {
            let span = TimeSpan::new(start, bedtime.minutes);
            assert(is_local_day_of(today as int, now as int) && is_instant_of(
                span.start as int,
                wall_clock(today - 1, bedtime.start as int),
            ));
            Ok(span)
        },
        Err(e) => Err(e),
    }
}

impl PomodoroSchedule {
    /// Makes the schedule at `now`, given the first night's sleep. Fails
    /// when there is no task, and only then.
    pub fn assemble(
        config: &Config,
        tasks: &Vec<Task>,
        events: &Vec<CalendarEvent>,
        sleep: &TimeSpan,
        now: i64,
    ) -> (schedule: Result<Self, SparrowError>)
        requires
            config.wf(),
            tasks_wf(task_views(tasks@)),
            events_wf(event_views(events@)),
            sleep.wf(),
            valid_instant(now as int),
        ensures
            schedule is Err <==> tasks@.len() == 0,
            schedule matches Err(e) ==> e is NoTasks,
            schedule matches Ok(s) ==> s@ == pomodoro_schedule(
                *config,
                task_views(tasks@),
                event_views(events@),
                *sleep,
                now as int,
            ) && ascending(s@.entries) && entries_wf(s@.entries),
    {
        let until = match last_due_date(tasks) {
            Some(due) => due,
            None => {
                return Err(SparrowError::NoTasks);
            },
        };
        proof {
            lemma_latest_due_date(task_views(tasks@));
        }
        let sorted = sort_tasks(tasks);
        let entries = breaks_to_schedule_entries(events, until, sleep);
        let mut packed = PomodoroSchedule { entries, unscheduled: Vec::new() };
        packed.fill_free_time(config, &sorted, now, until);
        let entries = sort_entries(&packed.entries);
        proof {
            lemma_sorted_by_start(entry_views(packed.entries@));
        }
        Ok(PomodoroSchedule { entries, unscheduled: packed.unscheduled })
    }

    /// Makes the schedule at `now`. Fails without tasks; fails too when the
    /// start of last night's sleep names no single valid instant in the
    /// local time zone.
    pub fn make(
        config: &Config,
        tasks: &Vec<Task>,
        events: &Vec<CalendarEvent>,
        bedtime: &Bedtime,
        now: i64,
    ) -> (schedule: Result<Self, SparrowError>)
        requires
            config.wf(),
            tasks_wf(task_views(tasks@)),
            events_wf(event_views(events@)),
            bedtime.wf(),
            valid_instant(now as int),
        ensures
            tasks@.len() == 0 ==> schedule is Err,
            schedule matches Err(e) ==> (e is NoTasks <==> tasks@.len() == 0) && (e is NoTasks
                || e is InvalidTimezoneConversion),
            schedule matches Ok(s) ==> ascending(s@.entries) && entries_wf(s@.entries) && exists|
                sleep: TimeSpan,
            |
                is_first_sleep(sleep, *bedtime, now as int) && s@ == #[trigger] pomodoro_schedule(
                    *config,
                    task_views(tasks@),
                    event_views(events@),
                    sleep,
                    now as int,
                ),
    {
        if tasks.len() == 0 {
            return Err(SparrowError::NoTasks);
        }
        match first_sleep(bedtime, now) {
            Ok(sleep) => Self::assemble(config, tasks, events, &sleep, now),
            Err(e) => Err(e),
        }
    }
}

/// Two schedules made from the same settings, tasks, events and first
/// night's sleep at the same instant are the same, entry for entry and
/// character for character.
pub proof fn lemma_schedule_is_determined(
    first: PomodoroSchedule,
    second: PomodoroSchedule,
    config: Config,
    tasks: Seq<TaskView>,
    events: Seq<CalendarEventView>,
    sleep: TimeSpan,
    now: int,
)
    requires
        first@ == pomodoro_schedule(config, tasks, events, sleep, now),
        second@ == pomodoro_schedule(config, tasks, events, sleep, now),
    ensures
        first@ == second@,
        first@.entries.len() == second@.entries.len(),
        forall|i: int|
            0 <= i < first@.entries.len() ==> first.entries@[i]@ == second.entries@[i]@,
{
    assert forall|i: int| 0 <= i < first@.entries.len() implies first.entries@[i]@
        == second.entries@[i]@ by {
        assert(entry_views(first.entries@)[i] == first.entries@[i]@);
        assert(entry_views(second.entries@)[i] == second.entries@[i]@);
    }
}

/// Tells whether every task of the list is due at a valid instant.
pub fn tasks_are_wf(tasks: &Vec<Task>) -> (ok: bool)
    ensures
        ok == tasks_wf(task_views(tasks@)),
{
    let ghost views = task_views(tasks@);
    let mut i: usize = 0;
    while i < tasks.len()
        invariant
            i <= tasks.len(),
            views == task_views(tasks@),
            forall|k: int| 0 <= k < i ==> valid_instant((#[trigger] views[k]).due_date),
        decreases tasks.len() - i,
    {
        if !is_valid_instant(tasks[i].due_date) {
            assert(!valid_instant(views[i as int].due_date));
            return false;
        }
        i += 1;
    }
    true
}

/// Tells whether every event of the list starts at a valid instant.
pub fn events_are_wf(events: &Vec<CalendarEvent>) -> (ok: bool)
    ensures
        ok == events_wf(event_views(events@)),
{
    let ghost views = event_views(events@);
    let mut i: usize = 0;
    while i < events.len()
        invariant
            i <= events.len(),
            views == event_views(events@),
            forall|k: int| 0 <= k < i ==> (#[trigger] views[k]).time_span.wf(),
        decreases events.len() - i,
    {
        if !is_valid_instant(events[i].time_span.start) {
            assert(!views[i as int].time_span.wf());
            return false;
        }
        i += 1;
    }
    true
}

/// Tells whether every entry of the list starts at a valid instant.
pub fn entries_are_wf(entries: &Vec<PomodoroScheduleEntry>) -> (ok: bool)
    ensures
        ok == entries_wf(entry_views(entries@)),
{
    let ghost views = entry_views(entries@);
    let mut i: usize = 0;
    while i < entries.len()
        invariant
            i <= entries.len(),
            views == entry_views(entries@),
            forall|k: int| 0 <= k < i ==> (#[trigger] views[k]).span().wf(),
        decreases entries.len() - i,
    {
        if !is_valid_instant(entries[i].span().start) {
            assert(!views[i as int].span().wf());
            return false;
        }
        i += 1;
    }
    true
}

} // verus!
