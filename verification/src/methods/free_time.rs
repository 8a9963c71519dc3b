//! What holds of every Pomodoro schedule: work is packed into free time
//! only, and no work is lost on the way.

use crate::data::Config;
use crate::methods::pomodoro::{
    all_event_entries, all_session_entries, ascending, by_due_date, empty_session,
    event_entries, events_wf, fill_sessions, filled_schedule, fixed_entries, later,
    latest_due_date, lemma_fill_sessions, lemma_latest_due_date, lemma_session_block_wf,
    lemma_session_fits, lemma_sessions_from_within, lemma_sorted_by_start, open_sessions,
    pomodoro_schedule, session_block, sessions_between, sessions_from, sleep_entries, tasks_wf,
    take_jobs, with_work_left, work_units, EntryView, UnscheduledPeriodView, WorkSessionView,
};
use crate::spans::{valid_instant, CalendarEventView, TimeSpan};
use crate::task::TaskView;
use vstd::prelude::*;

verus! {

/// Two spans lie apart: one has ended when the other starts.
pub open spec fn apart(a: TimeSpan, b: TimeSpan) -> bool {
    a.end_spec() <= b.start || b.end_spec() <= a.start
}

/// The time from `start` to `end` is clear of the entries: each has ended
/// by `start` or starts at `end` or later.
pub open spec fn clear_of(entries: Seq<EntryView>, start: int, end: int) -> bool {
    forall|j: int|
        0 <= j < entries.len() ==> (#[trigger] entries[j]).span().end_spec() <= start || end
            <= entries[j].span().start
}

/// The instant at which a session ends with its long break.
pub open spec fn session_end(session: WorkSessionView, config: Config) -> int {
    session.start + config.session_minutes() * 60
}

/// No open session starts before the time up to which time is taken.
pub proof fn lemma_sessions_start_after(
    entries: Seq<EntryView>,
    i: int,
    busy_until: int,
    until: int,
    config: Config,
)
    requires
        config.wf(),
        0 <= i,
    ensures
        forall|k: int|
            0 <= k < sessions_from(entries, i, busy_until, until, config).len() ==> busy_until
                <= (#[trigger] sessions_from(entries, i, busy_until, until, config)[k]).start,
    decreases entries.len() - i,
{
    let all = sessions_from(entries, i, busy_until, until, config);
    if 0 <= i < entries.len() && entries[i].span().start < until {
        let first = sessions_between(busy_until, entries[i].span().start as int, config);
        let next = later(busy_until, entries[i].span().end_spec());
        let rest = sessions_from(entries, i + 1, next, until, config);
        lemma_sessions_start_after(entries, i + 1, next, until, config);
        assert forall|k: int| 0 <= k < all.len() implies busy_until <= (#[trigger] all[k]).start by {
            if k < first.len() {
                lemma_session_fits(busy_until, entries[i].span().start as int, config, k);
            } else {
                assert(all[k] == rest[k - first.len()]);
            }
        }
    } else {
        assert forall|k: int| 0 <= k < all.len() implies busy_until <= (#[trigger] all[k]).start by {
            lemma_session_fits(busy_until, until, config, k);
        }
    }
}

/// Open sessions lie in free time: when the entries come in ascending
/// order and time is taken up to the end of every entry gone through, each
/// session with its long break is clear of all entries.
pub proof fn lemma_sessions_clear(
    entries: Seq<EntryView>,
    i: int,
    busy_until: int,
    until: int,
    config: Config,
)
    requires
        config.wf(),
        ascending(entries),
        0 <= i,
        forall|j: int|
            0 <= j < i && j < entries.len() ==> (#[trigger] entries[j]).span().end_spec()
                <= busy_until,
    ensures
        forall|k: int|
            0 <= k < sessions_from(entries, i, busy_until, until, config).len() ==> clear_of(
                entries,
                (#[trigger] sessions_from(entries, i, busy_until, until, config)[k]).start,
                session_end(sessions_from(entries, i, busy_until, until, config)[k], config),
            ),
    decreases entries.len() - i,
{
    let all = sessions_from(entries, i, busy_until, until, config);
    if 0 <= i < entries.len() && entries[i].span().start < until {
        let gap_end = entries[i].span().start as int;
        let first = sessions_between(busy_until, gap_end, config);
        let next = later(busy_until, entries[i].span().end_spec());
        let rest = sessions_from(entries, i + 1, next, until, config);
        lemma_sessions_clear(entries, i + 1, next, until, config);
        assert forall|k: int| 0 <= k < all.len() implies clear_of(
            entries,
            (#[trigger] all[k]).start,
            session_end(all[k], config),
        ) by {
            if k < first.len() {
                lemma_session_fits(busy_until, gap_end, config, k);
                assert forall|j: int| 0 <= j < entries.len() implies (
                #[trigger] entries[j]).span().end_spec() <= all[k].start || session_end(
                    all[k],
                    config,
                ) <= entries[j].span().start by {
                    if j > i {
                        assert(entries[i].span().start <= entries[j].span().start);
                    }
                }
            } else {
                assert(all[k] == rest[k - first.len()]);
            }
        }
    } else {
        assert forall|k: int| 0 <= k < all.len() implies clear_of(
            entries,
            (#[trigger] all[k]).start,
            session_end(all[k], config),
        ) by {
            lemma_session_fits(busy_until, until, config, k);
            assert forall|j: int| 0 <= j < entries.len() implies (
            #[trigger] entries[j]).span().end_spec() <= all[k].start || session_end(
                all[k],
                config,
            ) <= entries[j].span().start by {
                if j > i {
                    assert(entries[i].span().start <= entries[j].span().start);
                }
            }
        }
    }
}

/// Every entry that a list of sessions adds to a schedule is an entry of
/// one of the sessions.
pub proof fn lemma_session_entry_owner(
    sessions: Seq<WorkSessionView>,
    long_break_minutes: nat,
    k: int,
) -> (owner: (int, int))
    requires
        0 <= k < all_session_entries(sessions, long_break_minutes).len(),
    ensures
        0 <= owner.0 < sessions.len(),
        0 <= owner.1 < session_block(sessions[owner.0], long_break_minutes).len(),
        all_session_entries(sessions, long_break_minutes)[k] == session_block(
            sessions[owner.0],
            long_break_minutes,
        )[owner.1],
    decreases sessions.len(),
{
    let before = all_session_entries(sessions.drop_last(), long_break_minutes);
    if k < before.len() {
        let owner = lemma_session_entry_owner(sessions.drop_last(), long_break_minutes, k);
        assert(sessions.drop_last()[owner.0] == sessions[owner.0]);
        owner
    } else {
        (sessions.len() - 1, k - before.len())
    }
}

/// Whatever the Pomodoro method adds to entries that come in ascending
/// order lies in the free time they leave: each job, each break between
/// jobs and each closing long break starts at `now` or later, ends at
/// `until` or earlier, and lies apart from every one of the entries.
pub proof fn lemma_packed_into_free_time(
    entries: Seq<EntryView>,
    config: Config,
    tasks: Seq<TaskView>,
    now: int,
    until: int,
)
    requires
        config.wf(),
        valid_instant(now),
        valid_instant(until),
        ascending(entries),
    ensures
        filled_schedule(entries, config, tasks, now, until).entries.len() >= entries.len(),
        forall|k: int|
            entries.len() <= k < filled_schedule(entries, config, tasks, now, until).entries.len()
                ==> {
                let added = #[trigger] filled_schedule(entries, config, tasks, now, until).entries[k];
                &&& !(added is Calendar) && !(added is Sleep)
                &&& now <= added.span().start
                &&& added.span().end_spec() <= until
                &&& added.span().wf()
                &&& clear_of(entries, added.span().start as int, added.span().end_spec())
            },
        forall|k: int|
            0 <= k < entries.len() ==> #[trigger] filled_schedule(
                entries,
                config,
                tasks,
                now,
                until,
            ).entries[k] == entries[k],
{
    let opens = open_sessions(entries, config, now, until);
    let units = work_units(tasks, config.work_minutes as nat, now);
    let filled = fill_sessions(opens, units).0;
    let long = config.long_break_minutes as nat;
    let added = all_session_entries(filled, long);
    let all = filled_schedule(entries, config, tasks, now, until).entries;
    lemma_sessions_from_within(entries, 0, now, now, until, config);
    lemma_sessions_clear(entries, 0, now, until, config);
    lemma_fill_sessions(opens, units);
    assert forall|k: int| entries.len() <= k < all.len() implies {
        let entry = #[trigger] all[k];
        &&& !(entry is Calendar) && !(entry is Sleep)
        &&& now <= entry.span().start
        &&& entry.span().end_spec() <= until
        &&& entry.span().wf()
        &&& clear_of(entries, entry.span().start as int, entry.span().end_spec())
    } by {
        let at = k - entries.len();
        assert(all[k] == added[at]);
        let owner = lemma_session_entry_owner(filled, long, at);
        let session = filled[owner.0];
        let open = opens[owner.0];
        assert(open.wf());
        assert(open == empty_session(open.start, config));
        assert(session.job_names.len() <= session.max_jobs);
        assert(session.wf());
        lemma_session_block_wf(session, config, now, until);
        let block = session_block(session, long);
        assert(added[at] == block[owner.1]);
        assert(clear_of(entries, open.start, session_end(open, config)));
        assert forall|j: int| 0 <= j < entries.len() implies (
        #[trigger] entries[j]).span().end_spec() <= all[k].span().start || all[k].span().end_spec()
            <= entries[j].span().start by {
        }
    }
}

/// What is laid down before any work is packed holds no job: calendar
/// events, breaks and sleep only.
pub proof fn lemma_no_fixed_jobs(events: Seq<CalendarEventView>, sleep: TimeSpan, until: int)
    ensures
        forall|k: int|
            0 <= k < fixed_entries(events, sleep, until).len() ==> !(#[trigger] fixed_entries(
                events,
                sleep,
                until,
            )[k] is Job),
{
    let laid = all_event_entries(events, until) + sleep_entries(sleep, until);
    lemma_no_event_jobs(events, until);
    lemma_sorted_by_start(laid);
    let sorted = fixed_entries(events, sleep, until);
    assert forall|k: int| 0 <= k < sorted.len() implies !(#[trigger] sorted[k] is Job) by {
        assert(laid.contains(sorted[k]));
        let at = choose|at: int| 0 <= at < laid.len() && laid[at] == sorted[k];
        if at < all_event_entries(events, until).len() {
            assert(laid[at] == all_event_entries(events, until)[at]);
        } else {
            assert(laid[at] == sleep_entries(sleep, until)[at - all_event_entries(
                events,
                until,
            ).len()]);
        }
    }
}

/// The entries of calendar events hold no job.
pub proof fn lemma_no_event_jobs(events: Seq<CalendarEventView>, until: int)
    ensures
        forall|k: int|
            0 <= k < all_event_entries(events, until).len() ==> !(#[trigger] all_event_entries(
                events,
                until,
            )[k] is Job),
    decreases events.len(),
{
    if events.len() > 0 {
        lemma_no_event_jobs(events.drop_last(), until);
        let before = all_event_entries(events.drop_last(), until);
        let last = event_entries(events.last(), until);
        let all = all_event_entries(events, until);
        assert forall|k: int| 0 <= k < all.len() implies !(#[trigger] all[k] is Job) by {
            if k < before.len() {
                assert(all[k] == before[k]);
            } else {
                assert(all[k] == last[k - before.len()]);
            }
        }
    }
}

/// In every schedule that the Pomodoro method makes, the entries come in
/// ascending order of their starts, and every job lies between `now` and
/// the latest due date, apart from every calendar event and every night's
/// sleep.
pub proof fn lemma_jobs_in_free_time(
    config: Config,
    tasks: Seq<TaskView>,
    events: Seq<CalendarEventView>,
    sleep: TimeSpan,
    now: int,
)
    requires
        config.wf(),
        tasks.len() > 0,
        tasks_wf(tasks),
        events_wf(events),
        sleep.wf(),
        valid_instant(now),
    ensures
        ascending(pomodoro_schedule(config, tasks, events, sleep, now).entries),
        forall|a: int, b: int|
            0 <= a < pomodoro_schedule(config, tasks, events, sleep, now).entries.len() && 0 <= b
                < pomodoro_schedule(config, tasks, events, sleep, now).entries.len() && (
            #[trigger] pomodoro_schedule(config, tasks, events, sleep, now).entries[a]) is Job && ((
            #[trigger] pomodoro_schedule(config, tasks, events, sleep, now).entries[b]) is Calendar
                || pomodoro_schedule(config, tasks, events, sleep, now).entries[b] is Sleep)
                ==> apart(
                pomodoro_schedule(config, tasks, events, sleep, now).entries[a].span(),
                pomodoro_schedule(config, tasks, events, sleep, now).entries[b].span(),
            ),
        forall|a: int|
            0 <= a < pomodoro_schedule(config, tasks, events, sleep, now).entries.len() && (
            #[trigger] pomodoro_schedule(config, tasks, events, sleep, now).entries[a]) is Job
                ==> now <= pomodoro_schedule(config, tasks, events, sleep, now).entries[a].span().start
                && pomodoro_schedule(config, tasks, events, sleep, now).entries[a].span().end_spec()
                <= latest_due_date(tasks),
{
    let until = latest_due_date(tasks);
    lemma_latest_due_date(tasks);
    let laid = all_event_entries(events, until) + sleep_entries(sleep, until);
    let fixed = fixed_entries(events, sleep, until);
    lemma_sorted_by_start(laid);
    lemma_no_fixed_jobs(events, sleep, until);
    let packed = filled_schedule(fixed, config, by_due_date(tasks), now, until).entries;
    lemma_packed_into_free_time(fixed, config, by_due_date(tasks), now, until);
    let all = pomodoro_schedule(config, tasks, events, sleep, now).entries;
    lemma_sorted_by_start(packed);
    assert forall|a: int, b: int|
        0 <= a < all.len() && 0 <= b < all.len() && (#[trigger] all[a]) is Job && ((
        #[trigger] all[b]) is Calendar || all[b] is Sleep) implies apart(
        all[a].span(),
        all[b].span(),
    ) by {
        assert(packed.contains(all[a]));
        assert(packed.contains(all[b]));
        let at_a = choose|i: int| 0 <= i < packed.len() && packed[i] == all[a];
        let at_b = choose|i: int| 0 <= i < packed.len() && packed[i] == all[b];
        assert(at_a >= fixed.len());
        assert(at_b < fixed.len());
        assert(packed[at_b] == fixed[at_b]);
        assert(clear_of(fixed, packed[at_a].span().start as int, packed[at_a].span().end_spec()));
    }
    assert forall|a: int| 0 <= a < all.len() && (#[trigger] all[a]) is Job implies now
        <= all[a].span().start && all[a].span().end_spec() <= until by {
        assert(packed.contains(all[a]));
        let at_a = choose|i: int| 0 <= i < packed.len() && packed[i] == all[a];
        assert(at_a >= fixed.len());
    }
}

/// The work periods that a queue of units holds, all in all.
pub open spec fn total_periods(units: Seq<UnscheduledPeriodView>) -> nat
    decreases units.len(),
{
    if units.len() == 0 {
        0
    } else {
        units[0].periods_left + total_periods(units.drop_first())
    }
}

/// The jobs that a list of sessions holds, all in all.
pub open spec fn job_count(sessions: Seq<WorkSessionView>) -> nat
    decreases sessions.len(),
{
    if sessions.len() == 0 {
        0
    } else {
        sessions[0].job_names.len() + job_count(sessions.drop_first())
    }
}

/// The room for jobs that a list of sessions has, all in all.
pub open spec fn total_room(sessions: Seq<WorkSessionView>) -> nat
    decreases sessions.len(),
{
    if sessions.len() == 0 {
        0
    } else {
        sessions[0].room() + total_room(sessions.drop_first())
    }
}

/// Taking jobs takes as many as there is room for, or all there are, and
/// every work period that was not taken is still in the queue.
pub proof fn lemma_take_jobs_counts(units: Seq<UnscheduledPeriodView>, room: nat)
    ensures
        take_jobs(units, room).0.len() == (if total_periods(units) < room {
            total_periods(units)
        } else {
            room
        }),
        take_jobs(units, room).0.len() + total_periods(take_jobs(units, room).1)
            == total_periods(units),
    decreases units.len(),
{
    if units.len() > 0 {
        let unit = units[0];
        if unit.periods_left <= room {
            lemma_take_jobs_counts(units.drop_first(), (room - unit.periods_left) as nat);
        } else {
            let rest = take_jobs(units, room).1;
            assert(rest.drop_first() =~= units.drop_first());
        }
    }
}

/// Filling sessions loses no work: the jobs put into the sessions and the
/// work periods left in the queue add up to the work periods that were in
/// the queue. As many jobs are placed as there is room for, or all there
/// are.
pub proof fn lemma_fill_sessions_counts(
    sessions: Seq<WorkSessionView>,
    units: Seq<UnscheduledPeriodView>,
)
    ensures
        job_count(fill_sessions(sessions, units).0) + total_periods(
            fill_sessions(sessions, units).1,
        ) == job_count(sessions) + total_periods(units),
        job_count(fill_sessions(sessions, units).0) == job_count(sessions) + (if total_periods(
            units,
        ) < total_room(sessions) {
            total_periods(units)
        } else {
            total_room(sessions)
        }),
    decreases sessions.len(),
{
    if sessions.len() > 0 {
        let taken = take_jobs(units, sessions[0].room());
        lemma_take_jobs_counts(units, sessions[0].room());
        lemma_fill_sessions_counts(sessions.drop_first(), taken.1);
        let later = fill_sessions(sessions.drop_first(), taken.1);
        let all = fill_sessions(sessions, units).0;
        assert(all.drop_first() =~= later.0);
        assert(all[0] == sessions[0].with_jobs(taken.0));
    }
}

/// Leaving out the units without work left leaves out no work.
pub proof fn lemma_with_work_left_counts(units: Seq<UnscheduledPeriodView>)
    ensures
        total_periods(with_work_left(units)) == total_periods(units),
        forall|k: int|
            0 <= k < with_work_left(units).len() ==> (#[trigger] with_work_left(units)[k]).periods_left
                > 0,
    decreases units.len(),
{
    if units.len() > 0 {
        let rest = units.drop_last();
        lemma_with_work_left_counts(rest);
        lemma_total_periods_push(rest, units.last());
        assert(rest.push(units.last()) =~= units);
        if units.last().periods_left > 0 {
            lemma_total_periods_push(with_work_left(rest), units.last());
            assert(with_work_left(units) =~= with_work_left(rest).push(units.last()));
        } else {
            assert(with_work_left(units) =~= with_work_left(rest));
        }
    }
}

/// A unit put behind a queue adds its work periods to those of the queue.
pub proof fn lemma_total_periods_push(units: Seq<UnscheduledPeriodView>, unit: UnscheduledPeriodView)
    ensures
        total_periods(units.push(unit)) == total_periods(units) + unit.periods_left,
    decreases units.len(),
{
    let longer = units.push(unit);
    if units.len() == 0 {
        assert(longer.drop_first() =~= Seq::<UnscheduledPeriodView>::empty());
        assert(longer[0] == unit);
        assert(total_periods(longer.drop_first()) == 0);
    } else {
        lemma_total_periods_push(units.drop_first(), unit);
        assert(longer.drop_first() =~= units.drop_first().push(unit));
        assert(longer[0] == units[0]);
    }
}

/// No work is lost when a schedule is packed: every work period of every
/// unit of work is either placed as one job in a session, or is reported
/// as unscheduled. Work is only reported as unscheduled when every session
/// is full.
pub proof fn lemma_no_work_lost(
    entries: Seq<EntryView>,
    config: Config,
    tasks: Seq<TaskView>,
    now: int,
    until: int,
)
    requires
        config.wf(),
    ensures
        ({
            let opens = open_sessions(entries, config, now, until);
            let units = work_units(tasks, config.work_minutes as nat, now);
            let filled = fill_sessions(opens, units);
            let packed = filled_schedule(entries, config, tasks, now, until);
            &&& job_count(filled.0) + total_periods(packed.unscheduled) == total_periods(units)
            &&& total_periods(packed.unscheduled) > 0 ==> job_count(filled.0) == total_room(opens)
            &&& total_room(opens) == opens.len() * config.work_periods_per_job_session
        }),
{
    let opens = open_sessions(entries, config, now, until);
    let units = work_units(tasks, config.work_minutes as nat, now);
    let filled = fill_sessions(opens, units);
    lemma_fill_sessions_counts(opens, units);
    lemma_with_work_left_counts(filled.1);
    lemma_open_sessions_room(entries, 0, now, until, config);
    lemma_empty_sessions_room(opens, config);
}

/// Open sessions are empty and have the cadence of the settings.
pub proof fn lemma_open_sessions_room(
    entries: Seq<EntryView>,
    i: int,
    busy_until: int,
    until: int,
    config: Config,
)
    requires
        0 <= i,
    ensures
        forall|k: int|
            0 <= k < sessions_from(entries, i, busy_until, until, config).len() ==> (
            #[trigger] sessions_from(entries, i, busy_until, until, config)[k]) == empty_session(
                sessions_from(entries, i, busy_until, until, config)[k].start,
                config,
            ),
    decreases entries.len() - i,
{
    let all = sessions_from(entries, i, busy_until, until, config);
    if 0 <= i < entries.len() && entries[i].span().start < until {
        let first = sessions_between(busy_until, entries[i].span().start as int, config);
        let next = later(busy_until, entries[i].span().end_spec());
        let rest = sessions_from(entries, i + 1, next, until, config);
        lemma_open_sessions_room(entries, i + 1, next, until, config);
        assert forall|k: int| 0 <= k < all.len() implies (#[trigger] all[k]) == empty_session(
            all[k].start,
            config,
        ) by {
            if k >= first.len() {
                assert(all[k] == rest[k - first.len()]);
            }
        }
    }
}

/// Empty sessions hold no job, and each has room for as many jobs as a
/// session of the settings holds.
pub proof fn lemma_empty_sessions_room(sessions: Seq<WorkSessionView>, config: Config)
    requires
        forall|k: int|
            0 <= k < sessions.len() ==> (#[trigger] sessions[k]) == empty_session(
                sessions[k].start,
                config,
            ),
    ensures
        job_count(sessions) == 0,
        total_room(sessions) == sessions.len() * config.work_periods_per_job_session,
    decreases sessions.len(),
{
    if sessions.len() > 0 {
        let rest = sessions.drop_first();
        assert forall|k: int| 0 <= k < rest.len() implies (#[trigger] rest[k]) == empty_session(
            rest[k].start,
            config,
        ) by {
            assert(rest[k] == sessions[k + 1]);
        }
        lemma_empty_sessions_room(rest, config);
        assert(sessions[0] == empty_session(sessions[0].start, config));
        assert(sessions.len() * config.work_periods_per_job_session == rest.len()
            * config.work_periods_per_job_session + config.work_periods_per_job_session)
            by (nonlinear_arith)
            requires
                sessions.len() == rest.len() + 1,
        ;
    }
}

} // verus!
