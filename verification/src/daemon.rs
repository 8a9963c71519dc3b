//! What to tell the user while a schedule runs: which entry is under way,
//! which comes next, and when to say so.
//!
//! The decisions are made here, one step at a time. Whoever runs the steps
//! shows the notifications and waits between the steps.

use crate::methods::pomodoro::{entries_wf, entry_views, EntryView, PomodoroScheduleEntry};
use crate::spans::valid_instant;
use crate::text::{signed_decimal, signed_decimal_string};
use vstd::prelude::*;
use vstd::string::*;

verus! {

/// The position of the first entry from `from` on that has not ended at
/// `now`; the length of the list when every entry has.
pub open spec fn first_unfinished(entries: Seq<EntryView>, from: int, now: int) -> int
    decreases entries.len() - from,
{
    if 0 <= from < entries.len() && entries[from].span().end_spec() <= now {
        first_unfinished(entries, from + 1, now)
    } else {
        from
    }
}

/// The entry at a position, if the list reaches that far.
pub open spec fn entry_at(entries: Seq<EntryView>, i: int) -> Option<EntryView> {
    if 0 <= i < entries.len() {
        Some(entries[i])
    } else {
        None
    }
}

/// An entry that may be missing, as it is in contracts.
pub open spec fn entry_view_of(entry: Option<PomodoroScheduleEntry>) -> Option<EntryView> {
    match entry {
        Some(e) => Some(e@),
        None => None,
    }
}

/// Finds the entry that is under way at `now` and the one after it: the
/// entries that have ended are passed over, the first of the others is the
/// current one, and the one behind it in the list is the next.
pub fn current_and_next(entries: &Vec<PomodoroScheduleEntry>, now: i64) -> (found: (
    Option<PomodoroScheduleEntry>,
    Option<PomodoroScheduleEntry>,
))
    requires
        entries_wf(entry_views(entries@)),
    ensures
        entry_view_of(found.0) == entry_at(
            entry_views(entries@),
            first_unfinished(entry_views(entries@), 0, now as int),
        ),
        entry_view_of(found.1) == entry_at(
            entry_views(entries@),
            first_unfinished(entry_views(entries@), 0, now as int) + 1,
        ),
{
    let ghost views = entry_views(entries@);
    let mut i: usize = 0;
    while i < entries.len() && entries[i].span().end() <= now
        invariant
            i <= entries.len(),
            views == entry_views(entries@),
            entries_wf(views),
            first_unfinished(views, 0, now as int) == first_unfinished(views, i as int, now as int),
        decreases entries.len() - i,
    {
        assert(views[i as int].span() == entries@[i as int]@.span());
        i += 1;
    }
    assert(i < entries@.len() ==> views[i as int].span() == entries@[i as int]@.span());
    let current = if i < entries.len() {
        Some(entries[i].clone())
    } else {
        None
    };
    let next = if i < entries.len() && i + 1 < entries.len() {
        Some(entries[i + 1].clone())
    } else {
        None
    };
    (current, next)
}

/// What the notifier knows between two steps.
#[derive(Debug)]
pub struct DaemonState {
    pub current_event: Option<PomodoroScheduleEntry>,
    pub next_event: Option<PomodoroScheduleEntry>,
    pub notified_of_current_event: bool,
    pub warned_of_next_event: bool,
}

/// What a [`DaemonState`] is in contracts.
pub struct DaemonStateView {
    pub current_event: Option<EntryView>,
    pub next_event: Option<EntryView>,
    pub notified_of_current_event: bool,
    pub warned_of_next_event: bool,
}

impl View for DaemonState {
    type V = DaemonStateView;

    open spec fn view(&self) -> DaemonStateView {
        DaemonStateView {
            current_event: entry_view_of(self.current_event),
            next_event: entry_view_of(self.next_event),
            notified_of_current_event: self.notified_of_current_event,
            warned_of_next_event: self.warned_of_next_event,
        }
    }
}

/// What to do after a step.
#[derive(Debug)]
pub enum DaemonAction {
    /// The current and next entries were looked up afresh: take the next
    /// step at once.
    Again,
    /// Show a notification with this text, then wait.
    Notify(String),
    /// Wait.
    Wait,
}

/// What a [`DaemonAction`] is in contracts.
pub enum DaemonActionView {
    Again,
    Notify(Seq<char>),
    Wait,
}

impl View for DaemonAction {
    type V = DaemonActionView;

    open spec fn view(&self) -> DaemonActionView {
        match self {
            DaemonAction::Again => DaemonActionView::Again,
            DaemonAction::Notify(text) => DaemonActionView::Notify(text@),
            DaemonAction::Wait => DaemonActionView::Wait,
        }
    }
}

/// The entries of a state start at valid instants.
pub open spec fn state_wf(state: DaemonStateView) -> bool {
    &&& state.current_event matches Some(e) ==> e.span().wf()
    &&& state.next_event matches Some(e) ==> e.span().wf()
}

/// The current and next entries are out of date at `now`: the current one
/// has ended or the next one has started, or there is neither.
pub open spec fn out_of_date(state: DaemonStateView, now: int) -> bool {
    match (state.current_event, state.next_event) {
        (Some(current), Some(next)) => current.span().end_spec() < now || next.span().start
            <= now,
        (None, None) => true,
        _ => false,
    }
}

/// The text that tells which entry is under way, and which comes next.
pub open spec fn now_text(current: EntryView, next: Option<EntryView>) -> Seq<char> {
    match next {
        Some(n) => "Now: "@ + current.title() + "\nNext: "@ + n.title(),
        None => "Now: "@ + current.title(),
    }
}

/// The whole minutes from `now` to the start of an entry; parts of a
/// minute are dropped.
pub open spec fn minutes_until(entry: EntryView, now: int) -> int {
    if entry.span().start >= now {
        (entry.span().start - now) / 60
    } else {
        -((now - entry.span().start) / 60)
    }
}

/// The text that tells which entry starts soon.
pub open spec fn warning_text(next: EntryView, now: int) -> Seq<char> {
    "In "@ + signed_decimal(minutes_until(next, now)) + " minutes: "@ + next.title()
}

/// One step of the notifier at `now`. When the current and next entries are
/// out of date, they are looked up afresh and nothing has been said of
/// them. Else the entry under way is announced once; after that a warning
/// of the next entry is given once, as soon as it starts within
/// `warning_minutes` minutes.
pub open spec fn daemon_step(
    state: DaemonStateView,
    entries: Seq<EntryView>,
    now: int,
    warning_minutes: nat,
) -> (DaemonStateView, DaemonActionView) {
    if out_of_date(state, now) {
        let i = first_unfinished(entries, 0, now);
        (
            DaemonStateView {
                current_event: entry_at(entries, i),
                next_event: entry_at(entries, i + 1),
                notified_of_current_event: false,
                warned_of_next_event: false,
            },
            DaemonActionView::Again,
        )
    } else if !state.notified_of_current_event {
        (
            DaemonStateView { notified_of_current_event: true, ..state },
            match state.current_event {
                Some(current) => DaemonActionView::Notify(now_text(current, state.next_event)),
                None => DaemonActionView::Wait,
            },
        )
    } else if !state.warned_of_next_event {
        match state.next_event {
            Some(next) => if now >= next.span().start - warning_minutes * 60 {
                (
                    DaemonStateView { warned_of_next_event: true, ..state },
                    DaemonActionView::Notify(warning_text(next, now)),
                )
            } else {
                (state, DaemonActionView::Wait)
            },
            None => (DaemonStateView { warned_of_next_event: true, ..state }, DaemonActionView::Wait),
        }
    } else {
        (state, DaemonActionView::Wait)
    }
}

impl DaemonState {
    /// The state before the first step: nothing is known yet.
    pub fn new() -> (state: Self)
        ensures
            state@ == (DaemonStateView {
                current_event: None,
                next_event: None,
                notified_of_current_event: false,
                warned_of_next_event: false,
            }),
            state_wf(state@),
    {
        DaemonState {
            current_event: None,
            next_event: None,
            notified_of_current_event: false,
            warned_of_next_event: false,
        }
    }

    /// Looks up the current and next entries afresh at `now`.
    pub fn reassign_current_next_events(&mut self, entries: &Vec<PomodoroScheduleEntry>, now: i64)
        requires
            entries_wf(entry_views(entries@)),
        ensures
            final(self)@.current_event == entry_at(
                entry_views(entries@),
                first_unfinished(entry_views(entries@), 0, now as int),
            ),
            final(self)@.next_event == entry_at(
                entry_views(entries@),
                first_unfinished(entry_views(entries@), 0, now as int) + 1,
            ),
            final(self).notified_of_current_event == old(self).notified_of_current_event,
            final(self).warned_of_next_event == old(self).warned_of_next_event,
            state_wf(final(self)@),
    {
        let found = current_and_next(entries, now);
        self.current_event = found.0;
        self.next_event = found.1;
    }

    /// Takes one step at `now` and says what to do after it.
    pub fn step(
        &mut self,
        entries: &Vec<PomodoroScheduleEntry>,
        now: i64,
        warning_minutes: u32,
    ) -> (action: DaemonAction)
        requires
            entries_wf(entry_views(entries@)),
            state_wf(old(self)@),
            valid_instant(now as int),
        ensures
            (final(self)@, action@) == daemon_step(
                old(self)@,
                entry_views(entries@),
                now as int,
                warning_minutes as nat,
            ),
            state_wf(final(self)@),
    {
        let stale = match (&self.current_event, &self.next_event) {
            (Some(current), Some(next)) => current.span().end() < now || next.span().start <= now,
            (None, None) => true,
            _ => false,
        };
        if stale {
            self.reassign_current_next_events(entries, now);
            self.notified_of_current_event = false;
            self.warned_of_next_event = false;
            return DaemonAction::Again;
        }
        if !self.notified_of_current_event {
            self.notified_of_current_event = true;
            return match &self.current_event {
                Some(current) => {
                    let mut text = String::from_str("Now: ");
                    text.append(current.title());
                    match &self.next_event {
                        Some(next) => {
                            text.append("\nNext: ");
                            text.append(next.title());
                        },
                        None => {},
                    }
                    DaemonAction::Notify(text)
                },
                None => DaemonAction::Wait,
            };
        }
        if !self.warned_of_next_event {
            return match &self.next_event {
                Some(next) => {
                    let start: i64 = next.span().start;
                    if now >= start - warning_minutes as i64 * 60 {
                        let minutes: i64 = if start >= now {
                            (start - now) / 60
                        } else {
                            -((now - start) / 60)
                        };
                        let mut text = String::from_str("In ");
                        let number = signed_decimal_string(minutes);
                        text.append(number.as_str());
                        text.append(" minutes: ");
                        text.append(next.title());
                        self.warned_of_next_event = true;
                        DaemonAction::Notify(text)
                    } else {
                        DaemonAction::Wait
                    }
                },
                None => {
                    self.warned_of_next_event = true;
                    DaemonAction::Wait
                },
            };
        }
        DaemonAction::Wait
    }
}

} // verus!
