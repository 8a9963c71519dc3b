//! Spans of time and their algebra.

use crate::calendar::WeekdaySet;
use vstd::prelude::*;

verus! {

/// The earliest instant the library works with: midnight (UTC) of
/// 1 January of the year -262143, in seconds since the Unix epoch.
pub const MIN_INSTANT: i64 = -8_334_601_228_800;

/// The latest instant the library works with: the last second (UTC) of the
/// year 262142, in seconds since the Unix epoch.
pub const MAX_INSTANT: i64 = 8_210_266_876_799;

/// Seconds in one minute.
pub const SECONDS_PER_MINUTE: i64 = 60;

/// Seconds in one day.
pub const SECONDS_PER_DAY: i64 = 86_400;

/// An instant is valid when it lies between [`MIN_INSTANT`] and
/// [`MAX_INSTANT`].
pub open spec fn valid_instant(t: int) -> bool {
    MIN_INSTANT <= t <= MAX_INSTANT
}

/// Tells whether `t` is a valid instant.
pub fn is_valid_instant(t: i64) -> (ok: bool)
    ensures
        ok == valid_instant(t as int),
{
    MIN_INSTANT <= t && t <= MAX_INSTANT
}

/// A single block of time: it begins at `start` (seconds since the Unix
/// epoch) and lasts `minutes` whole minutes. A span of zero minutes is valid
/// and stands for "no time left".
#[derive(Copy, Clone, Debug, PartialEq, Eq, Structural)]
pub struct TimeSpan {
    pub start: i64,
    pub minutes: u32,
}

impl TimeSpan {
    /// A span is well formed when its start is a valid instant.
    pub open spec fn wf(self) -> bool {
        valid_instant(self.start as int)
    }

    /// The instant at which the span ends: `start` plus `minutes`.
    pub open spec fn end_spec(self) -> int {
        self.start + self.minutes * 60
    }

    /// Two spans overlap when they share some time. Spans that merely touch
    /// end to start do not overlap; two empty spans at one instant do.
    pub open spec fn overlaps_spec(self, other: TimeSpan) -> bool {
        ||| self.start < other.end_spec() && other.start < self.end_spec()
        ||| self.minutes == 0 && other.minutes == 0 && self.start == other.start
    }

    /// Two spans touch when they overlap or one ends exactly where the other
    /// starts.
    pub open spec fn touches_spec(self, other: TimeSpan) -> bool {
        self.overlaps_spec(other) || self.start == other.end_spec() || self.end_spec()
            == other.start
    }

    /// Whole minutes of free time strictly between two spans that do not
    /// touch: from the end of the earlier one to the start of the later one.
    pub open spec fn gap_minutes(first: TimeSpan, second: TimeSpan) -> int {
        if first.start > second.end_spec() {
            (first.start - second.end_spec()) / 60
        } else {
            (second.start - first.end_spec()) / 60
        }
    }

    /// The free time between two spans: nothing when they touch, else the
    /// span that starts where the earlier one ends and lasts
    /// [`Self::gap_minutes`].
    pub open spec fn time_between_spec(first: TimeSpan, second: TimeSpan) -> Option<TimeSpan> {
        if first.touches_spec(second) {
            None
        } else if first.start > second.end_spec() {
            Some(
                TimeSpan {
                    start: second.end_spec() as i64,
                    minutes: Self::gap_minutes(first, second) as u32,
                },
            )
        } else {
            Some(
                TimeSpan {
                    start: first.end_spec() as i64,
                    minutes: Self::gap_minutes(first, second) as u32,
                },
            )
        }
    }

    /// The span left after its first `minutes` minutes are used up: the start
    /// moves forward by at most the whole length, and the end stays in place.
    pub open spec fn shortened(self, minutes: u32) -> TimeSpan {
        let used = if minutes < self.minutes { minutes } else { self.minutes };
        TimeSpan { start: (self.start + used * 60) as i64, minutes: (self.minutes - used) as u32 }
    }

    pub fn new(start: i64, minutes: u32) -> (span: Self)
        ensures
            span.start == start,
            span.minutes == minutes,
    {
        Self { start, minutes }
    }

    pub fn start(&self) -> (start: i64)
        ensures
            start == self.start,
    {
        self.start
    }

    pub fn end(&self) -> (end: i64)
        requires
            self.wf(),
        ensures
            end == self.end_spec(),
    {
        self.start + self.minutes_as_duration()
    }

    pub fn set_start(&mut self, start: i64)
        ensures
            final(self).start == start,
            final(self).minutes == old(self).minutes,
    {
        self.start = start;
    }

    /// The length of the span in seconds.
    fn minutes_as_duration(&self) -> (seconds: i64)
        ensures
            seconds == self.minutes * 60,
    {
        self.minutes as i64 * SECONDS_PER_MINUTE
    }

    pub fn minutes(&self) -> (minutes: u32)
        ensures
            minutes == self.minutes,
    {
        self.minutes
    }

    /// Returns true if the spans share some time, but not if the end of one
    /// and the start of the other are the same.
    pub fn overlaps(&self, other: &TimeSpan) -> (yes: bool)
        requires
            self.wf(),
            other.wf(),
        ensures
            yes == self.overlaps_spec(*other),
    {
        let self_end = self.end();
        let other_end = other.end();
        if other_end > self.start {
            other.start < self_end
        } else {
            self_end <= other.start
        }
    }

    /// Returns true if the spans either overlap or if the end of one is the
    /// same as the start of the other.
    pub fn touches(&self, other: &TimeSpan) -> (yes: bool)
        requires
            self.wf(),
            other.wf(),
        ensures
            yes == self.touches_spec(*other),
            yes == (self.overlaps_spec(*other) || self.end_spec() == other.start
                || other.end_spec() == self.start),
    {
        self.overlaps(other) || self.start == other.end() || self.end() == other.start
    }

    /// Returns the free time between two spans, if any. The spans may come
    /// in either order.
    pub fn time_between(first: &TimeSpan, second: &TimeSpan) -> (gap: Option<TimeSpan>)
        requires
            first.wf(),
            second.wf(),
            !first.touches_spec(*second) ==> Self::gap_minutes(*first, *second) <= u32::MAX,
        ensures
            gap == Self::time_between_spec(*first, *second),
            gap is None <==> first.touches_spec(*second),
    {
        if first.touches(second) {
            None
        } else if first.start > second.end() {
            let free: i64 = (first.start - second.end()) / SECONDS_PER_MINUTE;
            Some(Self { start: second.end(), minutes: free as u32 })
        } else {
            let free: i64 = (second.start - first.end()) / SECONDS_PER_MINUTE;
            Some(Self { start: first.end(), minutes: free as u32 })
        }
    }

    /// Moves the start of this span forward in time, keeping the end of the
    /// original span in place. Asking for more than the span holds leaves an
    /// empty span at the original end. The new start is a valid instant when
    /// nothing was asked for, and whenever the span ends at one.
    pub fn advance_and_shorten(&mut self, minutes: u32)
        requires
            old(self).wf(),
        ensures
            *final(self) == old(self).shortened(minutes),
            final(self).end_spec() == old(self).end_spec(),
            minutes == 0 || valid_instant(old(self).end_spec()) ==> final(self).wf(),
    {
        let actual_minutes: u32 = if minutes < self.minutes { minutes } else { self.minutes };
        self.start = self.start + actual_minutes as i64 * SECONDS_PER_MINUTE;
        self.minutes = self.minutes - actual_minutes;
    }
}

/// How to repeat a span of time.
#[derive(Copy, Clone, Debug, PartialEq, Eq, Structural)]
pub enum Repeat {
    /// The span of time only occurs once.
    Never,
    /// The span of time repeats daily at the same time every day.
    Daily,
    /// The span of time repeats weekly; the weekdays it was set up for are
    /// kept with it.
    Weekly(WeekdaySet),
}

impl Repeat {
    /// The seconds from one occurrence to the next; none when the span does
    /// not repeat.
    pub open spec fn step_spec(self) -> Option<int> {
        match self {
            Repeat::Never => None,
            Repeat::Daily => Some(86_400),
            Repeat::Weekly(_) => Some(604_800),
        }
    }

    /// The seconds from one occurrence to the next; none when the span does
    /// not repeat.
    pub fn step(&self) -> (step: Option<i64>)
        ensures
            step is Some == self.step_spec() is Some,
            step is Some ==> step->Some_0 == self.step_spec()->Some_0,
    {
        match self {
            Repeat::Never => None,
            Repeat::Daily => Some(SECONDS_PER_DAY),
            Repeat::Weekly(_) => Some(7 * SECONDS_PER_DAY),
        }
    }
}

/// What kind of time a calendar event takes up.
#[derive(Copy, Clone, Debug, PartialEq, Eq, Structural)]
pub enum CalendarEventType {
    Break,
    Event,
}

/// A calendar event that can optionally be repeated.
#[derive(Debug)]
pub struct CalendarEvent {
    pub name: String,
    pub time_span: TimeSpan,
    pub event_type: CalendarEventType,
    pub repeat: Repeat,
}

/// What a [`CalendarEvent`] is in contracts.
pub struct CalendarEventView {
    pub name: Seq<char>,
    pub time_span: TimeSpan,
    pub event_type: CalendarEventType,
    pub repeat: Repeat,
}

impl View for CalendarEvent {
    type V = CalendarEventView;

    open spec fn view(&self) -> CalendarEventView {
        CalendarEventView {
            name: self.name@,
            time_span: self.time_span,
            event_type: self.event_type,
            repeat: self.repeat,
        }
    }
}

impl CalendarEvent {
    /// An event under a name.
    pub fn event(name: String, time_span: TimeSpan, repeat: Repeat) -> (event: Self)
        ensures
            event == (CalendarEvent {
                name,
                time_span,
                event_type: CalendarEventType::Event,
                repeat,
            }),
    {
        CalendarEvent { name, time_span, event_type: CalendarEventType::Event, repeat }
    }

    /// A break; it has no name.
    pub fn break_time(time_span: TimeSpan, repeat: Repeat) -> (event: Self)
        ensures
            event@ == (CalendarEventView {
                name: Seq::empty(),
                time_span,
                event_type: CalendarEventType::Break,
                repeat,
            }),
    {
        CalendarEvent { name: String::new(), time_span, event_type: CalendarEventType::Break, repeat }
    }
}

impl Clone for CalendarEvent {
    fn clone(&self) -> (copy: Self)
        ensures
            copy == *self,
    {
        CalendarEvent {
            name: self.name.clone(),
            time_span: self.time_span,
            event_type: self.event_type,
            repeat: self.repeat,
        }
    }
}

/// The events of a list, each as it is in contracts.
pub open spec fn event_views(events: Seq<CalendarEvent>) -> Seq<CalendarEventView> {
    events.map_values(|e: CalendarEvent| e@)
}

/// The nightly sleep window: it starts `start` seconds after local midnight
/// and lasts `minutes` minutes.
#[derive(Copy, Clone, Debug, PartialEq, Eq, Structural)]
pub struct Bedtime {
    pub start: u32,
    pub minutes: u32,
}

impl Bedtime {
    /// The start is a time of day.
    pub open spec fn wf(self) -> bool {
        self.start < 86_400
    }

    /// The time of day at which the sleep window ends, in seconds after
    /// local midnight. A window that runs past midnight ends on a later day.
    pub open spec fn end_spec(self) -> int {
        (self.start + self.minutes * 60) % 86_400
    }

    pub fn new(start: u32, minutes: u32) -> (bedtime: Self)
        requires
            start < 86_400,
        ensures
            bedtime.start == start,
            bedtime.minutes == minutes,
            bedtime.wf(),
    {
        Self { start, minutes }
    }

    pub fn start(&self) -> (start: u32)
        ensures
            start == self.start,
    {
        self.start
    }

    pub fn end(&self) -> (end: u32)
        ensures
            end == self.end_spec(),
            end < 86_400,
    {
        let seconds: u64 = self.start as u64 + self.minutes as u64 * 60;
        (seconds % 86_400) as u32
    }

    pub fn duration_minutes(&self) -> (minutes: u32)
        ensures
            minutes == self.minutes,
    {
        self.minutes
    }
}

impl Default for Bedtime {
    /// Sleep from eight in the evening, for ten hours.
    fn default() -> (bedtime: Self)
        ensures
            bedtime == (Bedtime { start: 72_000, minutes: 600 }),
            bedtime.wf(),
    {
        Self { start: 72_000, minutes: 600 }
    }
}

/// The two spans may be given in either order: overlapping does not depend
/// on it.
pub proof fn lemma_overlaps_symmetric(a: TimeSpan, b: TimeSpan)
    ensures
        a.overlaps_spec(b) == b.overlaps_spec(a),
        a.touches_spec(b) == b.touches_spec(a),
{
}

/// Two spans touch exactly when they overlap or the end of one is the start
/// of the other.
pub proof fn lemma_touches_is_overlap_or_adjacent(a: TimeSpan, b: TimeSpan)
    ensures
        a.touches_spec(b) == (a.overlaps_spec(b) || a.end_spec() == b.start || b.end_spec()
            == a.start),
{
}

/// There is a gap between two spans exactly when they do not touch, in
/// whichever order the two are given.
pub proof fn lemma_gap_iff_apart(a: TimeSpan, b: TimeSpan)
    ensures
        TimeSpan::time_between_spec(a, b) is None <==> a.touches_spec(b),
        TimeSpan::time_between_spec(a, b) == TimeSpan::time_between_spec(b, a),
        TimeSpan::gap_minutes(a, b) == TimeSpan::gap_minutes(b, a) || a.touches_spec(b),
{
}

/// The gap between two spans that do not touch starts at the end of the
/// span that starts first, and lasts the whole minutes from there to the
/// start of the other, in whichever order the two are given: a distance
/// that is never negative. The length of the gap is that number wherever
/// it fits the length of a span.
pub proof fn lemma_gap_between(a: TimeSpan, b: TimeSpan)
    requires
        a.wf(),
        b.wf(),
        !a.touches_spec(b),
    ensures
        TimeSpan::time_between_spec(a, b) is Some,
        a.start <= b.start ==> {
            let gap = TimeSpan::time_between_spec(a, b)->Some_0;
            &&& a.end_spec() < b.start
            &&& gap.start == a.end_spec()
            &&& TimeSpan::gap_minutes(a, b) == (b.start - a.end_spec()) / 60 >= 0
        },
        b.start <= a.start ==> {
            let gap = TimeSpan::time_between_spec(a, b)->Some_0;
            &&& b.end_spec() < a.start
            &&& gap.start == b.end_spec()
            &&& TimeSpan::gap_minutes(a, b) == (a.start - b.end_spec()) / 60 >= 0
        },
        TimeSpan::gap_minutes(a, b) <= u32::MAX ==> TimeSpan::time_between_spec(
            a,
            b,
        )->Some_0.minutes == TimeSpan::gap_minutes(a, b),
{
}

/// Using up more minutes than a span holds leaves an empty span that starts
/// where the span ended; using up none changes nothing; and the end never
/// moves. What is left starts at a valid instant when nothing was used up,
/// and whenever the span ends at one.
pub proof fn lemma_shortened(span: TimeSpan, minutes: u32)
    requires
        span.wf(),
    ensures
        minutes >= span.minutes ==> span.shortened(minutes) == (TimeSpan {
            start: span.end_spec() as i64,
            minutes: 0,
        }),
        minutes == 0 ==> span.shortened(minutes) == span,
        minutes <= span.minutes ==> span.shortened(minutes).minutes == span.minutes - minutes
            && span.shortened(minutes).start == span.start + minutes * 60,
        span.shortened(minutes).end_spec() == span.end_spec(),
        minutes == 0 || valid_instant(span.end_spec()) ==> span.shortened(minutes).wf(),
{
}

} // verus!
