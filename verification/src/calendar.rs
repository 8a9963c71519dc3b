//! Calendar days, weekdays and the local time zone.
//!
//! A calendar day is a count of days since 1 January 1970, and a wall-clock
//! reading a count of seconds since the local midnight that began that day.
//! Only the offset between local time and UTC is asked of the machine.

use crate::errors::SparrowError;
use crate::spans::valid_instant;
use chrono::offset::LocalResult;
use chrono::{DateTime, Local, TimeZone};
use vstd::prelude::*;

verus! {

/// A day of the week.
#[derive(Copy, Clone, Debug, PartialEq, Eq, Structural, Hash)]
pub enum Weekday {
    Mon,
    Tue,
    Wed,
    Thu,
    Fri,
    Sat,
    Sun,
}

impl Weekday {
    /// The number of days since Monday: 0 for Monday, 6 for Sunday.
    pub open spec fn index(self) -> int {
        match self {
            Weekday::Mon => 0,
            Weekday::Tue => 1,
            Weekday::Wed => 2,
            Weekday::Thu => 3,
            Weekday::Fri => 4,
            Weekday::Sat => 5,
            Weekday::Sun => 6,
        }
    }

    /// The weekday that lies `i` days after a Monday, for `i` from 0 to 6.
    pub open spec fn from_index(i: int) -> Weekday {
        if i == 0 {
            Weekday::Mon
        } else if i == 1 {
            Weekday::Tue
        } else if i == 2 {
            Weekday::Wed
        } else if i == 3 {
            Weekday::Thu
        } else if i == 4 {
            Weekday::Fri
        } else if i == 5 {
            Weekday::Sat
        } else {
            Weekday::Sun
        }
    }

    pub fn num_days_from_monday(&self) -> (days: u32)
        ensures
            days == self.index(),
    {
        match self {
            Weekday::Mon => 0,
            Weekday::Tue => 1,
            Weekday::Wed => 2,
            Weekday::Thu => 3,
            Weekday::Fri => 4,
            Weekday::Sat => 5,
            Weekday::Sun => 6,
        }
    }
}

/// A set of weekdays.
#[derive(Copy, Clone, Debug, PartialEq, Eq, Structural)]
pub struct WeekdaySet {
    pub mon: bool,
    pub tue: bool,
    pub wed: bool,
    pub thu: bool,
    pub fri: bool,
    pub sat: bool,
    pub sun: bool,
}

impl View for WeekdaySet {
    type V = Set<Weekday>;

    open spec fn view(&self) -> Set<Weekday> {
        Set::new(|day: Weekday| self.holds(day))
    }
}

impl WeekdaySet {
    /// Whether `day` is in the set.
    pub open spec fn holds(self, day: Weekday) -> bool {
        match day {
            Weekday::Mon => self.mon,
            Weekday::Tue => self.tue,
            Weekday::Wed => self.wed,
            Weekday::Thu => self.thu,
            Weekday::Fri => self.fri,
            Weekday::Sat => self.sat,
            Weekday::Sun => self.sun,
        }
    }

    /// The empty set.
    pub open spec fn empty_spec() -> WeekdaySet {
        WeekdaySet {
            mon: false,
            tue: false,
            wed: false,
            thu: false,
            fri: false,
            sat: false,
            sun: false,
        }
    }

    /// The empty set.
    pub fn new() -> (set: Self)
        ensures
            set == Self::empty_spec(),
            set@ == Set::<Weekday>::empty(),
            forall|day: Weekday| !set.holds(day),
    {
        let set = Self {
            mon: false,
            tue: false,
            wed: false,
            thu: false,
            fri: false,
            sat: false,
            sun: false,
        };
        assert(set@ =~= Set::<Weekday>::empty());
        set
    }

    pub fn contains(&self, day: Weekday) -> (yes: bool)
        ensures
            yes == self@.contains(day),
            yes == self.holds(day),
    {
        match day {
            Weekday::Mon => self.mon,
            Weekday::Tue => self.tue,
            Weekday::Wed => self.wed,
            Weekday::Thu => self.thu,
            Weekday::Fri => self.fri,
            Weekday::Sat => self.sat,
            Weekday::Sun => self.sun,
        }
    }

    pub fn insert(&mut self, day: Weekday)
        ensures
            final(self)@ == old(self)@.insert(day),
    {
        match day {
            Weekday::Mon => self.mon = true,
            Weekday::Tue => self.tue = true,
            Weekday::Wed => self.wed = true,
            Weekday::Thu => self.thu = true,
            Weekday::Fri => self.fri = true,
            Weekday::Sat => self.sat = true,
            Weekday::Sun => self.sun = true,
        }
        assert(self@ =~= old(self)@.insert(day));
    }
}

/// The calendar day on which a wall-clock reading falls.
pub open spec fn day_of(local_seconds: int) -> int {
    local_seconds / 86_400
}

/// The seconds that have passed since midnight at a wall-clock reading.
pub open spec fn second_of_day(local_seconds: int) -> int {
    local_seconds % 86_400
}

/// The wall-clock reading `seconds` after midnight on `day`.
pub open spec fn wall_clock(day: int, seconds: int) -> int {
    day * 86_400 + seconds
}

/// The weekday of a calendar day. Day 0, 1 January 1970, was a Thursday.
pub open spec fn weekday_of_day(day: int) -> Weekday {
    Weekday::from_index((day + 3) % 7)
}

/// The calendar day on which a wall-clock reading falls.
pub fn local_day(local_seconds: i64) -> (day: i64)
    requires
        -0x4000_0000_0000_0000 <= local_seconds,
    ensures
        day == day_of(local_seconds as int),
{
    if local_seconds >= 0 {
        local_seconds / 86_400
    } else {
        let back: i64 = -local_seconds;
        -((back + 86_399) / 86_400)
    }
}

/// The weekday of a calendar day.
pub fn weekday_of(day: i64) -> (weekday: Weekday)
    requires
        -0x4000_0000_0000_0000 <= day <= 0x4000_0000_0000_0000,
    ensures
        weekday == weekday_of_day(day as int),
{
    let index: i64 = if day >= 0 {
        (day % 7 + 3) % 7
    } else {
        let back: i64 = (-day) % 7;
        (10 - back) % 7
    };
    if index == 0 {
        Weekday::Mon
    } else if index == 1 {
        Weekday::Tue
    } else if index == 2 {
        Weekday::Wed
    } else if index == 3 {
        Weekday::Thu
    } else if index == 4 {
        Weekday::Fri
    } else if index == 5 {
        Weekday::Sat
    } else {
        Weekday::Sun
    }
}

/// Asks `chrono::Local` (`TimeZone::offset_from_utc_datetime`) how many
/// seconds local time is ahead of UTC at `instant`. The answer depends on
/// the machine's time zone, so nothing is claimed of it but chrono's own
/// bound on an offset: less than a day either way. `None` when chrono
/// cannot represent the instant.
#[verifier::external_body]
pub(crate) fn local_offset_at(instant: i64) -> (offset: Option<i32>)
    ensures
        offset matches Some(seconds) ==> -86_400 < seconds < 86_400,
{
    match DateTime::from_timestamp(instant, 0) {
        Some(utc) => Some(Local.offset_from_utc_datetime(&utc.naive_utc()).local_minus_utc()),
        None => None,
    }
}

/// What the local time zone says of a reading of the wall clock: how far
/// local time is ahead of UTC then, in seconds.
#[derive(Copy, Clone, Debug, PartialEq, Eq, Structural)]
pub enum LocalOffsets {
    /// The wall clock never shows the reading, or the reading is out of
    /// range.
    Never,
    /// The wall clock shows the reading once.
    Once(i32),
    /// The wall clock shows the reading twice. The two offsets come in the
    /// order in which chrono hands them out, which it documents as that of
    /// the earliest and the latest instant.
    Twice(i32, i32),
}

impl LocalOffsets {
    /// Every offset is less than a day either way.
    pub open spec fn wf(self) -> bool {
        match self {
            LocalOffsets::Never => true,
            LocalOffsets::Once(offset) => valid_offset(offset as int),
            LocalOffsets::Twice(first, second) => valid_offset(first as int) && valid_offset(
                second as int,
            ),
        }
    }
}

/// Asks `chrono::Local` (`TimeZone::offset_from_local_datetime`) how many
/// seconds local time is ahead of UTC when the local wall clock reads
/// `local_seconds`. The answer depends on the machine's time zone, so
/// nothing is claimed of it but chrono's own bound on an offset. There is
/// no offset when that reading never occurs on the local wall clock or
/// cannot be represented by chrono, and there are two when it occurs
/// twice.
#[verifier::external_body]
pub(crate) fn local_offsets_of_wall_clock(local_seconds: i64) -> (offsets: LocalOffsets)
    ensures
        offsets.wf(),
{
    match DateTime::from_timestamp(local_seconds, 0) {
        Some(wall) => match Local.offset_from_local_datetime(&wall.naive_utc()) {
            LocalResult::Single(offset) => LocalOffsets::Once(offset.local_minus_utc()),
            LocalResult::Ambiguous(first, second) => LocalOffsets::Twice(
                first.local_minus_utc(),
                second.local_minus_utc(),
            ),
            LocalResult::None => LocalOffsets::Never,
        },
        None => LocalOffsets::Never,
    }
}

/// An offset of local time from UTC is less than a day either way.
pub open spec fn valid_offset(seconds: int) -> bool {
    -86_400 < seconds < 86_400
}

/// `day` is the local calendar day of `instant` for some offset of local
/// time from UTC.
pub open spec fn is_local_day_of(day: int, instant: int) -> bool {
    exists|offset: int| #[trigger] valid_offset(offset) && day == day_of(instant + offset)
}

/// `instant` is an instant at which the local wall clock reads
/// `local_seconds`, for some offset of local time from UTC.
pub open spec fn is_instant_of(instant: int, local_seconds: int) -> bool {
    valid_instant(instant) && valid_offset(local_seconds - instant)
}

/// The local calendar day of `instant`, where local time is `offset`
/// seconds ahead of UTC.
pub fn local_day_at(instant: i64, offset: i32) -> (day: i64)
    requires
        valid_instant(instant as int),
    ensures
        day == day_of(instant + offset),
{
    local_day(instant + offset as i64)
}

/// The wall-clock reading `second_of_day` seconds after midnight on `day`.
pub fn wall_clock_at(day: i64, second_of_day: u32) -> (local_seconds: i64)
    requires
        -100_000_000_000 <= day <= 100_000_000_000,
    ensures
        local_seconds == wall_clock(day as int, second_of_day as int),
{
    day * 86_400 + second_of_day as i64
}

/// The one instant at which the local wall clock reads `local_seconds`,
/// given what the time zone says of that reading. The conversion fails
/// when the wall clock never shows the reading, when it shows it twice,
/// and when the instant would not be a valid one.
pub fn single_instant(local_seconds: i64, offsets: LocalOffsets) -> (instant: Result<
    i64,
    SparrowError,
>)
    requires
        -0x4000_0000_0000_0000 <= local_seconds <= 0x4000_0000_0000_0000,
    ensures
        instant is Ok <==> offsets is Once && valid_instant(local_seconds - offsets->Once_0),
        instant matches Ok(t) ==> t == local_seconds - offsets->Once_0,
        instant matches Err(e) ==> e is InvalidTimezoneConversion,
{
    match offsets {
        LocalOffsets::Once(seconds) => {
            let instant: i64 = local_seconds - seconds as i64;
            if crate::spans::is_valid_instant(instant) {
                Ok(instant)
            } else {
                Err(SparrowError::InvalidTimezoneConversion)
            }
        },
        _ => Err(SparrowError::InvalidTimezoneConversion),
    }
}

/// The local calendar day on which `instant` falls. Which day that is
/// depends on the machine's time zone.
pub fn local_day_of(instant: i64) -> (day: Result<i64, SparrowError>)
    requires
        valid_instant(instant as int),
    ensures
        day matches Ok(d) ==> is_local_day_of(d as int, instant as int),
        day matches Err(e) ==> e is InvalidTimezoneConversion,
{
    match local_offset_at(instant) {
        None => Err(SparrowError::InvalidTimezoneConversion),
        Some(offset) => {
            let day = local_day_at(instant, offset);
            assert(valid_offset(offset as int) && day == day_of(instant + offset as int));
            Ok(day)
        },
    }
}

/// The instant at which the local wall clock reads `second_of_day` seconds
/// after midnight on `day`. Whether there is exactly one such instant, and
/// which, depends on the machine's time zone.
pub fn local_instant(day: i64, second_of_day: u32) -> (instant: Result<i64, SparrowError>)
    requires
        -100_000_000_000 <= day <= 100_000_000_000,
    ensures
        instant matches Ok(t) ==> is_instant_of(
            t as int,
            wall_clock(day as int, second_of_day as int),
        ),
        instant matches Err(e) ==> e is InvalidTimezoneConversion,
{
    let local_seconds = wall_clock_at(day, second_of_day);
    let offsets = local_offsets_of_wall_clock(local_seconds);
    single_instant(local_seconds, offsets)
}

/// The earliest instant at which the local wall clock reads
/// `local_seconds`, given what the time zone says of that reading. There
/// is none when the wall clock never shows the reading, or when an instant
/// at which it does is not a valid one.
pub open spec fn earliest_instant_spec(local_seconds: int, offsets: LocalOffsets) -> Option<int> {
    match offsets {
        LocalOffsets::Never => None,
        LocalOffsets::Once(offset) => if valid_instant(local_seconds - offset) {
            Some(local_seconds - offset)
        } else {
            None
        },
        LocalOffsets::Twice(first, second) => if valid_instant(local_seconds - first)
            && valid_instant(local_seconds - second) {
            Some(local_seconds - first)
        } else {
            None
        },
    }
}

/// The earliest instant at which the local wall clock reads
/// `local_seconds`, given what the time zone says of that reading.
pub fn earliest_instant(local_seconds: i64, offsets: LocalOffsets) -> (instant: Option<i64>)
    requires
        -0x4000_0000_0000_0000 <= local_seconds <= 0x4000_0000_0000_0000,
    ensures
        instant is Some == earliest_instant_spec(local_seconds as int, offsets) is Some,
        instant matches Some(t) ==> earliest_instant_spec(local_seconds as int, offsets) == Some(
            t as int,
        ),
{
    match offsets {
        LocalOffsets::Never => None,
        LocalOffsets::Once(offset) => {
            let instant: i64 = local_seconds - offset as i64;
            if crate::spans::is_valid_instant(instant) {
                Some(instant)
            } else {
                None
            }
        },
        LocalOffsets::Twice(first, second) => {
            let instant: i64 = local_seconds - first as i64;
            let other: i64 = local_seconds - second as i64;
            if crate::spans::is_valid_instant(instant) && crate::spans::is_valid_instant(other) {
                Some(instant)
            } else {
                None
            }
        },
    }
}

/// The earliest instant at which the local wall clock reads `second_of_day`
/// seconds after midnight on `day`. Whether there is such an instant, and
/// which, depends on the machine's time zone.
pub fn earliest_local_instant(day: i64, second_of_day: u32) -> (instant: Option<i64>)
    requires
        -100_000_000_000 <= day <= 100_000_000_000,
    ensures
        instant matches Some(t) ==> is_instant_of(
            t as int,
            wall_clock(day as int, second_of_day as int),
        ),
{
    let local_seconds = wall_clock_at(day, second_of_day);
    let offsets = local_offsets_of_wall_clock(local_seconds);
    earliest_instant(local_seconds, offsets)
}

/// The local day of a valid instant lies within a day of the instant.
pub proof fn lemma_local_day_bounds(day: int, instant: int)
    requires
        valid_instant(instant),
        is_local_day_of(day, instant),
    ensures
        -96_465_295 <= day <= 95_026_238,
        instant - 86_400 < day * 86_400 + 86_400,
        day * 86_400 < instant + 86_400,
{
}

} // verus!
