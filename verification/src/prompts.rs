//! What the answers to the program's questions mean.
//!
//! Asking and reading is left to the program. Here an answer is a piece of
//! text, and each function says what the text stands for.

use crate::calendar::{
    day_of, earliest_instant, earliest_instant_spec, is_instant_of, local_day,
    local_offsets_of_wall_clock, wall_clock, wall_clock_at, LocalOffsets, WeekdaySet,
};
use crate::errors::{is_refusal, SparrowError};
use crate::spans::{valid_instant, Repeat};
use chrono::{NaiveDate, NaiveTime, Timelike};
use vstd::prelude::*;
use vstd::string::*;

verus! {

/// The text that std's `str::trim` leaves of a text: the text without the
/// white space at its start and at its end.
pub uninterp spec fn trimmed(text: Seq<char>) -> Seq<char>;

/// The text that std's `str::to_lowercase` makes of a text: the text in
/// lower case.
pub uninterp spec fn lowercase(text: Seq<char>) -> Seq<char>;

/// Calls std's `str::trim`, which returns the text without leading and
/// trailing white space, as Unicode defines it. The contract only names
/// the result.
#[verifier::external_body]
pub(crate) fn trim(text: &str) -> (out: String)
    ensures
        out@ == trimmed(text@),
{
    text.trim().to_string()
}

/// Calls std's `str::to_lowercase`, which returns the text in lower case,
/// as Unicode defines it. The contract only names the result.
#[verifier::external_body]
pub(crate) fn to_lowercase(text: &str) -> (out: String)
    ensures
        out@ == lowercase(text@),
{
    text.to_lowercase()
}

/// Tells whether `whole` starts with `prefix`.
pub fn is_prefix_of(prefix: &str, whole: &str) -> (yes: bool)
    ensures
        yes == prefix@.is_prefix_of(whole@),
{
    let n = prefix.unicode_len();
    let m = whole.unicode_len();
    if n > m {
        return false;
    }
    let mut i: usize = 0;
    while i < n
        invariant
            i <= n <= m,
            n == prefix@.len(),
            m == whole@.len(),
            forall|k: int| 0 <= k < i ==> prefix@[k] == whole@[k],
        decreases n - i,
    {
        if prefix.get_char(i) != whole.get_char(i) {
            assert(whole@.subrange(0, n as int)[i as int] != prefix@[i as int]);
            return false;
        }
        i += 1;
    }
    assert(prefix@ =~= whole@.subrange(0, n as int));
    true
}

/// A fancy bool.
#[derive(Copy, Clone, Debug, PartialEq, Eq, Structural)]
pub enum Decision {
    Yes,
    No,
}

impl Decision {
    pub fn is_yes(&self) -> (yes: bool)
        ensures
            yes == (*self is Yes),
    {
        match self {
            Decision::Yes => true,
            Decision::No => false,
        }
    }

    pub fn is_no(&self) -> (no: bool)
        ensures
            no == (*self is No),
    {
        match self {
            Decision::Yes => false,
            Decision::No => true,
        }
    }
}

/// What an answer to a yes-or-no question says.
#[derive(Copy, Clone, Debug, PartialEq, Eq, Structural)]
pub enum YesNoAnswer {
    /// Nothing was entered: the question's default holds.
    Blank,
    /// A decision was made.
    Decided(Decision),
    /// The answer is neither: ask again.
    Unclear,
}

/// What an answer that was trimmed and put in lower case says to a
/// yes-or-no question: nothing when it is empty, yes when it starts with a
/// `y`, no when it starts with an `n`.
pub open spec fn yes_no_spec(answer: Seq<char>) -> YesNoAnswer {
    if answer.len() == 0 {
        YesNoAnswer::Blank
    } else if answer[0] == 'y' {
        YesNoAnswer::Decided(Decision::Yes)
    } else if answer[0] == 'n' {
        YesNoAnswer::Decided(Decision::No)
    } else {
        YesNoAnswer::Unclear
    }
}

/// What an answer that was trimmed and put in lower case says to a
/// yes-or-no question.
pub fn yes_no(answer: &str) -> (said: YesNoAnswer)
    ensures
        said == yes_no_spec(answer@),
{
    if answer.unicode_len() == 0 {
        YesNoAnswer::Blank
    } else {
        let first = answer.get_char(0);
        if first == 'y' {
            YesNoAnswer::Decided(Decision::Yes)
        } else if first == 'n' {
            YesNoAnswer::Decided(Decision::No)
        } else {
            YesNoAnswer::Unclear
        }
    }
}

/// What a line of input says to a yes-or-no question. White space around
/// the answer and upper case do not matter.
pub fn parse_yn(input: &str) -> (said: YesNoAnswer)
    ensures
        said == yes_no_spec(lowercase(trimmed(input@))),
{
    let answer = to_lowercase(trim(input).as_str());
    yes_no(answer.as_str())
}

/// How to repeat, as an answer that was trimmed and put in lower case
/// says: never for nothing or the start of "no", daily for the start of
/// "daily", weekly for the start of "weekly"; none for anything else.
pub open spec fn repeat_spec(answer: Seq<char>) -> Option<Repeat> {
    if answer.is_prefix_of("no"@) {
        Some(Repeat::Never)
    } else if answer.is_prefix_of("daily"@) {
        Some(Repeat::Daily)
    } else if answer.is_prefix_of("weekly"@) {
        Some(Repeat::Weekly(WeekdaySet::empty_spec()))
    } else {
        None
    }
}

/// How to repeat, as an answer that was trimmed and put in lower case
/// says. An answer that fits nothing is refused with the words "What?".
pub fn repeat_of(answer: &str) -> (repeat: Result<Repeat, SparrowError>)
    ensures
        repeat_spec(answer@) matches Some(r) ==> repeat == Ok::<Repeat, SparrowError>(r),
        repeat_spec(answer@) is None ==> is_refusal(repeat, "What?"@),
{
    if is_prefix_of(answer, "no") {
        Ok(Repeat::Never)
    } else if is_prefix_of(answer, "daily") {
        Ok(Repeat::Daily)
    } else if is_prefix_of(answer, "weekly") {
        Ok(Repeat::Weekly(WeekdaySet::new()))
    } else {
        Err(SparrowError::BasicMessage(String::from_str("What?")))
    }
}

/// How to repeat, as a line of input says. White space around the answer
/// and upper case do not matter.
pub fn parse_repeat(input: &str) -> (repeat: Result<Repeat, SparrowError>)
    ensures
        repeat_spec(lowercase(trimmed(input@))) matches Some(r) ==> repeat == Ok::<
            Repeat,
            SparrowError,
        >(r),
        repeat_spec(lowercase(trimmed(input@))) is None ==> is_refusal(repeat, "What?"@),
{
    let answer = to_lowercase(trim(input).as_str());
    repeat_of(answer.as_str())
}

/// What can be added to the user's data.
#[derive(Copy, Clone, Debug, PartialEq, Eq, Structural)]
pub enum AddType {
    Task,
    Break,
    Event,
}

/// What to add, as a word in lower case says: a task for the start of
/// "task", a break for the start of "break", an event for the start of
/// "event"; none for anything else.
pub open spec fn add_type_spec(word: Seq<char>) -> Option<AddType> {
    if word.is_prefix_of("task"@) {
        Some(AddType::Task)
    } else if word.is_prefix_of("break"@) {
        Some(AddType::Break)
    } else if word.is_prefix_of("event"@) {
        Some(AddType::Event)
    } else {
        None
    }
}

/// The words with which a word that names nothing to add is refused.
pub open spec fn not_addable(word: Seq<char>) -> Seq<char> {
    "'"@ + word + "' isn't something you can add"@
}

impl AddType {
    /// What to add, as a word in lower case says.
    pub fn of_word(word: &str) -> (add_type: Result<Self, SparrowError>)
        ensures
            add_type_spec(word@) matches Some(t) ==> add_type == Ok::<AddType, SparrowError>(t),
            add_type_spec(word@) is None ==> is_refusal(add_type, not_addable(word@)),
    {
        if is_prefix_of(word, "task") {
            Ok(AddType::Task)
        } else if is_prefix_of(word, "break") {
            Ok(AddType::Break)
        } else if is_prefix_of(word, "event") {
            Ok(AddType::Event)
        } else {
            let mut message = String::from_str("'");
            message.append(word);
            message.append("' isn't something you can add");
            Err(SparrowError::BasicMessage(message))
        }
    }

    /// What to add, as a word says. Upper case does not matter.
    pub fn try_from(value: &str) -> (add_type: Result<Self, SparrowError>)
        ensures
            add_type_spec(lowercase(value@)) matches Some(t) ==> add_type == Ok::<
                AddType,
                SparrowError,
            >(t),
            add_type_spec(lowercase(value@)) is None ==> is_refusal(
                add_type,
                not_addable(lowercase(value@)),
            ),
    {
        let word = to_lowercase(value);
        Self::of_word(word.as_str())
    }

    /// What to add, as a trimmed answer to the question says: a task when
    /// nothing was entered, else what the word says. A word that names
    /// nothing to add is refused with a hint at the choices.
    pub fn of_answer(answer: &str) -> (add_type: Result<Self, SparrowError>)
        ensures
            answer@.len() == 0 ==> add_type == Ok::<AddType, SparrowError>(AddType::Task),
            answer@.len() > 0 && add_type_spec(lowercase(answer@)) is Some ==> add_type == Ok::<
                AddType,
                SparrowError,
            >(add_type_spec(lowercase(answer@))->Some_0),
            answer@.len() > 0 && add_type_spec(lowercase(answer@)) is None ==> is_refusal(
                add_type,
                "Enter 'type', 'break', or 'event'"@,
            ),
    {
        if answer.unicode_len() == 0 {
            Ok(AddType::Task)
        } else {
            match Self::try_from(answer) {
                Ok(add_type) => Ok(add_type),
                Err(_) => Err(
                    SparrowError::BasicMessage(String::from_str("Enter 'type', 'break', or 'event'")),
                ),
            }
        }
    }
}

/// The name of a task, as a trimmed answer gives it: the answer itself,
/// unless it is empty.
pub fn task_name_of(answer: &str) -> (name: Result<String, SparrowError>)
    ensures
        answer@.len() > 0 ==> (name matches Ok(n) && n@ == answer@),
        answer@.len() == 0 ==> is_refusal(
            name,
            "Trust me, you don't want a task with a blank name"@,
        ),
{
    if answer.unicode_len() == 0 {
        Err(
            SparrowError::BasicMessage(
                String::from_str("Trust me, you don't want a task with a blank name"),
            ),
        )
    } else {
        Ok(String::from_str(answer))
    }
}

/// The name of a task, as a line of input gives it. White space around the
/// name is dropped; a blank name is refused.
pub fn parse_task_name(input: &str) -> (name: Result<String, SparrowError>)
    ensures
        trimmed(input@).len() > 0 ==> (name matches Ok(n) && n@ == trimmed(input@)),
        trimmed(input@).len() == 0 ==> is_refusal(
            name,
            "Trust me, you don't want a task with a blank name"@,
        ),
{
    let answer = trim(input);
    task_name_of(answer.as_str())
}

/// The hint that goes with the question for a time of day.
pub open spec fn time_prompt_format_spec(time_format: Seq<char>, allow_midnight_on_empty: bool) -> Seq<
    char,
> {
    if allow_midnight_on_empty {
        time_format + ", or empty for midnight"@
    } else {
        time_format
    }
}

/// The hint that goes with the question for a time of day: the format of
/// the time, and that nothing may be entered where midnight is allowed.
pub fn time_prompt_format(time_format: &str, allow_midnight_on_empty: bool) -> (hint: String)
    ensures
        hint@ == time_prompt_format_spec(time_format@, allow_midnight_on_empty),
{
    let mut hint = String::from_str(time_format);
    if allow_midnight_on_empty {
        hint.append(", or empty for midnight");
    }
    hint
}

/// Whether an answer to the question for a time of day stands for
/// midnight: nothing was entered, and midnight is allowed.
pub fn means_midnight(answer: &str, allow_midnight_on_empty: bool) -> (yes: bool)
    ensures
        yes == (answer@.len() == 0 && allow_midnight_on_empty),
{
    answer.unicode_len() == 0 && allow_midnight_on_empty
}

/// Whether a line of input is blank: nothing is left of it without the
/// white space around it.
pub fn is_blank(input: &str) -> (yes: bool)
    ensures
        yes == (trimmed(input@).len() == 0),
{
    trim(input).as_str().unicode_len() == 0
}

/// What chrono's `NaiveDate::parse_from_str` makes of a text and a format:
/// the date, as the seconds from 1 January 1970 to its midnight, or the
/// words of chrono's error.
pub uninterp spec fn parsed_date(input: Seq<char>, format: Seq<char>) -> Result<int, Seq<char>>;

/// What chrono's `NaiveTime::parse_from_str` makes of a text and a format:
/// the time of day, in seconds after midnight, or the words of chrono's
/// error.
pub uninterp spec fn parsed_time(input: Seq<char>, format: Seq<char>) -> Result<int, Seq<char>>;

/// What was handed out is what was read: the same number, or the same
/// words.
pub open spec fn was_read(got: Result<i64, String>, read: Result<int, Seq<char>>) -> bool {
    match (got, read) {
        (Ok(number), Ok(value)) => number == value,
        (Err(words), Err(said)) => words@ == said,
        _ => false,
    }
}

/// A time of day that was read or not, with the seconds as a wider number.
pub open spec fn time_as_seconds(time: Result<u32, String>) -> Result<i64, String> {
    match time {
        Ok(seconds) => Ok(seconds as i64),
        Err(words) => Err(words),
    }
}

/// Calls chrono's `NaiveDate::parse_from_str`, which reads a date in the
/// given format. The contract names the result. Of a date that was read it
/// adds what chrono's dates guarantee: it is handed out as the seconds from
/// 1 January 1970 to its midnight, a whole number of days that chrono can
/// represent.
#[verifier::external_body]
pub(crate) fn parse_date(input: &str, format: &str) -> (date: Result<i64, String>)
    ensures
        was_read(date, parsed_date(input@, format@)),
        date matches Ok(seconds) ==> valid_instant(seconds as int) && seconds as int % 86_400
            == 0,
{
    match NaiveDate::parse_from_str(input, format) {
        Ok(date) => Ok(date.and_time(NaiveTime::MIN).and_utc().timestamp()),
        Err(e) => Err(e.to_string()),
    }
}

/// Calls chrono's `NaiveTime::parse_from_str`, which reads a time of day in
/// the given format. The contract names the result. Of a time that was
/// read it adds what chrono's times guarantee: it is handed out in seconds
/// after midnight, fewer than a day has.
#[verifier::external_body]
pub(crate) fn parse_time(input: &str, format: &str) -> (time: Result<u32, String>)
    ensures
        was_read(time_as_seconds(time), parsed_time(input@, format@)),
        time matches Ok(seconds) ==> seconds < 86_400,
{
    match NaiveTime::parse_from_str(input, format) {
        Ok(time) => Ok(time.num_seconds_from_midnight()),
        Err(e) => Err(e.to_string()),
    }
}

/// The calendar day that an answer names, as chrono read it.
pub open spec fn day_spec(parsed: Result<int, Seq<char>>) -> Result<int, Seq<char>> {
    match parsed {
        Ok(seconds) => Ok(day_of(seconds)),
        Err(words) => Err(words),
    }
}

/// The result is the value `wanted`, or the refusal to read a date or a
/// time with the words `wanted`.
pub open spec fn reads_as(result: Result<i64, SparrowError>, wanted: Result<int, Seq<char>>) -> bool {
    match (result, wanted) {
        (Ok(got), Ok(value)) => got == value,
        (Err(SparrowError::ChronoParse(got)), Err(words)) => got@ == words,
        _ => false,
    }
}

/// The calendar day of a date that was read, or the refusal with the words
/// of the reader.
pub fn day_of_parsed(parsed: Result<i64, String>) -> (day: Result<i64, SparrowError>)
    requires
        parsed matches Ok(seconds) ==> valid_instant(seconds as int),
    ensures
        parsed matches Ok(seconds) ==> day == Ok::<i64, SparrowError>(
            day_of(seconds as int) as i64,
        ) && -100_000_000 <= day_of(seconds as int) <= 100_000_000,
        parsed matches Err(words) ==> day == Err::<i64, SparrowError>(
            SparrowError::ChronoParse(words),
        ),
{
    match parsed {
        Ok(seconds) => Ok(local_day(seconds)),
        Err(words) => Err(SparrowError::ChronoParse(words)),
    }
}

/// The calendar day that a line of input names in the given format. White
/// space around the date does not matter.
pub fn parse_day(input: &str, format: &str) -> (day: Result<i64, SparrowError>)
    ensures
        reads_as(day, day_spec(parsed_date(trimmed(input@), format@))),
        day matches Ok(d) ==> -100_000_000 <= d <= 100_000_000,
{
    let answer = trim(input);
    day_of_parsed(parse_date(answer.as_str(), format))
}

/// The time of day that an answer names, in seconds after midnight;
/// nothing for an answer that stands for midnight.
pub fn time_of_parsed(parsed: Result<u32, String>, midnight: bool) -> (time: Result<
    Option<u32>,
    SparrowError,
>)
    ensures
        midnight ==> time == Ok::<Option<u32>, SparrowError>(None),
        !midnight ==> match parsed {
            Ok(seconds) => time == Ok::<Option<u32>, SparrowError>(Some(seconds)),
            Err(words) => time == Err::<Option<u32>, SparrowError>(
                SparrowError::ChronoParse(words),
            ),
        },
{
    if midnight {
        Ok(None)
    } else {
        match parsed {
            Ok(seconds) => Ok(Some(seconds)),
            Err(words) => Err(SparrowError::ChronoParse(words)),
        }
    }
}

/// The time of day that an answer names in the given format, in seconds
/// after midnight. Where midnight is allowed, an empty answer stands for
/// it and gives nothing.
pub fn parse_time_of_day(input: &str, format: &str, allow_midnight_on_empty: bool) -> (time: Result<
    Option<u32>,
    SparrowError,
>)
    ensures
        input@.len() == 0 && allow_midnight_on_empty ==> time == Ok::<Option<u32>, SparrowError>(
            None,
        ),
        !(input@.len() == 0 && allow_midnight_on_empty) ==> match parsed_time(input@, format@) {
            Ok(seconds) => time matches Ok(Some(t)) && t == seconds,
            Err(words) => time matches Err(SparrowError::ChronoParse(w)) && w@ == words,
        },
        time matches Ok(Some(t)) ==> t < 86_400,
{
    if means_midnight(input, allow_midnight_on_empty) {
        Ok(None)
    } else {
        time_of_parsed(parse_time(input, format), false)
    }
}

/// The words with which a date and a time are refused that name no
/// instant.
pub open spec fn no_moment_words(has_time: bool) -> Seq<char> {
    if has_time {
        "Sorry, the time you entered can't be converted to your local timezone."@
    } else {
        "Sorry, the date you entered can't be converted to your local timezone."@
    }
}

/// The instant that a date and a time of day name, given what the time
/// zone says of that reading of the wall clock: the earliest instant at
/// which the wall clock shows it. Without a time of day, midnight is
/// meant.
pub fn moment_of_reading(day: i64, time: Option<u32>, offsets: LocalOffsets) -> (moment: Result<
    i64,
    SparrowError,
>)
    requires
        -100_000_000_000 <= day <= 100_000_000_000,
    ensures
        ({
            let seconds = match time {
                Some(t) => t as int,
                None => 0,
            };
            match earliest_instant_spec(wall_clock(day as int, seconds), offsets) {
                Some(instant) => moment == Ok::<i64, SparrowError>(instant as i64)
                    && valid_instant(instant),
                None => is_refusal(moment, no_moment_words(time is Some)),
            }
        }),
{
    let seconds: u32 = match time {
        Some(t) => t,
        None => 0,
    };
    let local_seconds = wall_clock_at(day, seconds);
    match earliest_instant(local_seconds, offsets) {
        Some(instant) => Ok(instant),
        None => {
            let words = if time.is_some() {
                "Sorry, the time you entered can't be converted to your local timezone."
            } else {
                "Sorry, the date you entered can't be converted to your local timezone."
            };
            Err(SparrowError::BasicMessage(String::from_str(words)))
        },
    }
}

/// The seconds after midnight that an answer for a time of day stands for:
/// its own, or none where midnight is meant.
pub open spec fn reading_seconds(time: Option<u32>) -> int {
    match time {
        Some(t) => t as int,
        None => 0,
    }
}

/// The instant that a date and a time of day name in the local time zone:
/// the earliest instant at which the local wall clock shows them. Whether
/// there is one, and which, depends on the machine's time zone. An instant
/// that is returned is a valid one at which the local wall clock, for some
/// offset from UTC, reads the time of day on the day; a refusal says
/// whether it was the time or the date that named no instant.
pub fn local_moment(day: i64, time: Option<u32>) -> (moment: Result<i64, SparrowError>)
    requires
        -100_000_000_000 <= day <= 100_000_000_000,
    ensures
        moment matches Ok(instant) ==> is_instant_of(
            instant as int,
            wall_clock(day as int, reading_seconds(time)),
        ),
        moment is Err ==> is_refusal(moment, no_moment_words(time is Some)),
{
    let seconds: u32 = match time {
        Some(t) => t,
        None => 0,
    };
    let offsets = local_offsets_of_wall_clock(wall_clock_at(day, seconds));
    moment_of_reading(day, time, offsets)
}

} // verus!
