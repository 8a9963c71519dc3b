use sparrow::spans::is_valid_instant;
use sparrow::{Bedtime, Repeat, TimeSpan, WeekdaySet, MAX_INSTANT, MIN_INSTANT};

const NOON: i64 = 1_700_049_600;

#[test]
fn span_end_is_start_plus_minutes() {
    let span = TimeSpan::new(NOON, 90);
    assert_eq!(span.start(), NOON);
    assert_eq!(span.minutes(), 90);
    assert_eq!(span.end(), NOON + 90 * 60);
    assert_eq!(TimeSpan::new(NOON, 0).end(), NOON);
}

#[test]
fn set_start_keeps_the_length() {
    let mut span = TimeSpan::new(NOON, 45);
    span.set_start(NOON + 600);
    assert_eq!(span, TimeSpan::new(NOON + 600, 45));
}

#[test]
fn overlapping_spans_overlap_both_ways() {
    let a = TimeSpan::new(NOON, 60);
    let b = TimeSpan::new(NOON + 30 * 60, 60);
    assert!(a.overlaps(&b));
    assert!(b.overlaps(&a));
    let inside = TimeSpan::new(NOON + 10 * 60, 5);
    assert!(a.overlaps(&inside));
    assert!(inside.overlaps(&a));
}

#[test]
fn spans_that_meet_end_to_start_do_not_overlap() {
    let a = TimeSpan::new(NOON, 60);
    let b = TimeSpan::new(NOON + 60 * 60, 60);
    assert!(!a.overlaps(&b));
    assert!(!b.overlaps(&a));
    assert!(a.touches(&b));
    assert!(b.touches(&a));
}

#[test]
fn empty_spans_overlap_only_inside_or_at_one_instant() {
    let a = TimeSpan::new(NOON, 60);
    let inside = TimeSpan::new(NOON + 60, 0);
    let at_start = TimeSpan::new(NOON, 0);
    let at_end = TimeSpan::new(NOON + 3600, 0);
    assert!(a.overlaps(&inside));
    assert!(!a.overlaps(&at_start));
    assert!(!a.overlaps(&at_end));
    assert!(at_start.overlaps(&at_start));
    assert!(!at_start.overlaps(&at_end));
}

#[test]
fn touches_is_overlap_or_adjacency() {
    let spans = [
        TimeSpan::new(NOON, 60),
        TimeSpan::new(NOON + 3600, 30),
        TimeSpan::new(NOON + 1800, 60),
        TimeSpan::new(NOON + 7200, 0),
        TimeSpan::new(NOON - 600, 10),
        TimeSpan::new(NOON + 86_400, 15),
    ];
    for a in spans.iter() {
        for b in spans.iter() {
            let expected = a.overlaps(b) || a.end() == b.start() || b.end() == a.start();
            assert_eq!(a.touches(b), expected);
        }
    }
}

#[test]
fn separate_spans_do_not_touch() {
    let a = TimeSpan::new(NOON, 60);
    let b = TimeSpan::new(NOON + 2 * 3600, 60);
    assert!(!a.touches(&b));
    assert!(!a.overlaps(&b));
}

#[test]
fn gap_is_the_time_between_in_either_order() {
    let a = TimeSpan::new(NOON, 60);
    let b = TimeSpan::new(NOON + 2 * 3600, 30);
    let expected = Some(TimeSpan::new(NOON + 3600, 60));
    assert_eq!(TimeSpan::time_between(&a, &b), expected);
    assert_eq!(TimeSpan::time_between(&b, &a), expected);
}

#[test]
fn gap_counts_whole_minutes() {
    let a = TimeSpan::new(NOON, 1);
    let b = TimeSpan::new(NOON + 60 + 150, 1);
    assert_eq!(TimeSpan::time_between(&a, &b), Some(TimeSpan::new(NOON + 60, 2)));
    let close = TimeSpan::new(NOON + 60 + 59, 1);
    assert_eq!(TimeSpan::time_between(&a, &close), Some(TimeSpan::new(NOON + 60, 0)));
}

#[test]
fn no_gap_between_spans_that_touch() {
    let a = TimeSpan::new(NOON, 60);
    let adjacent = TimeSpan::new(NOON + 3600, 60);
    let overlapping = TimeSpan::new(NOON + 1800, 60);
    assert_eq!(TimeSpan::time_between(&a, &adjacent), None);
    assert_eq!(TimeSpan::time_between(&adjacent, &a), None);
    assert_eq!(TimeSpan::time_between(&a, &overlapping), None);
    assert_eq!(TimeSpan::time_between(&a, &a), None);
}

#[test]
fn shrinking_moves_the_start_and_keeps_the_end() {
    let mut span = TimeSpan::new(NOON, 60);
    span.advance_and_shorten(25);
    assert_eq!(span, TimeSpan::new(NOON + 25 * 60, 35));
    assert_eq!(span.end(), NOON + 3600);
}

#[test]
fn shrinking_by_nothing_changes_nothing() {
    let mut span = TimeSpan::new(NOON, 60);
    span.advance_and_shorten(0);
    assert_eq!(span, TimeSpan::new(NOON, 60));
}

#[test]
fn shrinking_works_up_to_the_latest_instant() {
    let mut last = TimeSpan::new(MAX_INSTANT, 10);
    last.advance_and_shorten(0);
    assert_eq!(last, TimeSpan::new(MAX_INSTANT, 10));
    last.advance_and_shorten(4);
    assert_eq!(last, TimeSpan::new(MAX_INSTANT + 240, 6));
    let mut longest = TimeSpan::new(MAX_INSTANT, u32::MAX);
    longest.advance_and_shorten(u32::MAX);
    assert_eq!(longest, TimeSpan::new(MAX_INSTANT + u32::MAX as i64 * 60, 0));
}

#[test]
fn shrinking_by_too_much_leaves_an_empty_span_at_the_end() {
    let mut span = TimeSpan::new(NOON, 60);
    span.advance_and_shorten(61);
    assert_eq!(span, TimeSpan::new(NOON + 3600, 0));
    let mut exact = TimeSpan::new(NOON, 60);
    exact.advance_and_shorten(60);
    assert_eq!(exact, TimeSpan::new(NOON + 3600, 0));
    let mut far = TimeSpan::new(NOON, 60);
    far.advance_and_shorten(u32::MAX);
    assert_eq!(far, TimeSpan::new(NOON + 3600, 0));
}

#[test]
fn valid_instants_are_those_chrono_can_name() {
    assert!(is_valid_instant(0));
    assert!(is_valid_instant(MIN_INSTANT));
    assert!(is_valid_instant(MAX_INSTANT));
    assert!(!is_valid_instant(MIN_INSTANT - 1));
    assert!(!is_valid_instant(MAX_INSTANT + 1));
    assert!(chrono::DateTime::from_timestamp(MIN_INSTANT, 0).is_some());
    assert!(chrono::DateTime::from_timestamp(MAX_INSTANT, 0).is_some());
    assert!(chrono::DateTime::from_timestamp(MIN_INSTANT - 1, 0).is_none());
    assert!(chrono::DateTime::from_timestamp(MAX_INSTANT + 1, 0).is_none());
}

#[test]
fn repeat_steps() {
    assert_eq!(Repeat::Never.step(), None);
    assert_eq!(Repeat::Daily.step(), Some(86_400));
    assert_eq!(Repeat::Weekly(WeekdaySet::new()).step(), Some(604_800));
}

#[test]
fn bedtime_ends_after_its_minutes() {
    let bedtime = Bedtime::new(22 * 3600, 8 * 60);
    assert_eq!(bedtime.start(), 22 * 3600);
    assert_eq!(bedtime.duration_minutes(), 480);
    assert_eq!(bedtime.end(), 6 * 3600);
    assert_eq!(Bedtime::new(3600, 30).end(), 5400);
    assert_eq!(Bedtime::new(0, 24 * 60).end(), 0);
}

#[test]
fn default_bedtime_is_eight_in_the_evening_for_ten_hours() {
    let bedtime = Bedtime::default();
    assert_eq!(bedtime.start(), 20 * 3600);
    assert_eq!(bedtime.duration_minutes(), 600);
    assert_eq!(bedtime.end(), 6 * 3600);
}
