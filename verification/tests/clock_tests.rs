use ai_wiki_core::clock::{clock_time, full_time};
use ai_wiki_core::queue::QueueError;

#[test]
fn times_of_day_are_shown_in_utc() {
    assert_eq!(clock_time("2026-01-02T03:04:05+00:00"), "03:04:05");
    assert_eq!(clock_time("2026-01-02T03:04:05.123456+02:00"), "01:04:05");
    assert_eq!(clock_time("2026-01-02T23:30:00-01:00"), "00:30:00");
    assert_eq!(clock_time("yesterday"), "");
}

#[test]
fn full_times_fall_back_to_the_text() {
    assert_eq!(full_time("2026-01-02T03:04:05Z"), "2026-01-02 03:04:05");
    assert_eq!(full_time("2026-01-02T23:30:00-01:00"), "2026-01-03 00:30:00");
    assert_eq!(full_time("not a time"), "not a time");
}

#[test]
fn an_unreadable_clock_has_its_own_error() {
    assert_eq!(
        QueueError::ClockUnavailable.message(),
        "clock error: the current time cannot be read"
    );
}
