//! Moments in time.

use png_metadata_gui::clock::{
    distance_from_epoch, format_timestamp, moment_of, stamp_at, Distance, Moment, EARLIEST_SECOND,
    LATEST_SECOND,
};
use png_metadata_gui::scan::FileFacts;
use std::time::{Duration, UNIX_EPOCH};

#[test]
fn a_moment_counts_whole_seconds_downwards_before_the_epoch() {
    let later = UNIX_EPOCH + Duration::new(5, 250);
    assert_eq!(moment_of(later), Moment { secs: 5, nanos: 250 });
    let earlier = UNIX_EPOCH - Duration::new(5, 250);
    assert_eq!(moment_of(earlier), Moment { secs: -6, nanos: 999_999_750 });
    assert_eq!(moment_of(UNIX_EPOCH - Duration::from_secs(5)), Moment { secs: -5, nanos: 0 });
    assert_eq!(
        distance_from_epoch(earlier),
        Distance { before: true, secs: 5, nanos: 250 }
    );
    assert_eq!(
        distance_from_epoch(UNIX_EPOCH),
        Distance { before: false, secs: 0, nanos: 0 }
    );
}

/// A text with its digits turned into zeros.
fn shape(text: &str) -> String {
    text.chars().map(|c| if c.is_ascii_digit() { '0' } else { c }).collect()
}

#[test]
fn a_timestamp_carries_its_second_and_reads_as_a_date() {
    let time = UNIX_EPOCH + Duration::new(1_700_000_000, 5);
    let stamp = format_timestamp(time).expect("a date");
    assert_eq!(stamp.epoch, 1_700_000_000);
    // The time zone is the machine's, so only the shape is fixed.
    assert_eq!(shape(&stamp.text), "0000-00-00 00:00:00");
    assert!(stamp.text.starts_with("2023-11-1"));
    assert_eq!(stamp_at(moment_of(time)).text, stamp.text);
}

#[test]
fn a_timestamp_before_the_epoch_counts_downwards() {
    let stamp = format_timestamp(UNIX_EPOCH - Duration::from_millis(500)).expect("a date");
    assert_eq!(stamp.epoch, -1);
}

#[test]
fn the_ends_of_the_range_have_timestamps() {
    assert_eq!(
        stamp_at(Moment { secs: i128::from(EARLIEST_SECOND), nanos: 0 }).epoch,
        EARLIEST_SECOND
    );
    assert_eq!(
        stamp_at(Moment { secs: i128::from(LATEST_SECOND), nanos: 999_999_999 }).epoch,
        LATEST_SECOND
    );
    let last = UNIX_EPOCH + Duration::from_secs(LATEST_SECOND as u64);
    assert!(format_timestamp(last).is_some());
    assert!(format_timestamp(last + Duration::from_secs(1)).is_none());
}

#[test]
fn a_files_times_become_stamps_and_a_change_detector() {
    let modified = UNIX_EPOCH + Duration::from_millis(5_900);
    let facts = FileFacts::of_file(7, None, Some(modified)).expect("dates");
    assert_eq!(facts.size, 7);
    assert!(facts.created.is_none());
    assert_eq!(facts.modified.map(|stamp| stamp.epoch), Some(5));
    assert_eq!(facts.modified_epoch, Some(5));
    let never = UNIX_EPOCH + Duration::from_secs(LATEST_SECOND as u64 + 1);
    assert!(FileFacts::of_file(7, Some(never), None).is_none());
}
