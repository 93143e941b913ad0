//! Moments in time as plain numbers.

use vstd::prelude::*;

use std::time::{Duration, SystemTime, SystemTimeError, UNIX_EPOCH};

verus! {

/// Declares `std::time::SystemTime`.
#[verifier::external_type_specification]
#[verifier::external_body]
pub struct ExSystemTime(std::time::SystemTime);

/// Declares `std::time::SystemTimeError`.
#[verifier::external_type_specification]
#[verifier::external_body]
pub struct ExSystemTimeError(std::time::SystemTimeError);

/// Nanoseconds from the Unix epoch to a moment, negative before it.
pub uninterp spec fn instant_nanos(time: SystemTime) -> int;

/// The nanoseconds of a duration.
pub uninterp spec fn duration_nanos(duration: Duration) -> int;

/// How far the moment stands before the epoch, where that made a comparison
/// fail.
pub uninterp spec fn error_nanos(error: SystemTimeError) -> int;

pub const NANOS_PER_SECOND: u32 = 1_000_000_000;

/// Calls `SystemTime::duration_since` with the Unix epoch: the time since then
/// for a moment at or after it, and an error that holds the distance for one
/// before it.
#[verifier::external_body]
fn since_epoch(time: SystemTime) -> (since: Result<Duration, SystemTimeError>)
    ensures
        match since {
            Ok(duration) => instant_nanos(time) >= 0 && duration_nanos(duration) == instant_nanos(
                time,
            ),
            Err(error) => instant_nanos(time) < 0 && error_nanos(error) == -instant_nanos(time),
        },
{
    time.duration_since(UNIX_EPOCH)
}

/// Specifies `SystemTimeError::duration`: the distance that the error holds.
pub assume_specification[ std::time::SystemTimeError::duration ](
    error: &std::time::SystemTimeError,
) -> (duration: std::time::Duration)
    ensures
        duration_nanos(duration) == error_nanos(*error),
;

/// Specifies `Duration::as_secs`: the whole seconds of a duration.
pub assume_specification[ std::time::Duration::as_secs ](duration: &std::time::Duration) -> (secs:
    u64)
    ensures
        secs == duration_nanos(*duration) / (NANOS_PER_SECOND as int),
;

/// Specifies `Duration::subsec_nanos`: what a duration has beyond its whole
/// seconds, in nanoseconds.
pub assume_specification[ std::time::Duration::subsec_nanos ](
    duration: &std::time::Duration,
) -> (nanos: u32)
    ensures
        nanos == duration_nanos(*duration) % (NANOS_PER_SECOND as int),
        nanos < NANOS_PER_SECOND,
;

/// How far a moment is from the Unix epoch.
#[derive(Clone, Copy, PartialEq, Eq, Structural, Debug)]
pub struct Distance {
    pub before: bool,
    pub secs: u64,
    pub nanos: u32,
}

impl Distance {
    /// The distance in nanoseconds, negative before the epoch.
    pub open spec fn nanos_from_epoch(self) -> int {
        let size = self.secs * NANOS_PER_SECOND + self.nanos;
        if self.before {
            -size
        } else {
            size
        }
    }
}

/// How far a moment is from the Unix epoch.
pub fn distance_from_epoch(time: SystemTime) -> (distance: Distance)
    ensures
        distance.nanos_from_epoch() == instant_nanos(time),
        distance.before == (instant_nanos(time) < 0),
        distance.nanos < NANOS_PER_SECOND,
{
    match since_epoch(time) {
        Ok(since) => Distance {
            before: false,
            secs: since.as_secs(),
            nanos: since.subsec_nanos(),
        },
        Err(error) => {
            let until = error.duration();
            Distance { before: true, secs: until.as_secs(), nanos: until.subsec_nanos() }
        },
    }
}

/// A moment as whole seconds after the Unix epoch, rounded down, and the
/// nanoseconds beyond them.
#[derive(Clone, Copy, PartialEq, Eq, Structural, Debug)]
pub struct Moment {
    pub secs: i128,
    pub nanos: u32,
}

/// The moment that a `SystemTime` is.
pub fn moment_of(time: SystemTime) -> (moment: Moment)
    ensures
        moment.secs * NANOS_PER_SECOND + moment.nanos == instant_nanos(time),
        moment.nanos < NANOS_PER_SECOND,
{
    let distance = distance_from_epoch(time);
    if !distance.before {
        Moment { secs: distance.secs as i128, nanos: distance.nanos }
    } else if distance.nanos == 0 {
        Moment { secs: -(distance.secs as i128), nanos: 0 }
    } else {
        Moment { secs: -(distance.secs as i128) - 1, nanos: NANOS_PER_SECOND - distance.nanos }
    }
}

/// The first and the last second that a calendar date can be given for.
pub const EARLIEST_SECOND: i64 = -8_334_601_228_800;

pub const LATEST_SECOND: i64 = 8_210_266_876_799;

/// A moment as it is shown and as it is sorted.
pub struct Stamp {
    /// Date and time of day in the machine's time zone.
    pub text: String,
    /// Seconds after the Unix epoch, rounded down.
    pub epoch: i64,
}

/// Whether some time zone has `text` for the date and time of day of the moment
/// `nanos` nanoseconds after second `secs`, as chrono formats them.
pub uninterp spec fn shown_in_some_zone(secs: int, nanos: int, text: Seq<char>) -> bool;

/// Calls `chrono::DateTime::from_timestamp`, takes the result to the machine's
/// time zone and formats it as `%Y-%m-%d %H:%M:%S`. The text is tied to the
/// moment, yet not determined by it: the time zone of the machine decides, so it
/// is one of the texts that some time zone has for the moment. Seconds outside
/// of the range that chrono's calendar covers are left out, since there is no
/// date for them.
#[verifier::external_body]
fn local_text(secs: i64, nanos: u32) -> (text: String)
    requires
        EARLIEST_SECOND <= secs <= LATEST_SECOND,
        nanos < NANOS_PER_SECOND,
    ensures
        shown_in_some_zone(secs as int, nanos as int, text@),
{
    let utc = chrono::DateTime::from_timestamp(secs, nanos).expect("a second of the calendar");
    utc.with_timezone(&chrono::Local).format("%Y-%m-%d %H:%M:%S").to_string()
}

/// A moment in local time, and its seconds for sorting. Which of the texts that
/// time zones have for the moment it is depends on the machine.
pub fn stamp_at(moment: Moment) -> (stamp: Stamp)
    requires
        EARLIEST_SECOND <= moment.secs <= LATEST_SECOND,
        moment.nanos < NANOS_PER_SECOND,
    ensures
        stamp.epoch == moment.secs,
        shown_in_some_zone(moment.secs as int, moment.nanos as int, stamp.text@),
{
    let secs = moment.secs as i64;
    Stamp { text: local_text(secs, moment.nanos), epoch: secs }
}

/// Whether the calendar has a date for a moment, given in nanoseconds after the
/// Unix epoch.
pub open spec fn has_date(nanos: int) -> bool {
    EARLIEST_SECOND <= nanos / (NANOS_PER_SECOND as int) <= LATEST_SECOND
}

/// Whether a stamp is one of a moment, given in nanoseconds after the Unix epoch.
pub open spec fn stamps(stamp: Stamp, nanos: int) -> bool {
    &&& stamp.epoch == nanos / (NANOS_PER_SECOND as int)
    &&& shown_in_some_zone(
        nanos / (NANOS_PER_SECOND as int),
        nanos % (NANOS_PER_SECOND as int),
        stamp.text@,
    )
}

/// Local-time display text plus epoch seconds for sorting. Nothing for a moment
/// that the calendar has no date for.
pub fn format_timestamp(time: SystemTime) -> (stamp: Option<Stamp>)
    ensures
        match stamp {
            Some(stamp) => has_date(instant_nanos(time)) && stamps(stamp, instant_nanos(time)),
            None => !has_date(instant_nanos(time)),
        },
{
    let moment = moment_of(time);
    proof {
        vstd::arithmetic::div_mod::lemma_fundamental_div_mod_converse(
            instant_nanos(time),
            NANOS_PER_SECOND as int,
            moment.secs as int,
            moment.nanos as int,
        );
    }
    if moment.secs < EARLIEST_SECOND as i128 || moment.secs > LATEST_SECOND as i128 {
        return None;
    }
    Some(stamp_at(moment))
}

} // verus!
