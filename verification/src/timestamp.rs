//! Points in time as plain numbers, and the textual form that the log uses
//! for them, which `chrono` reads.

use chrono::{DateTime, FixedOffset};
use vstd::prelude::*;

verus! {

/// A point in time with the offset from UTC that it was written with.
#[derive(Clone, Copy, Debug, PartialEq, Eq, Structural)]
pub struct Timestamp {
    /// Seconds since the Unix epoch, leap seconds not counted.
    pub seconds: i64,
    /// Nanoseconds since the last full second; a leap second shows as a
    /// billion or more.
    pub nanos: u32,
    /// Seconds that local time is ahead of UTC.
    pub offset: i32,
}

/// What `chrono` reads from `text` under the format `format`: seconds since
/// the Unix epoch, nanoseconds within the second and the offset from UTC in
/// seconds, or `None` where the text does not match the format.
pub uninterp spec fn parsed_time(text: Seq<char>, format: Seq<char>) -> Option<(i64, u32, i32)>;

/// `chrono::DateTime::parse_from_str`, its result taken apart by
/// `timestamp`, `timestamp_subsec_nanos` and the offset's `local_minus_utc`.
/// The contract only names the result: it is a function of the two texts.
#[verifier::external_body]
fn parse_time(text: &str, format: &str) -> (time: Option<(i64, u32, i32)>)
    ensures
        time == parsed_time(text@, format@),
{
    match DateTime::parse_from_str(text, format) {
        Ok(t) => Some((t.timestamp(), t.timestamp_subsec_nanos(), t.offset().local_minus_utc())),
        Err(_) => None,
    }
}

/// How `chrono` writes the point in time that lies `seconds` and `nanos`
/// after the Unix epoch, as seen at `offset` seconds ahead of UTC; `None`
/// where `chrono` has no such point in time or no such offset.
pub uninterp spec fn time_text(seconds: i64, nanos: u32, offset: i32) -> Option<Seq<char>>;

/// `to_string` of a `chrono::DateTime<FixedOffset>` that is made from plain
/// numbers with `DateTime::from_timestamp`, `FixedOffset::east_opt` and
/// `with_timezone`. The contract only names the result: it is a function of
/// the three numbers.
#[verifier::external_body]
fn format_time(seconds: i64, nanos: u32, offset: i32) -> (text: Option<String>)
    ensures
        text.deep_view() == time_text(seconds, nanos, offset),
{
    match (DateTime::from_timestamp(seconds, nanos), FixedOffset::east_opt(offset)) {
        (Some(time), Some(zone)) => Some(time.with_timezone(&zone).to_string()),
        _ => None,
    }
}

/// How `chrono` writes the time of day, as hours, minutes and seconds at
/// UTC, of the point in time that lies `seconds` after the Unix epoch;
/// `None` where `chrono` has no such point in time.
pub uninterp spec fn clock_text(seconds: i64) -> Option<Seq<char>>;

/// `format("%H:%M:%S")` and `to_string` of the `chrono::DateTime<Utc>` that
/// `DateTime::from_timestamp` makes of the seconds. The contract only names
/// the result: it is a function of the number.
#[verifier::external_body]
fn format_clock(seconds: i64) -> (text: Option<String>)
    ensures
        text.deep_view() == clock_text(seconds),
{
    match DateTime::from_timestamp(seconds, 0) {
        Some(time) => Some(time.format("%H:%M:%S").to_string()),
        None => None,
    }
}

/// The format of a timestamp in the log: `10/Oct/2000:13:55:36 -0700`.
pub const CLF_TIME_FORMAT: &'static str = "%d/%b/%Y:%H:%M:%S %z";

/// The Unix epoch at UTC, which stands for a time that is unknown.
pub open spec fn epoch() -> Timestamp {
    Timestamp { seconds: 0, nanos: 0, offset: 0 }
}

/// The timestamp that a `parse_time` result stands for: the epoch where the
/// text was not read.
pub open spec fn time_or_epoch(parsed: Option<(i64, u32, i32)>) -> Timestamp {
    match parsed {
        Some((seconds, nanos, offset)) => Timestamp { seconds, nanos, offset },
        None => epoch(),
    }
}

/// The timestamp that `text` holds in the log's format, or the epoch.
pub open spec fn clf_time(text: Seq<char>) -> Timestamp {
    time_or_epoch(parsed_time(text, CLF_TIME_FORMAT@))
}

/// How a timestamp is written: as `chrono` writes it, or a dash where
/// `chrono` cannot.
pub open spec fn written(text: Option<Seq<char>>) -> Seq<char> {
    match text {
        Some(text) => text,
        None => seq!['-'],
    }
}

/// What stands for a timestamp that cannot be written.
pub fn written_or_dash(text: Option<String>) -> (out: String)
    ensures
        out@ == written(text.deep_view()),
{
    match text {
        Some(text) => text,
        None => {
            proof {
                reveal_strlit("-");
            }
            let dash = "-".to_owned();
            assert(dash@ =~= seq!['-']);
            dash
        },
    }
}

/// The time of day at UTC of the point in time `seconds` after the Unix
/// epoch, as `16:00:39`; a dash where `chrono` has no such point in time.
pub open spec fn clock_of(seconds: i64) -> Seq<char> {
    written(clock_text(seconds))
}

/// Writes the time of day at UTC of the point in time `seconds` after the
/// Unix epoch.
pub fn clock(seconds: i64) -> (out: String)
    ensures
        out@ == clock_of(seconds),
{
    written_or_dash(format_clock(seconds))
}

impl Timestamp {
    /// How the timestamp is written.
    pub open spec fn text(self) -> Seq<char> {
        written(time_text(self.seconds, self.nanos, self.offset))
    }

    /// Writes the timestamp, as `2018-05-09 16:00:39 +00:00`.
    pub fn to_text(&self) -> (out: String)
        ensures
            out@ == self.text(),
    {
        written_or_dash(format_time(self.seconds, self.nanos, self.offset))
    }

    /// The Unix epoch at UTC.
    pub fn epoch() -> (time: Timestamp)
        ensures
            time == epoch(),
    {
        Timestamp { seconds: 0, nanos: 0, offset: 0 }
    }

    /// The timestamp that a reading of a text stands for: the epoch where
    /// nothing was read.
    pub fn from_parsed(parsed: Option<(i64, u32, i32)>) -> (time: Timestamp)
        ensures
            time == time_or_epoch(parsed),
    {
        match parsed {
            Some((seconds, nanos, offset)) => Timestamp { seconds, nanos, offset },
            None => Timestamp::epoch(),
        }
    }

    /// Reads a timestamp in the log's format; a text that does not match
    /// gives the epoch.
    pub fn parse(text: &str) -> (time: Timestamp)
        ensures
            time == clf_time(text@),
    {
        Timestamp::from_parsed(parse_time(text, CLF_TIME_FORMAT))
    }
}

} // verus!
