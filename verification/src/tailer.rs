//! What the tailer decides for each line that it reads: whether the line
//! holds an entry, and whether that entry is passed on.

use crate::parsers::{line_entry, parse_log_entry, ParseFailure};
use crate::record::{LogEntry, LogEntryView};
use vstd::prelude::*;

verus! {

/// Whether a time lies in the window that ends at `now` and is one refresh
/// interval long, both ends included. Times are in seconds since the Unix
/// epoch.
pub open spec fn in_window(seconds: i64, now: i64, refresh_interval: u64) -> bool {
    now - refresh_interval <= seconds <= now
}

/// The oldest and the newest time of the window that ends at `now` and is
/// one refresh interval long, both of them in the window.
pub fn acceptible_timestamps(now: i64, refresh_interval: u64) -> (window: (i64, i64))
    ensures
        window.1 == now,
        forall|seconds: i64|
            window.0 <= seconds <= window.1 <==> #[trigger] in_window(
                seconds,
                now,
                refresh_interval,
            ),
{
    let oldest: i128 = now as i128 - refresh_interval as i128;
    if oldest < i64::MIN as i128 {
        (i64::MIN, now)
    } else {
        (oldest as i64, now)
    }
}

/// Whether an entry that was read from the line `line` is passed on: every
/// entry while the file is followed, and before that, when the file is read
/// from its start, only an entry whose time is in the window at `now`.
pub open spec fn passed_on(entry: LogEntryView, follow: bool, now: i64, refresh_interval: u64) -> bool {
    follow || in_window(entry.timestamp.seconds, now, refresh_interval)
}

/// Handles one line of the file at time `now`. `follow` says that the line
/// was appended while the file was followed; otherwise it was there when the
/// file was first read. Returns the entry to pass on, or `None` for a line
/// that holds no entry or an entry that is too old or too new to count.
pub fn read_logs(follow: bool, line: &str, now: i64, refresh_interval: u64) -> (sent: Option<
    LogEntry,
>)
    ensures
        match sent {
            Some(entry) => line_entry(line@) == Ok::<LogEntryView, ParseFailure>(entry@)
                && passed_on(entry@, follow, now, refresh_interval),
            None => match line_entry(line@) {
                Ok(entry) => !passed_on(entry, follow, now, refresh_interval),
                Err(_) => true,
            },
        },
        !follow && sent is Some ==> sent->0.timestamp.seconds >= now - refresh_interval,
{
    match parse_log_entry(line) {
        Ok(entry) => {
            if follow {
                Some(entry)
            } else {
                let window = acceptible_timestamps(now, refresh_interval);
                assert(in_window(entry.timestamp.seconds, now, refresh_interval) <==> window.0
                    <= entry.timestamp.seconds <= window.1);
                if window.0 <= entry.timestamp.seconds && entry.timestamp.seconds <= window.1 {
                    Some(entry)
                } else {
                    None
                }
            }
        },
        Err(_) => None,
    }
}

} // verus!
