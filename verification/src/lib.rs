//! Live statistics over an access log in Common Log Format: a tolerant line
//! parser, the window test of the start-up backfill, per-interval counters and
//! the traffic alert that is derived from a sliding window of interval totals.

pub mod address;
pub mod alert;
pub mod laws;
pub mod order;
pub mod parsers;
pub mod record;
pub mod ring;
pub mod stats;
pub mod tailer;
pub mod tally;
pub mod text;
pub mod timestamp;
pub mod view;

pub use parsers::parse_log_entry;
pub use record::{LogEntry, Request};
pub use stats::{collect_stats, RenderMessage, UIUpdate};
pub use tailer::read_logs;
