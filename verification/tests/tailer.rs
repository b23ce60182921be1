use chrono::DateTime;
use clf_parser::tailer::{acceptible_timestamps, read_logs};

const LINE: &str = "127.0.0.1 - james [09/May/2018:16:00:39 +0000] \"GET /report HTTP/1.0\" 200 123";

fn line_time() -> i64 {
    DateTime::parse_from_str("09/May/2018:16:00:39 +0000", "%d/%b/%Y:%H:%M:%S %z")
        .unwrap()
        .timestamp()
}

#[test]
fn window_has_both_ends() {
    assert_eq!(acceptible_timestamps(1000, 10), (990, 1000));
    assert_eq!(acceptible_timestamps(0, 0), (0, 0));
    assert_eq!(acceptible_timestamps(5, 10), (-5, 5));
    assert_eq!(acceptible_timestamps(i64::MAX, 1), (i64::MAX - 1, i64::MAX));
    assert_eq!(acceptible_timestamps(i64::MIN, 1), (i64::MIN, i64::MIN));
    assert_eq!(acceptible_timestamps(0, u64::MAX), (i64::MIN, 0));
    assert_eq!(acceptible_timestamps(i64::MAX, u64::MAX), (i64::MIN, i64::MAX));
}

#[test]
fn backfill_passes_on_what_is_in_the_window() {
    let t = line_time();
    assert_eq!(t, 1525881639);
    assert!(read_logs(false, LINE, t, 10).is_some());
    assert!(read_logs(false, LINE, t + 10, 10).is_some());
    assert!(read_logs(false, LINE, t + 11, 10).is_none());
    assert!(read_logs(false, LINE, t - 1, 10).is_none());
    assert!(read_logs(false, LINE, t, 0).is_some());
    assert!(read_logs(false, LINE, t + 1, 0).is_none());
    let entry = read_logs(false, LINE, t + 3, 10).unwrap();
    assert_eq!(entry.timestamp.seconds, t);
    assert_eq!(entry.user_id, "james");
}

#[test]
fn follow_passes_on_every_entry() {
    let t = line_time();
    assert!(read_logs(true, LINE, t + 1_000_000, 10).is_some());
    assert!(read_logs(true, LINE, t - 1_000_000, 10).is_some());
    assert!(read_logs(true, "- - - - - - -", t, 10).is_some());
    assert!(read_logs(false, "- - - - - - -", t, 10).is_none());
    assert!(read_logs(false, "- - - - - - -", 5, 10).is_some());
}

#[test]
fn lines_without_an_entry_are_skipped() {
    let t = line_time();
    assert!(read_logs(true, "", t, 10).is_none());
    assert!(read_logs(false, "", t, 10).is_none());
    assert!(read_logs(true, "not a log line", t, 10).is_none());
    assert!(read_logs(true, "- - - [", t, 10).is_none());
}
