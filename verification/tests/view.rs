use clf_parser::alert::AlertState;
use chrono::DateTime;
use clf_parser::timestamp::{clock, written_or_dash, Timestamp};
use clf_parser::view::{codes_seen, column_share, ranking, rows_of_code, Tone};

fn rows(hits: &[u64]) -> Vec<(String, u64)> {
    hits.iter()
        .enumerate()
        .map(|(i, h)| (format!("k{}", i), *h))
        .collect()
}

fn by_code(codes: &[(u16, &str, u64)]) -> Vec<((u16, String), u64)> {
    codes
        .iter()
        .map(|(code, endpoint, hits)| ((*code, String::from(*endpoint)), *hits))
        .collect()
}

#[test]
fn ranking_lists_most_hits_first() {
    assert_eq!(ranking(&rows(&[])), Vec::<usize>::new());
    assert_eq!(ranking(&rows(&[5])), vec![0]);
    assert_eq!(ranking(&rows(&[1, 2, 3])), vec![2, 1, 0]);
    assert_eq!(ranking(&rows(&[3, 2, 1])), vec![0, 1, 2]);
    assert_eq!(ranking(&rows(&[2, 9, 2, 7, 9, 1])), vec![1, 4, 3, 0, 2, 5]);
}

#[test]
fn ranking_keeps_equal_hits_in_place() {
    assert_eq!(ranking(&rows(&[4, 4, 4, 4])), vec![0, 1, 2, 3]);
    assert_eq!(ranking(&rows(&[1, 4, 1, 4])), vec![1, 3, 0, 2]);
    assert_eq!(ranking(&rows(&[u64::MAX, 0, u64::MAX])), vec![0, 2, 1]);
}

#[test]
fn codes_are_listed_once_in_rising_order() {
    let entries = by_code(&[
        (500, "a", 1),
        (200, "a", 7),
        (404, "b", 2),
        (200, "b", 9),
        (500, "c", 3),
    ]);
    assert_eq!(codes_seen(&entries), vec![200, 404, 500]);
    assert_eq!(codes_seen(&by_code(&[])), Vec::<u16>::new());
    assert_eq!(codes_seen(&by_code(&[(0, "-", 1), (65535, "x", 1)])), vec![0, 65535]);
}

#[test]
fn rows_of_a_code_follow_the_ranking() {
    let entries = by_code(&[
        (500, "a", 1),
        (200, "a", 7),
        (404, "b", 2),
        (200, "b", 9),
        (500, "c", 3),
        (200, "c", 7),
    ]);
    let order = ranking(&entries);
    assert_eq!(order, vec![3, 1, 5, 4, 2, 0]);
    assert_eq!(rows_of_code(&entries, &order, 200), vec![3, 1, 5]);
    assert_eq!(rows_of_code(&entries, &order, 500), vec![4, 0]);
    assert_eq!(rows_of_code(&entries, &order, 404), vec![2]);
    assert_eq!(rows_of_code(&entries, &order, 201), Vec::<usize>::new());
    assert_eq!(rows_of_code(&entries, &vec![0, 9, 4], 500), vec![0, 4]);
}

#[test]
fn share_of_the_width() {
    assert_eq!(column_share(0), 100);
    assert_eq!(column_share(1), 100);
    assert_eq!(column_share(2), 50);
    assert_eq!(column_share(3), 33);
    assert_eq!(column_share(7), 14);
    assert_eq!(column_share(100), 1);
    assert_eq!(column_share(101), 0);
    assert_eq!(column_share(usize::MAX), 0);
}

#[test]
fn alert_as_told() {
    let firing = AlertState { firing: true, since: Some(1525881639), last_average: 12 };
    assert_eq!(firing.tone(), Tone::Red);
    assert_eq!(firing.change_time(), "16:00:39");
    assert_eq!(
        firing.to_lines(),
        vec![
            String::from("State: Firing"),
            String::from("Firing since: 16:00:39"),
            String::from("Avg rate: 12"),
        ]
    );
    assert_eq!(firing.shown_lines(), firing.to_lines());
    let resolved = AlertState { firing: false, since: Some(86_400 + 61), last_average: 3 };
    assert_eq!(resolved.tone(), Tone::Green);
    assert_eq!(
        resolved.to_lines(),
        vec![
            String::from("State: Resolved"),
            String::from("\nResolved at: 00:01:01"),
        ]
    );
    assert_eq!(resolved.shown_lines(), resolved.to_lines());
    assert_eq!(
        firing.to_lines()[1],
        format!(
            "Firing since: {}",
            DateTime::from_timestamp(1525881639, 0).unwrap().format("%H:%M:%S")
        )
    );
}

#[test]
fn alert_that_never_changed() {
    let fresh = AlertState::new();
    assert_eq!(fresh.tone(), Tone::White);
    assert_eq!(fresh.change_time(), "");
    assert_eq!(
        fresh.to_lines(),
        vec![String::from("State: Resolved"), String::from("\nResolved at: ")]
    );
    assert_eq!(
        fresh.shown_lines(),
        vec![String::from("Alert didn't happen to fire since start")]
    );
}

#[test]
fn time_of_day() {
    assert_eq!(clock(0), "00:00:00");
    assert_eq!(clock(-1), "23:59:59");
    assert_eq!(clock(1525881639), "16:00:39");
    assert_eq!(clock(i64::MAX), "-");
    assert_eq!(clock(i64::MIN), "-");
}

#[test]
fn timestamps_as_written() {
    assert_eq!(Timestamp::epoch().to_text(), "1970-01-01 00:00:00 +00:00");
    assert_eq!(
        Timestamp { seconds: 971211336, nanos: 0, offset: -25200 }.to_text(),
        "2000-10-10 13:55:36 -07:00"
    );
    assert_eq!(
        Timestamp { seconds: -1, nanos: 500_000_000, offset: 3600 }.to_text(),
        "1970-01-01 00:59:59.500 +01:00"
    );
    assert_eq!(Timestamp { seconds: 0, nanos: 0, offset: 86_400 }.to_text(), "-");
    assert_eq!(Timestamp { seconds: i64::MAX, nanos: 0, offset: 0 }.to_text(), "-");
    assert_eq!(Timestamp { seconds: 0, nanos: 2_000_000_000, offset: 0 }.to_text(), "-");
    assert_eq!(written_or_dash(None), "-");
    assert_eq!(written_or_dash(Some(String::from("x"))), "x");
}

#[test]
fn timestamp_from_what_was_read() {
    assert_eq!(Timestamp::from_parsed(None), Timestamp::epoch());
    assert_eq!(
        Timestamp::from_parsed(Some((7, 8, 9))),
        Timestamp { seconds: 7, nanos: 8, offset: 9 }
    );
    assert_eq!(Timestamp::parse("31/Dec/1999:23:59:59 +0100").seconds, 946681199);
    assert_eq!(Timestamp::parse("31/Dec/1999:23:59:59 +0100").offset, 3600);
    assert_eq!(Timestamp::parse("31/Dec/1999:23:59:60 +0000").nanos, 1_000_000_000);
    assert_eq!(Timestamp::parse("31/Dec/1999:23:59:60 +0000").seconds, 946684799);
    assert_eq!(Timestamp::parse("32/Dec/1999:23:59:59 +0100"), Timestamp::epoch());
    assert_eq!(Timestamp::parse("31/Dec/1999:23:59:59"), Timestamp::epoch());
    assert_eq!(Timestamp::parse("1999-12-31T23:59:59+01:00"), Timestamp::epoch());
    assert_eq!(Timestamp::parse(""), Timestamp::epoch());
}
