use chrono::DateTime;
use clf_parser::address::IpAddress;
use clf_parser::alert::AlertState;
use clf_parser::stats::{
    collect_stats, ConfigError, RenderMessage, SampleBuffer, StatsCollector, UIUpdate,
};
use clf_parser::{parse_log_entry, LogEntry};

fn entry(address: &str, path: &str, code: u16) -> LogEntry {
    parse_log_entry(&format!(
        "{} - james [09/May/2018:16:00:39 +0000] \"GET {} HTTP/1.0\" {} 123",
        address, path, code
    ))
    .unwrap()
}

fn snapshot(message: Option<RenderMessage>) -> UIUpdate {
    match message {
        Some(RenderMessage::UI(update)) => update,
        Some(RenderMessage::Exit) => panic!("exit"),
        None => panic!("no snapshot"),
    }
}

fn feed(state: &mut StatsCollector, count: u64, now: i64) {
    for i in 0..count {
        let message = collect_stats(
            state,
            Some(entry("10.0.0.1", &format!("/users/{}", i), 200)),
            now,
        );
        assert!(message.is_none());
    }
}

#[test]
fn sixty_then_none_stays_resolved() {
    let mut state = StatsCollector::new(10, 20, 5, vec![200], 1000).unwrap();
    feed(&mut state, 60, 1003);
    assert_eq!(state.entries_counted(), 60);
    let first = snapshot(collect_stats(&mut state, None, 1010));
    assert_eq!(first.avg_rate, 6);
    assert!(!first.treshold_reached);
    assert_eq!(first.alert_since, None);
    assert_eq!(first.avg_within_alert_interval, 0);
    assert_eq!(first.stats_endpoints.get(&String::from("users")), 60);
    assert_eq!(state.entries_counted(), 0);
    let second = snapshot(collect_stats(&mut state, None, 1020));
    assert_eq!(second.avg_rate, 0);
    assert_eq!(second.avg_within_alert_interval, 3);
    assert!(!second.treshold_reached);
    assert_eq!(second.alert_since, None);
    assert_eq!(second.stats_endpoints.len(), 0);
    assert_eq!(
        state.alert_state(),
        AlertState { firing: false, since: None, last_average: 3 }
    );
}

#[test]
fn hundred_twice_fires_at_the_second_boundary() {
    let mut state = StatsCollector::new(10, 20, 5, vec![200], 1000).unwrap();
    feed(&mut state, 100, 1001);
    let first = snapshot(collect_stats(&mut state, None, 1010));
    assert_eq!(first.avg_rate, 10);
    assert!(!first.treshold_reached);
    feed(&mut state, 100, 1011);
    let second = snapshot(collect_stats(&mut state, None, 1021));
    assert_eq!(second.avg_rate, 10);
    assert_eq!(second.avg_within_alert_interval, 10);
    assert!(second.treshold_reached);
    assert_eq!(second.alert_since, Some(1021));
}

#[test]
fn alert_fires_once_and_resolves_once() {
    let mut state = StatsCollector::new(1, 2, 5, vec![], 0).unwrap();
    feed(&mut state, 10, 0);
    assert!(!snapshot(collect_stats(&mut state, None, 1)).treshold_reached);
    feed(&mut state, 10, 1);
    let fired = snapshot(collect_stats(&mut state, None, 2));
    assert!(fired.treshold_reached);
    assert_eq!(fired.alert_since, Some(2));
    feed(&mut state, 10, 2);
    let sustained = snapshot(collect_stats(&mut state, None, 3));
    assert!(sustained.treshold_reached);
    assert_eq!(sustained.alert_since, Some(2));
    assert_eq!(sustained.avg_within_alert_interval, 10);
    let falling = snapshot(collect_stats(&mut state, None, 4));
    assert!(falling.treshold_reached);
    assert_eq!(falling.alert_since, Some(2));
    assert_eq!(falling.avg_within_alert_interval, 5);
    let resolved = snapshot(collect_stats(&mut state, None, 5));
    assert!(!resolved.treshold_reached);
    assert_eq!(resolved.alert_since, Some(5));
    assert_eq!(resolved.avg_within_alert_interval, 0);
    let quiet = snapshot(collect_stats(&mut state, None, 6));
    assert!(!quiet.treshold_reached);
    assert_eq!(quiet.alert_since, Some(5));
}

#[test]
fn endpoints_are_grouped_by_first_segment() {
    let mut state = StatsCollector::new(10, 20, 5, vec![200, 404], 0).unwrap();
    state.record(&entry("10.0.0.1", "/users/1", 200));
    state.record(&entry("10.0.0.2", "/users/2", 404));
    state.record(&entry("10.0.0.1", "/report", 500));
    let update = state.flush(10);
    assert_eq!(update.stats_endpoints.len(), 2);
    assert_eq!(update.stats_endpoints.get(&String::from("users")), 2);
    assert_eq!(update.stats_endpoints.get(&String::from("report")), 1);
    assert_eq!(update.stats_endpoints.get(&String::from("other")), 0);
    assert_eq!(update.stats_endpoints.total(), 3);
    assert_eq!(
        update.stats_endpoints.entries(),
        &vec![(String::from("users"), 2), (String::from("report"), 1)]
    );
    assert_eq!(update.stats_addresses.len(), 2);
    assert_eq!(update.stats_addresses.get(&IpAddress::v4(10, 0, 0, 1)), 2);
    assert_eq!(update.stats_addresses.get(&IpAddress::v4(10, 0, 0, 2)), 1);
    assert_eq!(update.stats_http_codes.len(), 2);
    assert_eq!(update.stats_http_codes.get(&(200, String::from("users"))), 1);
    assert_eq!(update.stats_http_codes.get(&(404, String::from("users"))), 1);
    assert_eq!(update.stats_http_codes.get(&(500, String::from("report"))), 0);
    assert_eq!(update.stats_http_codes.total(), 2);
}

#[test]
fn endpoint_keys_of_odd_paths() {
    let key = |path: &str| entry("-", path, 200).request.endpoint();
    assert_eq!(key("/users/42"), "users");
    assert_eq!(key("/users"), "users");
    assert_eq!(key("/users/"), "users");
    assert_eq!(key("/"), "");
    assert_eq!(key("//x"), "");
    assert_eq!(key("users/42"), "42");
    assert_eq!(key("users/42/x"), "42");
    assert_eq!(key("*"), "*");
    assert_eq!(parse_log_entry("- - - - - - -").unwrap().request.endpoint(), "-");
}

#[test]
fn dash_request_is_counted_without_panic() {
    let mut state = StatsCollector::new(10, 10, 1, vec![0], 0).unwrap();
    let message = collect_stats(&mut state, Some(parse_log_entry("- - - - - - -").unwrap()), 1);
    assert!(message.is_none());
    let update = state.flush(10);
    assert_eq!(update.stats_endpoints.get(&String::from("-")), 1);
    assert_eq!(update.stats_http_codes.get(&(0, String::from("-"))), 1);
    assert_eq!(update.stats_addresses.get(&IpAddress::unspecified()), 1);
}

#[test]
fn boundary_comes_on_time_without_entries() {
    let mut state = StatsCollector::new(10, 30, 5, vec![], 100).unwrap();
    assert_eq!(state.remaining(100), 10);
    assert_eq!(state.remaining(104), 6);
    assert_eq!(state.remaining(109), 1);
    assert_eq!(state.remaining(110), 0);
    assert_eq!(state.remaining(500), 0);
    assert_eq!(state.remaining(90), 10);
    assert!(collect_stats(&mut state, None, 109).is_none());
    assert!(state.tick(109).is_none());
    assert!(collect_stats(&mut state, None, 99).is_none());
    let update = snapshot(collect_stats(&mut state, None, 110));
    assert_eq!(update.avg_rate, 0);
    assert_eq!(update.stats_endpoints.len(), 0);
    assert!(update.log_samples.is_empty());
    assert_eq!(state.remaining(110), 10);
    assert!(collect_stats(&mut state, None, 119).is_none());
    assert!(collect_stats(&mut state, None, 125).is_some());
    assert_eq!(state.remaining(126), 9);
}

#[test]
fn entry_that_arrives_at_the_boundary_is_in_the_snapshot() {
    let mut state = StatsCollector::new(10, 10, 1, vec![], 0).unwrap();
    let update = snapshot(collect_stats(&mut state, Some(entry("::1", "/a", 200)), 10));
    assert_eq!(update.stats_endpoints.get(&String::from("a")), 1);
    assert_eq!(update.stats_addresses.get(&IpAddress::V6(1)), 1);
    assert_eq!(update.avg_rate, 0);
    assert_eq!(update.log_samples.len(), 1);
    assert_eq!(state.entries_counted(), 0);
}

#[test]
fn rate_is_rounded_down() {
    let mut state = StatsCollector::new(4, 4, 1, vec![], 0).unwrap();
    feed(&mut state, 7, 0);
    let update = snapshot(collect_stats(&mut state, None, 4));
    assert_eq!(update.avg_rate, 1);
    assert_eq!(update.avg_within_alert_interval, 1);
    assert!(update.treshold_reached);
    assert_eq!(update.alert_since, Some(4));
}

#[test]
fn samples_hold_the_latest_ten_renderings_and_start_over() {
    let mut state = StatsCollector::new(10, 20, 5, vec![], 0).unwrap();
    let mut texts = Vec::new();
    for i in 0..13 {
        let e = entry("10.0.0.1", &format!("/p{}", i), 200);
        texts.push(e.render());
        state.record(&e);
    }
    let update = state.flush(10);
    assert_eq!(update.log_samples, texts[3..].to_vec());
    let next = state.flush(20);
    assert!(next.log_samples.is_empty());
}

#[test]
fn sample_buffer_is_first_in_first_out() {
    let mut samples = SampleBuffer::new();
    assert!(samples.drain().is_empty());
    samples.push(String::from("a"));
    samples.push(String::from("b"));
    assert_eq!(samples.drain(), vec![String::from("a"), String::from("b")]);
    assert!(samples.drain().is_empty());
    for i in 0..25 {
        samples.push(i.to_string());
    }
    let expected: Vec<String> = (15..25).map(|i| i.to_string()).collect();
    assert_eq!(samples.drain(), expected);
    samples.push(String::from("z"));
    assert_eq!(samples.drain(), vec![String::from("z")]);
}

#[test]
fn rendering_of_an_entry() {
    let e = parse_log_entry(
        "127.0.0.1 - james [09/May/2018:16:00:39 +0200] \"GET /report HTTP/1.0\" 200 123",
    )
    .unwrap();
    assert_eq!(
        e.render(),
        "\n
                ip_address: 127.0.0.1\n
                user_agent: - \n
                user_id: james\n
                timestamp: 2018-05-09 16:00:39 +02:00 \n
                request: GET /report\n
                response_code: 200\n
                size: 123\n"
    );
    assert_eq!(
        e.render(),
        format!(
            "\n
                ip_address: {}\n
                user_agent: {} \n
                user_id: {}\n
                timestamp: {} \n
                request: {}\n
                response_code: {}\n
                size: {}\n",
            "127.0.0.1",
            e.identifier,
            e.user_id,
            DateTime::parse_from_str("09/May/2018:16:00:39 +0200", "%d/%b/%Y:%H:%M:%S %z").unwrap(),
            "GET /report",
            e.response_code,
            e.response_size
        )
    );
    assert_eq!(e.request.to_text(), "GET /report");
    assert_eq!(e.timestamp.to_text(), "2018-05-09 16:00:39 +02:00");
    let dashes = parse_log_entry("- - - - - - -").unwrap();
    assert_eq!(
        dashes.render(),
        "\n\n                ip_address: 0.0.0.0\n\n                user_agent: - \n\n                user_id: -\n\n                timestamp: 1970-01-01 00:00:00 +00:00 \n\n                request: - -\n\n                response_code: 0\n\n                size: 0\n"
    );
    let six = parse_log_entry("::1 id u - - 1 2").unwrap();
    assert!(six.render().starts_with("\n\n                ip_address: ::1\n\n                user_agent: id \n"));
}

#[test]
fn configuration_faults() {
    assert_eq!(
        StatsCollector::new(0, 20, 5, vec![], 0).err(),
        Some(ConfigError::ZeroRefreshInterval)
    );
    assert_eq!(
        StatsCollector::new(0, 0, 0, vec![], 0).err(),
        Some(ConfigError::ZeroRefreshInterval)
    );
    assert_eq!(
        StatsCollector::new(10, 0, 5, vec![], 0).err(),
        Some(ConfigError::ZeroAlertInterval)
    );
    assert_eq!(
        StatsCollector::new(10, 20, 0, vec![], 0).err(),
        Some(ConfigError::ZeroAlertThreshold)
    );
    assert_eq!(
        StatsCollector::new(1, u64::MAX, 1, vec![], 0).err(),
        Some(ConfigError::AlertIntervalTooLong)
    );
    assert!(StatsCollector::new(10, 20, 5, vec![], 0).is_ok());
    assert!(StatsCollector::new(u64::MAX, 1, u64::MAX, vec![], i64::MIN).is_ok());
}

#[test]
fn window_capacity_rounds_up() {
    let mut state = StatsCollector::new(10, 25, 1, vec![], 0).unwrap();
    feed(&mut state, 90, 0);
    assert_eq!(snapshot(collect_stats(&mut state, None, 10)).avg_within_alert_interval, 0);
    assert_eq!(snapshot(collect_stats(&mut state, None, 20)).avg_within_alert_interval, 0);
    let third = snapshot(collect_stats(&mut state, None, 30));
    assert_eq!(third.avg_within_alert_interval, 3);
    assert!(third.treshold_reached);
    let fourth = snapshot(collect_stats(&mut state, None, 40));
    assert_eq!(fourth.avg_within_alert_interval, 0);
    assert!(!fourth.treshold_reached);
    assert_eq!(fourth.alert_since, Some(40));
}

#[test]
fn watched_codes() {
    let state = StatsCollector::new(10, 20, 5, vec![200, 404, 500], 0).unwrap();
    assert!(state.watches(200));
    assert!(state.watches(500));
    assert!(!state.watches(201));
    assert!(!StatsCollector::new(10, 20, 5, vec![], 0).unwrap().watches(200));
}

#[test]
fn default_snapshot_waits_for_data() {
    let update = UIUpdate::default();
    assert_eq!(update.stats_endpoints.len(), 0);
    assert_eq!(update.stats_addresses.len(), 0);
    assert_eq!(update.stats_http_codes.len(), 0);
    assert_eq!(update.avg_rate, 0);
    assert!(!update.treshold_reached);
    assert_eq!(update.alert_since, None);
    assert_eq!(update.avg_within_alert_interval, 0);
    assert_eq!(
        update.log_samples,
        vec![
            String::from("Waiting for data from file-reading thread"),
            String::from("Waiting for data from file-reading thread"),
            String::from("Waiting for data from file-reading thread"),
        ]
    );
}

#[test]
fn figures_do_not_depend_on_the_order_of_entries() {
    let entries = vec![
        entry("10.0.0.1", "/users/1", 200),
        entry("10.0.0.2", "/report", 404),
        entry("::1", "/users/2", 500),
        entry("10.0.0.1", "/report", 200),
        entry("10.0.0.3", "/", 404),
    ];
    let mut first = StatsCollector::new(1, 1, 3, vec![200, 404], 0).unwrap();
    let mut second = StatsCollector::new(1, 1, 3, vec![200, 404], 0).unwrap();
    for e in entries.iter() {
        first.record(e);
    }
    for e in entries.iter().rev() {
        second.record(e);
    }
    let a = first.flush(1);
    let b = second.flush(1);
    assert_eq!(a.avg_rate, 5);
    assert_eq!(a.avg_rate, b.avg_rate);
    assert_eq!(a.treshold_reached, b.treshold_reached);
    assert_eq!(a.alert_since, b.alert_since);
    assert_eq!(a.avg_within_alert_interval, b.avg_within_alert_interval);
    assert_eq!(a.stats_endpoints.len(), b.stats_endpoints.len());
    for (key, hits) in a.stats_endpoints.entries() {
        assert_eq!(b.stats_endpoints.get(key), *hits);
    }
    for (key, hits) in a.stats_addresses.entries() {
        assert_eq!(b.stats_addresses.get(key), *hits);
    }
    assert_eq!(a.stats_http_codes.len(), b.stats_http_codes.len());
    for (key, hits) in a.stats_http_codes.entries() {
        assert_eq!(b.stats_http_codes.get(key), *hits);
    }
    assert_ne!(
        a.stats_endpoints.entries()[0].0,
        b.stats_endpoints.entries()[0].0
    );
}
