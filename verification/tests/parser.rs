use chrono::DateTime;
use clf_parser::address::IpAddress;
use clf_parser::parsers::{
    is_not_whitespace, is_whitespace, parse_identifier, parse_ip_address, parse_log_entry,
    parse_request, parse_response_code, parse_response_size, parse_timestamp, Expected,
    ParseFailure,
};
use clf_parser::record::{LogEntry, Request};
use clf_parser::timestamp::Timestamp;

fn clf_time(text: &str) -> Timestamp {
    let time = DateTime::parse_from_str(text, "%d/%b/%Y:%H:%M:%S %z").unwrap();
    Timestamp {
        seconds: time.timestamp(),
        nanos: time.timestamp_subsec_nanos(),
        offset: time.offset().local_minus_utc(),
    }
}

fn rfc3339_time(text: &str) -> Timestamp {
    let time = DateTime::parse_from_rfc3339(text).unwrap();
    Timestamp {
        seconds: time.timestamp(),
        nanos: time.timestamp_subsec_nanos(),
        offset: time.offset().local_minus_utc(),
    }
}

fn request(method: &str, path: &str, protocol: &str) -> Request {
    Request {
        method: String::from(method),
        path: String::from(path),
        protocol: String::from(protocol),
    }
}

fn refused(line: &str, expected: Expected, at: usize) {
    let failure = ParseFailure { expected, at };
    assert_eq!(parse_log_entry(line), Err(failure.message(line)));
}

#[test]
fn test_ip_address_parsing() {
    assert_eq!(
        parse_ip_address("127.0.0.1"),
        Ok(("", IpAddress::v4(127, 0, 0, 1)))
    );
    assert_eq!(
        parse_ip_address("::1 -"),
        Ok((" -", IpAddress::v6([0, 0, 0, 0, 0, 0, 0, 1])))
    );
    assert_eq!(
        parse_ip_address("192.168.0.1 - mary [09/May/2018:16:00:42 +0000] \"POST /api/user HTTP/1.0\" 503 12"),
        Ok((" - mary [09/May/2018:16:00:42 +0000] \"POST /api/user HTTP/1.0\" 503 12", IpAddress::v4(192, 168, 0, 1)))
    );
    assert_eq!(
        parse_ip_address("-"),
        Ok(("", IpAddress::v4(0, 0, 0, 0)))
    );
}

#[test]
fn identifier_parser_test() {
    assert_eq!(
        parse_identifier(
            "- mary [09/May/2018:16:00:42 +0000] \"POST /api/user HTTP/1.0\" 503 12"
        ),
        Ok((
            " mary [09/May/2018:16:00:42 +0000] \"POST /api/user HTTP/1.0\" 503 12",
            String::from("-")
        ))
    );
}

#[test]
fn is_not_whitespace_test() {
    assert_eq!(
        is_not_whitespace(
            "mary [09/May/2018:16:00:42 +0000] \"POST /api/user HTTP/1.0\" 503 12"
        ),
        Ok((
            " [09/May/2018:16:00:42 +0000] \"POST /api/user HTTP/1.0\" 503 12",
            "mary"
        ))
    );
    assert_eq!(
        is_not_whitespace(
            "- [09/May/2018:16:00:42 +0000] \"POST /api/user HTTP/1.0\" 503 12"
        ),
        Ok((
            " [09/May/2018:16:00:42 +0000] \"POST /api/user HTTP/1.0\" 503 12",
            "-"
        ))
    );
}

#[test]
fn parse_timestamp_test() {
    assert_eq!(
        parse_timestamp("[09/May/2018:16:00:42 +0000] \"POST /api/user HTTP/1.0\" 503 12"),
        Ok((
            " \"POST /api/user HTTP/1.0\" 503 12",
            clf_time("09/May/2018:16:00:42 +0000")
        ))
    );
    assert_eq!(
        parse_timestamp("- \"POST /api/user HTTP/1.0\" 503 12"),
        Ok((
            " \"POST /api/user HTTP/1.0\" 503 12",
            rfc3339_time("1970-01-01T00:00:00-00:00")
        ))
    );
}

#[test]
fn parse_request_test() {
    assert_eq!(
        parse_request("\"POST /api/user HTTP/1.0\" 503 12"),
        Ok((" 503 12", request("POST", "/api/user", "HTTP/1.0")))
    );
    assert_eq!(
        parse_request("- 503 12"),
        Ok((" 503 12", request("-", "-", "-")))
    );
}

#[test]
fn parse_log_entry_test() {
    assert_eq!(
        parse_log_entry("127.0.0.1 - james [09/May/2018:16:00:39 +0000] \"GET /report HTTP/1.0\" 200 123"),
        Ok(LogEntry {
            ip_address: IpAddress::v4(127, 0, 0, 1),
            identifier: String::from("-"),
            user_id: String::from("james"),
            timestamp: clf_time("09/May/2018:16:00:39 +0000"),
            request: request("GET", "/report", "HTTP/1.0"),
            response_code: 200,
            response_size: 123
        })
    );
    assert_eq!(
        parse_log_entry(
            "- - james [09/May/2018:16:00:39 +0000] \"GET /report HTTP/1.0\" 200 123"
        ),
        Ok(LogEntry {
            ip_address: IpAddress::v4(0, 0, 0, 0),
            identifier: String::from("-"),
            user_id: String::from("james"),
            timestamp: clf_time("09/May/2018:16:00:39 +0000"),
            request: request("GET", "/report", "HTTP/1.0"),
            response_code: 200,
            response_size: 123
        })
    );
    assert_eq!(
        parse_log_entry(
            "- - - [09/May/2018:16:00:39 +0000] \"GET /report HTTP/1.0\" 200 123"
        ),
        Ok(LogEntry {
            ip_address: IpAddress::v4(0, 0, 0, 0),
            identifier: String::from("-"),
            user_id: String::from("-"),
            timestamp: clf_time("09/May/2018:16:00:39 +0000"),
            request: request("GET", "/report", "HTTP/1.0"),
            response_code: 200,
            response_size: 123
        })
    );
    assert_eq!(
        parse_log_entry("- - - - - 200 123"),
        Ok(LogEntry {
            ip_address: IpAddress::v4(0, 0, 0, 0),
            identifier: String::from("-"),
            user_id: String::from("-"),
            timestamp: rfc3339_time("1970-01-01T00:00:00-00:00"),
            request: request("-", "-", "-"),
            response_code: 200,
            response_size: 123
        })
    );
    assert_eq!(
        parse_log_entry("- - - - - - 123"),
        Ok(LogEntry {
            ip_address: IpAddress::v4(0, 0, 0, 0),
            identifier: String::from("-"),
            user_id: String::from("-"),
            timestamp: rfc3339_time("1970-01-01T00:00:00-00:00"),
            request: request("-", "-", "-"),
            response_code: 0,
            response_size: 123
        })
    );
    assert_eq!(
        parse_log_entry("100.100.100.100 - - - - - 123"),
        Ok(LogEntry {
            ip_address: IpAddress::v4(100, 100, 100, 100),
            identifier: String::from("-"),
            user_id: String::from("-"),
            timestamp: rfc3339_time("1970-01-01T00:00:00-00:00"),
            request: request("-", "-", "-"),
            response_code: 0,
            response_size: 123
        })
    );
    assert_eq!(
        parse_log_entry("- - - - - - -"),
        Ok(LogEntry {
            ip_address: IpAddress::v4(0, 0, 0, 0),
            identifier: String::from("-"),
            user_id: String::from("-"),
            timestamp: rfc3339_time("1970-01-01T00:00:00-00:00"),
            request: request("-", "-", "-"),
            response_code: 0,
            response_size: 0
        })
    );
}

#[test]
fn epoch_is_zero_at_utc() {
    assert_eq!(
        Timestamp::epoch(),
        Timestamp { seconds: 0, nanos: 0, offset: 0 }
    );
    assert_eq!(rfc3339_time("1970-01-01T00:00:00-00:00"), Timestamp::epoch());
}

#[test]
fn timestamp_keeps_the_offset_it_was_written_with() {
    let (rest, time) = parse_timestamp("[10/Oct/2000:13:55:36 -0700]").unwrap();
    assert_eq!(rest, "");
    assert_eq!(time, Timestamp { seconds: 971211336, nanos: 0, offset: -25200 });
    assert_eq!(Timestamp::parse("10/Oct/2000:13:55:36 -0700"), time);
}

#[test]
fn unreadable_timestamp_in_brackets_is_the_epoch() {
    assert_eq!(
        parse_timestamp("[yesterday at noon] rest"),
        Ok((" rest", Timestamp::epoch()))
    );
    assert_eq!(parse_timestamp("[] rest"), Ok((" rest", Timestamp::epoch())));
    assert_eq!(Timestamp::parse("-"), Timestamp::epoch());
}

#[test]
fn timestamp_without_closing_bracket_is_refused() {
    assert_eq!(
        parse_timestamp("[09/May/2018:16:00:42 +0000 \"GET / HTTP/1.0\" 200 1"),
        Err(ParseFailure { expected: Expected::Timestamp, at: 0 })
    );
    assert_eq!(
        parse_timestamp("09/May/2018:16:00:42 +0000]"),
        Err(ParseFailure { expected: Expected::Timestamp, at: 0 })
    );
    assert_eq!(
        parse_timestamp(""),
        Err(ParseFailure { expected: Expected::Timestamp, at: 0 })
    );
}

#[test]
fn request_needs_three_parts_and_a_closing_quote() {
    assert_eq!(
        parse_request("\"GET /a\" 200 1"),
        Err(ParseFailure { expected: Expected::Request, at: 0 })
    );
    assert_eq!(
        parse_request("\"GET /a HTTP/1.0 200 1"),
        Err(ParseFailure { expected: Expected::Request, at: 0 })
    );
    assert_eq!(
        parse_request("GET /a HTTP/1.0\" 200 1"),
        Err(ParseFailure { expected: Expected::Request, at: 0 })
    );
    assert_eq!(
        parse_request("\"GET  \t/a b  HTTP 1.0\"x"),
        Ok(("x", request("GET", "/a", "b  HTTP 1.0")))
    );
    assert_eq!(
        parse_request("\"GET /a \" 200"),
        Ok((" 200", request("GET", "/a", "")))
    );
}

#[test]
fn numbers_default_to_zero() {
    assert_eq!(parse_response_code("503 12"), Ok((" 12", 503)));
    assert_eq!(parse_response_code("- 12"), Ok((" 12", 0)));
    assert_eq!(parse_response_code("65535"), Ok(("", 65535)));
    assert_eq!(parse_response_code("65536"), Ok(("", 0)));
    assert_eq!(parse_response_code("000200x"), Ok(("x", 200)));
    assert_eq!(
        parse_response_code("x200"),
        Err(ParseFailure { expected: Expected::ResponseCode, at: 0 })
    );
    assert_eq!(
        parse_response_size("340282366920938463463374607431768211455"),
        Ok(("", u128::MAX))
    );
    assert_eq!(
        parse_response_size("340282366920938463463374607431768211456"),
        Ok(("", 0))
    );
    assert_eq!(
        parse_response_size("99999999999999999999999999999999999999999999 "),
        Ok((" ", 0))
    );
    assert_eq!(parse_response_size("-"), Ok(("", 0)));
    assert_eq!(
        parse_response_size(""),
        Err(ParseFailure { expected: Expected::ResponseSize, at: 0 })
    );
}

#[test]
fn separators_are_runs_of_spaces_and_tabs() {
    assert_eq!(is_whitespace(" \t  x y"), Ok(("x y", " \t  ")));
    assert_eq!(
        is_whitespace("x"),
        Err(ParseFailure { expected: Expected::Separator, at: 0 })
    );
    assert_eq!(
        is_not_whitespace(" x"),
        Err(ParseFailure { expected: Expected::UserId, at: 0 })
    );
    assert_eq!(is_not_whitespace("caf\u{e9}\tx"), Ok(("\tx", "caf\u{e9}")));
    let entry = parse_log_entry("1.2.3.4 \t id   user\t[x]  -  7\t\t8").unwrap();
    assert_eq!(entry.ip_address, IpAddress::v4(1, 2, 3, 4));
    assert_eq!(entry.identifier, "id");
    assert_eq!(entry.user_id, "user");
    assert_eq!(entry.response_code, 7);
    assert_eq!(entry.response_size, 8);
}

#[test]
fn identity_is_free_text() {
    let entry = parse_log_entry(
        "127.0.0.1 user-identifier frank [10/Oct/2000:13:55:36 -0700] \"GET /apache_pb.gif HTTP/1.0\" 200 2326",
    )
    .unwrap();
    assert_eq!(entry.identifier, "user-identifier");
    assert_eq!(entry.user_id, "frank");
    assert_eq!(entry.timestamp, clf_time("10/Oct/2000:13:55:36 -0700"));
    assert_eq!(entry.request, request("GET", "/apache_pb.gif", "HTTP/1.0"));
    assert_eq!(entry.response_code, 200);
    assert_eq!(entry.response_size, 2326);
}

#[test]
fn malformed_lines_are_refused_with_the_place() {
    refused("", Expected::Address, 0);
    refused(" 1.2.3.4 - - - - 1 2", Expected::Address, 0);
    refused("1.2.3.4", Expected::Separator, 7);
    refused("1.2.3.4 ", Expected::Identity, 8);
    refused("1.2.3.4 - ", Expected::UserId, 10);
    refused("- - - x - 1 2", Expected::Timestamp, 6);
    refused("- - - [09/May/2018:16:00:39 +0000 \"GET /report HTTP/1.0\" 200 123", Expected::Timestamp, 6);
    refused("- - - [x]- 1 2", Expected::Separator, 9);
    refused("- - - - GET /report HTTP/1.0 200 123", Expected::Request, 8);
    refused("- - - - \"GET /report HTTP/1.0 200 123", Expected::Request, 8);
    refused("- - - - \"GET /report\" 200 123", Expected::Request, 8);
    refused("- - - - - abc 2", Expected::ResponseCode, 10);
    refused("- - - - - 1", Expected::Separator, 11);
    refused("- - - - - 1 ", Expected::ResponseSize, 12);
    refused("- - - - - 1 2 ", Expected::EndOfLine, 13);
    refused("- - - - - 1 2 \"referer\" \"agent\"", Expected::EndOfLine, 13);
    refused("- - - - - - --", Expected::EndOfLine, 13);
}

#[test]
fn message_names_the_line_and_the_fault() {
    assert_eq!(
        parse_log_entry("- - - x"),
        Err(String::from(
            "Could not parse log entry: - - - x because of error: expected a timestamp in brackets or a dash at character 6"
        ))
    );
    assert_eq!(
        ParseFailure { expected: Expected::EndOfLine, at: 120 }.message("l"),
        "Could not parse log entry: l because of error: expected the end of the line at character 120"
    );
}
