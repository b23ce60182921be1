use clf_parser::address::IpAddress;
use clf_parser::parsers::parse_ip_address;
use clf_parser::text::chars_of;

fn parse(text: &str) -> Option<IpAddress> {
    IpAddress::parse(&chars_of(text))
}

fn written(address: IpAddress) -> String {
    let mut out = Vec::new();
    address.push_text(&mut out);
    out.into_iter().collect()
}

#[test]
fn version_4_addresses() {
    assert_eq!(parse("127.0.0.1"), Some(IpAddress::V4(0x7f00_0001)));
    assert_eq!(parse("0.0.0.0"), Some(IpAddress::V4(0)));
    assert_eq!(parse("255.255.255.255"), Some(IpAddress::V4(u32::MAX)));
    assert_eq!(parse("1.2.3.4"), Some(IpAddress::v4(1, 2, 3, 4)));
    assert_eq!(IpAddress::v4(1, 2, 3, 4), IpAddress::V4(0x0102_0304));
}

#[test]
fn version_4_addresses_that_are_refused() {
    for text in [
        "", "1", "1.2.3", "1.2.3.", ".1.2.3", "1.2.3.4.5", "1.2.3.4.", "256.1.1.1", "1.2.3.256",
        "01.2.3.4", "1.2.3.04", "1.2.3.00", "1..2.3", "1.2.3.4 ", " 1.2.3.4", "1.2.3.a",
        "1000.2.3.4", "1.2.3.4:80", "1.2.3.0x1", "-", "localhost",
    ] {
        assert_eq!(parse(text), None, "{}", text);
    }
}

#[test]
fn version_6_addresses() {
    assert_eq!(parse("::"), Some(IpAddress::V6(0)));
    assert_eq!(parse("::1"), Some(IpAddress::V6(1)));
    assert_eq!(parse("1::"), Some(IpAddress::v6([1, 0, 0, 0, 0, 0, 0, 0])));
    assert_eq!(
        parse("2001:db8::ff00:42:8329"),
        Some(IpAddress::v6([0x2001, 0xdb8, 0, 0, 0, 0xff00, 0x42, 0x8329]))
    );
    assert_eq!(
        parse("2001:0DB8:0000:0000:0000:FF00:0042:8329"),
        Some(IpAddress::v6([0x2001, 0xdb8, 0, 0, 0, 0xff00, 0x42, 0x8329]))
    );
    assert_eq!(
        parse("1:2:3:4:5:6:7:8"),
        Some(IpAddress::v6([1, 2, 3, 4, 5, 6, 7, 8]))
    );
    assert_eq!(
        parse("1:2:3:4:5:6:7::"),
        Some(IpAddress::v6([1, 2, 3, 4, 5, 6, 7, 0]))
    );
    assert_eq!(
        parse("::2:3:4:5:6:7:8"),
        Some(IpAddress::v6([0, 2, 3, 4, 5, 6, 7, 8]))
    );
    assert_eq!(
        parse("ffff:ffff:ffff:ffff:ffff:ffff:ffff:ffff"),
        Some(IpAddress::V6(u128::MAX))
    );
    assert_eq!(
        IpAddress::v6([1, 2, 3, 4, 5, 6, 7, 8]),
        IpAddress::V6(0x0001_0002_0003_0004_0005_0006_0007_0008)
    );
}

#[test]
fn version_6_addresses_with_a_version_4_tail() {
    assert_eq!(
        parse("::ffff:192.168.0.1"),
        Some(IpAddress::v6([0, 0, 0, 0, 0, 0xffff, 0xc0a8, 0x0001]))
    );
    assert_eq!(
        parse("1:2:3:4:5:6:1.2.3.4"),
        Some(IpAddress::v6([1, 2, 3, 4, 5, 6, 0x0102, 0x0304]))
    );
    assert_eq!(
        parse("::1.2.3.4"),
        Some(IpAddress::v6([0, 0, 0, 0, 0, 0, 0x0102, 0x0304]))
    );
    assert_eq!(
        parse("64:ff9b::192.0.2.33"),
        Some(IpAddress::v6([0x64, 0xff9b, 0, 0, 0, 0, 0xc000, 0x0221]))
    );
}

#[test]
fn version_6_addresses_that_are_refused() {
    for text in [
        ":", ":::", "1", "1:", ":1", "1:2", "1:2:3:4:5:6:7", "1:2:3:4:5:6:7:8:9",
        "1:2:3:4:5:6:7:8:", "1:2:3:4:5:6:7:8::", "::1:2:3:4:5:6:7:8", "1::2::3", "12345::",
        "::12345", "g::", "::g", "1:2:3:4:5:6:7:1.2.3.4", "1.2.3.4::", "1.2.3.4::1",
        "1:2:3:4:5:1.2.3.4:6", "::1.2.3", "::1.2.3.4.5", "::1 ", "fe80::1%eth0", "[::1]",
        "1:2:3:4:5:6:7::8", "::01.2.3.4",
    ] {
        assert_eq!(parse(text), None, "{}", text);
    }
}

#[test]
fn unreadable_address_is_the_unspecified_address() {
    assert_eq!(IpAddress::unspecified(), IpAddress::V4(0));
    assert_eq!(
        IpAddress::parse_or_unspecified(&chars_of("example.org")),
        IpAddress::V4(0)
    );
    assert_eq!(
        IpAddress::parse_or_unspecified(&chars_of("10.0.0.7")),
        IpAddress::v4(10, 0, 0, 7)
    );
    assert_eq!(
        parse_ip_address("999.1.1.1 rest"),
        Ok((" rest", IpAddress::V4(0)))
    );
}

#[test]
fn addresses_as_written() {
    assert_eq!(written(IpAddress::v4(127, 0, 0, 1)), "127.0.0.1");
    assert_eq!(written(IpAddress::V4(0)), "0.0.0.0");
    assert_eq!(written(IpAddress::V4(u32::MAX)), "255.255.255.255");
    assert_eq!(written(IpAddress::V6(0)), "::");
    assert_eq!(written(IpAddress::V6(1)), "::1");
    assert_eq!(written(IpAddress::v6([1, 0, 0, 0, 0, 0, 0, 0])), "1::");
    assert_eq!(
        written(IpAddress::v6([0x2001, 0xdb8, 0, 0, 0, 0xff00, 0x42, 0x8329])),
        "2001:db8::ff00:42:8329"
    );
    assert_eq!(
        written(IpAddress::V6(u128::MAX)),
        "ffff:ffff:ffff:ffff:ffff:ffff:ffff:ffff"
    );
    assert_eq!(
        written(IpAddress::v6([1, 2, 3, 4, 5, 6, 7, 8])),
        "1:2:3:4:5:6:7:8"
    );
}

#[test]
fn zero_groups_are_left_out_once() {
    assert_eq!(written(IpAddress::v6([1, 0, 2, 3, 4, 5, 6, 7])), "1:0:2:3:4:5:6:7");
    assert_eq!(written(IpAddress::v6([1, 0, 0, 3, 4, 5, 6, 7])), "1::3:4:5:6:7");
    assert_eq!(written(IpAddress::v6([1, 0, 2, 0, 0, 3, 0, 0])), "1:0:2::3:0:0");
    assert_eq!(written(IpAddress::v6([1, 0, 0, 2, 0, 0, 0, 3])), "1:0:0:2::3");
    assert_eq!(written(IpAddress::v6([0, 0, 1, 0, 0, 0, 0, 0])), "0:0:1::");
    assert_eq!(written(IpAddress::v6([0, 0, 0, 0, 1, 0, 0, 0])), "::1:0:0:0");
    assert_eq!(written(IpAddress::v6([0, 1, 0, 1, 0, 1, 0, 1])), "0:1:0:1:0:1:0:1");
    assert_eq!(written(IpAddress::v6([0xfe80, 0, 0, 0, 0, 0, 0, 0x1])), "fe80::1");
}

#[test]
fn mapped_addresses_end_in_dotted_decimal() {
    assert_eq!(
        written(IpAddress::v6([0, 0, 0, 0, 0, 0xffff, 0xc0a8, 0x0001])),
        "::ffff:192.168.0.1"
    );
    assert_eq!(
        written(IpAddress::v6([0, 0, 0, 0, 0, 0xffff, 0, 0])),
        "::ffff:0.0.0.0"
    );
    assert_eq!(
        written(IpAddress::v6([0, 0, 0, 0, 0, 0, 0x0102, 0x0304])),
        "::102:304"
    );
    assert_eq!(
        written(IpAddress::v6([0, 0, 0, 0, 1, 0xffff, 0x0102, 0x0304])),
        "::1:ffff:102:304"
    );
}

#[test]
fn what_is_written_is_read_back() {
    for address in [
        IpAddress::v4(192, 168, 0, 1),
        IpAddress::V4(0),
        IpAddress::v6([0xfe80, 0, 0, 0, 0x1, 0x22, 0x333, 0x4444]),
        IpAddress::V6(0),
        IpAddress::V6(1),
        IpAddress::V6(u128::MAX),
        IpAddress::v6([0, 0, 0, 0, 0, 0xffff, 0xc0a8, 0x0001]),
        IpAddress::v6([1, 0, 2, 0, 0, 3, 0, 0]),
        IpAddress::v6([0, 0, 1, 0, 0, 0, 0, 0]),
        IpAddress::v6([1, 2, 3, 4, 5, 6, 7, 0]),
        IpAddress::v6([0, 2, 3, 4, 5, 6, 7, 8]),
    ] {
        assert_eq!(parse(&written(address)), Some(address));
    }
}
