//! The grammar of a log line:
//!
//! `address identity user [timestamp] "method path protocol" code size`
//!
//! Fields stand with runs of spaces or tabs between them, and a dash may
//! stand for the timestamp, the request, the code or the size. A field whose
//! value cannot be read gets a default; a line whose fields cannot be told
//! apart is refused.

use crate::address::{address_of, IpAddress};
use crate::record::{LogEntry, LogEntryView, Request, RequestView};
use crate::text::{chars_of, numeral, push_numeral, push_text, read_numeral, run_end, scan_run, text_between, text_of, value_within, CharClass};
use crate::timestamp::{clf_time, epoch, Timestamp};
use vstd::prelude::*;

verus! {

/// What a line was expected to hold where it could not be read on.
#[derive(Clone, Copy, Debug, PartialEq, Eq, Structural)]
pub enum Expected {
    /// The source address.
    Address,
    /// The identity of the client.
    Identity,
    /// The name of the user.
    UserId,
    /// A timestamp in brackets, or a dash.
    Timestamp,
    /// A request in double quotes, or a dash.
    Request,
    /// The response code: digits, or a dash.
    ResponseCode,
    /// The response size: digits, or a dash.
    ResponseSize,
    /// Spaces or tabs between two fields.
    Separator,
    /// The end of the line.
    EndOfLine,
}

/// Why a line is refused: what was expected, and at which character.
#[derive(Clone, Copy, Debug, PartialEq, Eq, Structural)]
pub struct ParseFailure {
    pub expected: Expected,
    pub at: usize,
}

/// The largest response code.
pub const CODE_MAX: u128 = 0xffff;

/// The largest response size.
pub const SIZE_MAX: u128 = u128::MAX;

/// The end of the token at `at`: a run of one or more characters other than
/// spaces and tabs.
pub open spec fn token_at(s: Seq<char>, at: int) -> Option<int> {
    let end = run_end(s, at, CharClass::NonBlank);
    if end > at {
        Some(end)
    } else {
        None
    }
}

/// The end of the separator at `at`: a run of one or more spaces and tabs.
pub open spec fn blank_at(s: Seq<char>, at: int) -> Option<int> {
    let end = run_end(s, at, CharClass::Blank);
    if end > at {
        Some(end)
    } else {
        None
    }
}

/// The timestamp at `at` and where it ends: what stands between an opening
/// bracket and the next closing one, read as a time or taken for the epoch
/// where it is none; or a dash, which stands for the epoch.
pub open spec fn timestamp_at(s: Seq<char>, at: int) -> Option<(Timestamp, int)> {
    if 0 <= at < s.len() && s[at] == '[' {
        let close = run_end(s, at + 1, CharClass::Except(']'));
        if close < s.len() {
            Some((clf_time(s.subrange(at + 1, close)), close + 1))
        } else {
            None
        }
    } else if 0 <= at < s.len() && s[at] == '-' {
        Some((epoch(), at + 1))
    } else {
        None
    }
}

/// The request that stands for one that is unknown: three dashes.
pub open spec fn unknown_request() -> RequestView {
    RequestView { method: seq!['-'], path: seq!['-'], protocol: seq!['-'] }
}

/// The request at `at` and where it ends: a dash, which stands for the
/// unknown request; or, in double quotes, a method and a path, each a token
/// followed by a separator, and a protocol that runs up to the closing quote.
pub open spec fn request_at(s: Seq<char>, at: int) -> Option<(RequestView, int)> {
    if 0 <= at < s.len() && s[at] == '-' {
        Some((unknown_request(), at + 1))
    } else if 0 <= at < s.len() && s[at] == '"' {
        let method_end = run_end(s, at + 1, CharClass::NonBlank);
        let path_start = run_end(s, method_end, CharClass::Blank);
        let path_end = run_end(s, path_start, CharClass::NonBlank);
        let protocol_start = run_end(s, path_end, CharClass::Blank);
        let close = run_end(s, protocol_start, CharClass::Except('"'));
        if at + 1 < method_end < path_start < path_end < protocol_start && close < s.len() {
            Some(
                (
                    RequestView {
                        method: s.subrange(at + 1, method_end),
                        path: s.subrange(path_start, path_end),
                        protocol: s.subrange(protocol_start, close),
                    },
                    close + 1,
                ),
            )
        } else {
            None
        }
    } else {
        None
    }
}

/// The number at `at` and where it ends: a dash, which stands for zero; or a
/// run of digits, which stands for its value, or for zero where that is
/// larger than `max`.
pub open spec fn number_at(s: Seq<char>, at: int, max: nat) -> Option<(nat, int)> {
    if 0 <= at < s.len() && s[at] == '-' {
        Some((0, at + 1))
    } else {
        let end = run_end(s, at, CharClass::Digit);
        if end > at {
            Some((value_within(s.subrange(at, end), false, max), end))
        } else {
            None
        }
    }
}

/// What the `index`-th field is expected to hold, counted from zero.
pub open spec fn expected_field(index: nat) -> Expected {
    if index == 0 {
        Expected::Address
    } else if index == 1 {
        Expected::Identity
    } else if index == 2 {
        Expected::UserId
    } else if index == 3 {
        Expected::Timestamp
    } else if index == 4 {
        Expected::Request
    } else if index == 5 {
        Expected::ResponseCode
    } else {
        Expected::ResponseSize
    }
}

/// Where the `index`-th field ends if it begins at `at`.
pub open spec fn field_end(s: Seq<char>, index: nat, at: int) -> Option<int> {
    if index <= 2 {
        token_at(s, at)
    } else if index == 3 {
        match timestamp_at(s, at) {
            Some((_, end)) => Some(end),
            None => None,
        }
    } else if index == 4 {
        match request_at(s, at) {
            Some((_, end)) => Some(end),
            None => None,
        }
    } else {
        match number_at(s, at, 0) {
            Some((_, end)) => Some(end),
            None => None,
        }
    }
}

/// Where the `index`-th field of the line begins, or why the line is
/// refused before that: every earlier field must be there, each followed by
/// a separator.
pub open spec fn start_of(s: Seq<char>, index: nat) -> Result<int, ParseFailure>
    decreases index,
{
    if index == 0 {
        Ok(0)
    } else {
        match start_of(s, (index - 1) as nat) {
            Err(failure) => Err(failure),
            Ok(at) => match field_end(s, (index - 1) as nat, at) {
                None => Err(
                    ParseFailure { expected: expected_field((index - 1) as nat), at: at as usize },
                ),
                Some(end) => match blank_at(s, end) {
                    None => Err(ParseFailure { expected: Expected::Separator, at: end as usize }),
                    Some(next) => Ok(next),
                },
            },
        }
    }
}

/// Where the `index`-th field of a line begins that has that field.
pub open spec fn position(s: Seq<char>, index: nat) -> int {
    match start_of(s, index) {
        Ok(at) => at,
        Err(_) => 0,
    }
}

/// The token that begins at `at`.
pub open spec fn token_text(s: Seq<char>, at: int) -> Seq<char> {
    s.subrange(at, run_end(s, at, CharClass::NonBlank))
}

/// The value of a field that was read, without the index at which it ends.
pub open spec fn value_of<T>(found: Option<(T, int)>) -> T {
    let (value, _) = found->0;
    value
}

/// The entry that a line holds whose seven fields are all there.
pub open spec fn entry_of(s: Seq<char>) -> LogEntryView {
    LogEntryView {
        ip_address: address_of(token_text(s, 0)),
        identifier: token_text(s, position(s, 1)),
        user_id: token_text(s, position(s, 2)),
        timestamp: value_of(timestamp_at(s, position(s, 3))),
        request: value_of(request_at(s, position(s, 4))),
        response_code: value_of(number_at(s, position(s, 5), CODE_MAX as nat)) as u16,
        response_size: value_of(number_at(s, position(s, 6), SIZE_MAX as nat)) as u128,
    }
}

/// The entry that the line `s` holds, or why the line is refused: the first
/// field that is not there, the first separator that is missing, or what
/// follows the last field.
pub open spec fn line_entry(s: Seq<char>) -> Result<LogEntryView, ParseFailure> {
    match start_of(s, 6) {
        Err(failure) => Err(failure),
        Ok(at) => match field_end(s, 6, at) {
            None => Err(ParseFailure { expected: Expected::ResponseSize, at: at as usize }),
            Some(end) => if end < s.len() {
                Err(ParseFailure { expected: Expected::EndOfLine, at: end as usize })
            } else {
                Ok(entry_of(s))
            },
        },
    }
}

/// Reads the token at `at`, as `token_at` has it.
pub fn read_token(s: &[char], at: usize) -> (end: Option<usize>)
    requires
        at <= s@.len(),
    ensures
        end matches Some(e) ==> at < e <= s@.len(),
        token_at(s@, at as int) == match end {
            Some(e) => Some(e as int),
            None => None,
        },
{
    let end = scan_run(s, at, CharClass::NonBlank);
    if end > at {
        Some(end)
    } else {
        None
    }
}

/// Reads the separator at `at`, as `blank_at` has it.
pub fn read_blank(s: &[char], at: usize) -> (end: Option<usize>)
    requires
        at <= s@.len(),
    ensures
        end matches Some(e) ==> at < e <= s@.len(),
        blank_at(s@, at as int) == match end {
            Some(e) => Some(e as int),
            None => None,
        },
{
    let end = scan_run(s, at, CharClass::Blank);
    if end > at {
        Some(end)
    } else {
        None
    }
}

/// Reads the timestamp at `at`, as `timestamp_at` has it.
pub fn read_timestamp(s: &[char], at: usize) -> (found: Option<(Timestamp, usize)>)
    requires
        at <= s@.len(),
    ensures
        found matches Some((_, e)) ==> at < e <= s@.len(),
        timestamp_at(s@, at as int) == match found {
            Some((time, e)) => Some((time, e as int)),
            None => None,
        },
{
    if at < s.len() && s[at] == '[' {
        let close = scan_run(s, at + 1, CharClass::Except(']'));
        if close < s.len() {
            let text = text_between(s, at + 1, close);
            Some((Timestamp::parse(text.as_str()), close + 1))
        } else {
            None
        }
    } else if at < s.len() && s[at] == '-' {
        Some((Timestamp::epoch(), at + 1))
    } else {
        None
    }
}

/// Reads the request at `at`, as `request_at` has it.
pub fn read_request(s: &[char], at: usize) -> (found: Option<(Request, usize)>)
    requires
        at <= s@.len(),
    ensures
        found matches Some((_, e)) ==> at < e <= s@.len(),
        request_at(s@, at as int) == match found {
            Some((request, e)) => Some((request@, e as int)),
            None => None,
        },
{
    if at < s.len() && s[at] == '-' {
        Some((Request::unknown(), at + 1))
    } else if at < s.len() && s[at] == '"' {
        let method_end = scan_run(s, at + 1, CharClass::NonBlank);
        let path_start = scan_run(s, method_end, CharClass::Blank);
        let path_end = scan_run(s, path_start, CharClass::NonBlank);
        let protocol_start = scan_run(s, path_end, CharClass::Blank);
        let close = scan_run(s, protocol_start, CharClass::Except('"'));
        if at + 1 < method_end && method_end < path_start && path_start < path_end && path_end
            < protocol_start && close < s.len() {
            let request = Request {
                method: text_between(s, at + 1, method_end),
                path: text_between(s, path_start, path_end),
                protocol: text_between(s, protocol_start, close),
            };
            Some((request, close + 1))
        } else {
            None
        }
    } else {
        None
    }
}

/// Reads the number at `at`, as `number_at` has it.
pub fn read_number(s: &[char], at: usize, max: u128) -> (found: Option<(u128, usize)>)
    requires
        at <= s@.len(),
    ensures
        found matches Some((n, e)) ==> at < e <= s@.len() && n <= max,
        number_at(s@, at as int, max as nat) == match found {
            Some((n, e)) => Some((n as nat, e as int)),
            None => None,
        },
{
    if at < s.len() && s[at] == '-' {
        Some((0, at + 1))
    } else {
        let end = scan_run(s, at, CharClass::Digit);
        if end > at {
            Some((read_numeral(s, at, end, false, max), end))
        } else {
            None
        }
    }
}

/// A failure to read `expected` at `at`.
fn failure<T>(expected: Expected, at: usize) -> (out: Result<T, ParseFailure>)
    ensures
        out == Err::<T, ParseFailure>(ParseFailure { expected, at }),
{
    Err(ParseFailure { expected, at })
}

/// Reads the separator after a field that ends at `end`.
fn read_separator(s: &[char], end: usize) -> (next: Result<usize, ParseFailure>)
    requires
        end <= s@.len(),
    ensures
        match next {
            Ok(at) => blank_at(s@, end as int) == Some(at as int) && end < at <= s@.len(),
            Err(failure) => blank_at(s@, end as int) is None && failure == (ParseFailure {
                expected: Expected::Separator,
                at: end,
            }),
        },
{
    match read_blank(s, end) {
        Some(at) => Ok(at),
        None => failure(Expected::Separator, end),
    }
}

/// Reads the entry that the line `s` holds, or says why the line is refused.
pub fn parse_entry(s: &[char]) -> (parsed: Result<LogEntry, ParseFailure>)
    ensures
        match parsed {
            Ok(entry) => line_entry(s@) == Ok::<LogEntryView, ParseFailure>(entry@),
            Err(failure) => line_entry(s@) == Err::<LogEntryView, ParseFailure>(failure),
        },
{
    proof {
        reveal_with_fuel(start_of, 8);
    }
    let address_end = match read_token(s, 0) {
        Some(end) => end,
        None => return failure(Expected::Address, 0),
    };
    let identity_start = match read_separator(s, address_end) {
        Ok(at) => at,
        Err(failure) => return Err(failure),
    };
    let identity_end = match read_token(s, identity_start) {
        Some(end) => end,
        None => return failure(Expected::Identity, identity_start),
    };
    let user_start = match read_separator(s, identity_end) {
        Ok(at) => at,
        Err(failure) => return Err(failure),
    };
    let user_end = match read_token(s, user_start) {
        Some(end) => end,
        None => return failure(Expected::UserId, user_start),
    };
    let time_start = match read_separator(s, user_end) {
        Ok(at) => at,
        Err(failure) => return Err(failure),
    };
    let (timestamp, time_end) = match read_timestamp(s, time_start) {
        Some(found) => found,
        None => return failure(Expected::Timestamp, time_start),
    };
    let request_start = match read_separator(s, time_end) {
        Ok(at) => at,
        Err(failure) => return Err(failure),
    };
    let (request, request_end) = match read_request(s, request_start) {
        Some(found) => found,
        None => return failure(Expected::Request, request_start),
    };
    let code_start = match read_separator(s, request_end) {
        Ok(at) => at,
        Err(failure) => return Err(failure),
    };
    let (code, code_end) = match read_number(s, code_start, CODE_MAX) {
        Some(found) => found,
        None => return failure(Expected::ResponseCode, code_start),
    };
    let size_start = match read_separator(s, code_end) {
        Ok(at) => at,
        Err(failure) => return Err(failure),
    };
    let (size, size_end) = match read_number(s, size_start, SIZE_MAX) {
        Some(found) => found,
        None => return failure(Expected::ResponseSize, size_start),
    };
    if size_end < s.len() {
        return failure(Expected::EndOfLine, size_end);
    }
    let entry = LogEntry {
        ip_address: IpAddress::parse_or_unspecified(vstd::slice::slice_subrange(s, 0, address_end)),
        identifier: text_between(s, identity_start, identity_end),
        user_id: text_between(s, user_start, user_end),
        timestamp,
        request,
        response_code: code as u16,
        response_size: size,
    };
    proof {
        assert(start_of(s@, 6) == Ok::<int, ParseFailure>(size_start as int));
        assert(entry@ == entry_of(s@));
    }
    Ok(entry)
}

/// How `expected` is named in a message.
pub open spec fn expected_text(expected: Expected) -> Seq<char> {
    match expected {
        Expected::Address => "an address"@,
        Expected::Identity => "an identity"@,
        Expected::UserId => "a user"@,
        Expected::Timestamp => "a timestamp in brackets or a dash"@,
        Expected::Request => "a request in quotes or a dash"@,
        Expected::ResponseCode => "a response code or a dash"@,
        Expected::ResponseSize => "a response size or a dash"@,
        Expected::Separator => "a space or a tab"@,
        Expected::EndOfLine => "the end of the line"@,
    }
}

/// The message that tells why `line` is refused.
pub open spec fn failure_message(line: Seq<char>, failure: ParseFailure) -> Seq<char> {
    "Could not parse log entry: "@ + line + " because of error: expected "@ + expected_text(
        failure.expected,
    ) + " at character "@ + numeral(failure.at as nat, false)
}

impl Expected {
    /// How the expectation is named in a message.
    pub fn name(&self) -> (name: &'static str)
        ensures
            name@ == expected_text(*self),
    {
        match self {
            Expected::Address => "an address",
            Expected::Identity => "an identity",
            Expected::UserId => "a user",
            Expected::Timestamp => "a timestamp in brackets or a dash",
            Expected::Request => "a request in quotes or a dash",
            Expected::ResponseCode => "a response code or a dash",
            Expected::ResponseSize => "a response size or a dash",
            Expected::Separator => "a space or a tab",
            Expected::EndOfLine => "the end of the line",
        }
    }
}

impl ParseFailure {
    /// The message that tells why `line` is refused.
    pub fn message(&self, line: &str) -> (message: String)
        ensures
            message@ == failure_message(line@, *self),
    {
        let mut out: Vec<char> = Vec::new();
        push_text(&mut out, "Could not parse log entry: ");
        push_text(&mut out, line);
        push_text(&mut out, " because of error: expected ");
        push_text(&mut out, self.expected.name());
        push_text(&mut out, " at character ");
        push_numeral(&mut out, self.at as u128, false);
        assert(out@ =~= failure_message(line@, *self));
        text_of(out.as_slice())
    }
}

/// Reads the entry that the line `i` holds. A line that is refused gives a
/// message that holds the line and says what was expected at which character.
pub fn parse_log_entry(i: &str) -> (parsed: Result<LogEntry, String>)
    ensures
        match parsed {
            Ok(entry) => line_entry(i@) == Ok::<LogEntryView, ParseFailure>(entry@),
            Err(message) => line_entry(i@) is Err && message@ == failure_message(
                i@,
                line_entry(i@)->Err_0,
            ),
        },
{
    let chars = chars_of(i);
    match parse_entry(chars.as_slice()) {
        Ok(entry) => Ok(entry),
        Err(failure) => Err(failure.message(i)),
    }
}

/// What is left of `i` from the character `from` on.
fn rest_of<'a>(i: &'a str, chars: &[char], from: usize) -> (rest: &'a str)
    requires
        chars@ == i@,
        from <= chars@.len(),
    ensures
        rest@ == i@.subrange(from as int, i@.len() as int),
{
    i.substring_char(from, chars.len())
}

/// Takes a token off the front of `i`: a run of one or more characters other
/// than spaces and tabs. Returns what is left and the token.
pub fn is_not_whitespace(i: &str) -> (taken: Result<(&str, &str), ParseFailure>)
    ensures
        match taken {
            Ok((rest, token)) => token_at(i@, 0) is Some && token@ == token_text(i@, 0) && rest@
                == i@.subrange(token_at(i@, 0)->0, i@.len() as int),
            Err(failure) => token_at(i@, 0) is None && failure == (ParseFailure {
                expected: Expected::UserId,
                at: 0,
            }),
        },
{
    let chars = chars_of(i);
    match read_token(chars.as_slice(), 0) {
        Some(end) => Ok((rest_of(i, chars.as_slice(), end), i.substring_char(0, end))),
        None => failure(Expected::UserId, 0),
    }
}

/// Takes a separator off the front of `i`: a run of one or more spaces and
/// tabs. Returns what is left and the separator.
pub fn is_whitespace(i: &str) -> (taken: Result<(&str, &str), ParseFailure>)
    ensures
        match taken {
            Ok((rest, blank)) => blank_at(i@, 0) is Some && blank@ == i@.subrange(
                0,
                blank_at(i@, 0)->0,
            ) && rest@ == i@.subrange(blank_at(i@, 0)->0, i@.len() as int),
            Err(failure) => blank_at(i@, 0) is None && failure == (ParseFailure {
                expected: Expected::Separator,
                at: 0,
            }),
        },
{
    let chars = chars_of(i);
    match read_blank(chars.as_slice(), 0) {
        Some(end) => Ok((rest_of(i, chars.as_slice(), end), i.substring_char(0, end))),
        None => failure(Expected::Separator, 0),
    }
}

/// Takes an address off the front of `i`: a token, read as an address or
/// taken for the unspecified address where it writes none. Returns what is
/// left and the address.
pub fn parse_ip_address(i: &str) -> (taken: Result<(&str, IpAddress), ParseFailure>)
    ensures
        match taken {
            Ok((rest, address)) => token_at(i@, 0) is Some && address == address_of(
                token_text(i@, 0),
            ) && rest@ == i@.subrange(token_at(i@, 0)->0, i@.len() as int),
            Err(failure) => token_at(i@, 0) is None && failure == (ParseFailure {
                expected: Expected::Address,
                at: 0,
            }),
        },
{
    let chars = chars_of(i);
    match read_token(chars.as_slice(), 0) {
        Some(end) => {
            let address = IpAddress::parse_or_unspecified(
                vstd::slice::slice_subrange(chars.as_slice(), 0, end),
            );
            Ok((rest_of(i, chars.as_slice(), end), address))
        },
        None => failure(Expected::Address, 0),
    }
}

/// Takes an identity off the front of `i`: a token. Returns what is left and
/// the identity.
pub fn parse_identifier(i: &str) -> (taken: Result<(&str, String), ParseFailure>)
    ensures
        match taken {
            Ok((rest, identity)) => token_at(i@, 0) is Some && identity@ == token_text(i@, 0)
                && rest@ == i@.subrange(token_at(i@, 0)->0, i@.len() as int),
            Err(failure) => token_at(i@, 0) is None && failure == (ParseFailure {
                expected: Expected::Identity,
                at: 0,
            }),
        },
{
    let chars = chars_of(i);
    match read_token(chars.as_slice(), 0) {
        Some(end) => Ok((rest_of(i, chars.as_slice(), end), text_between(chars.as_slice(), 0, end))),
        None => failure(Expected::Identity, 0),
    }
}

/// Takes a timestamp off the front of `i`, as `timestamp_at` has it. Returns
/// what is left and the timestamp.
pub fn parse_timestamp(i: &str) -> (taken: Result<(&str, Timestamp), ParseFailure>)
    ensures
        match taken {
            Ok((rest, time)) => timestamp_at(i@, 0) is Some && time == value_of(
                timestamp_at(i@, 0),
            ) && rest@ == i@.subrange(field_end(i@, 3, 0)->0, i@.len() as int),
            Err(failure) => timestamp_at(i@, 0) is None && failure == (ParseFailure {
                expected: Expected::Timestamp,
                at: 0,
            }),
        },
{
    let chars = chars_of(i);
    match read_timestamp(chars.as_slice(), 0) {
        Some((time, end)) => Ok((rest_of(i, chars.as_slice(), end), time)),
        None => failure(Expected::Timestamp, 0),
    }
}

/// Takes a request off the front of `i`, as `request_at` has it. Returns what
/// is left and the request.
pub fn parse_request(i: &str) -> (taken: Result<(&str, Request), ParseFailure>)
    ensures
        match taken {
            Ok((rest, request)) => request_at(i@, 0) is Some && request@ == value_of(
                request_at(i@, 0),
            ) && rest@ == i@.subrange(field_end(i@, 4, 0)->0, i@.len() as int),
            Err(failure) => request_at(i@, 0) is None && failure == (ParseFailure {
                expected: Expected::Request,
                at: 0,
            }),
        },
{
    let chars = chars_of(i);
    match read_request(chars.as_slice(), 0) {
        Some((request, end)) => Ok((rest_of(i, chars.as_slice(), end), request)),
        None => failure(Expected::Request, 0),
    }
}

/// Takes a response code off the front of `i`: a dash, which stands for
/// zero, or digits, which stand for zero where they exceed sixteen bits.
/// Returns what is left and the code.
pub fn parse_response_code(i: &str) -> (taken: Result<(&str, u16), ParseFailure>)
    ensures
        match taken {
            Ok((rest, code)) => number_at(i@, 0, CODE_MAX as nat) is Some && code == value_of(
                number_at(i@, 0, CODE_MAX as nat),
            ) && rest@ == i@.subrange(field_end(i@, 5, 0)->0, i@.len() as int),
            Err(failure) => number_at(i@, 0, CODE_MAX as nat) is None && failure == (ParseFailure {
                expected: Expected::ResponseCode,
                at: 0,
            }),
        },
{
    let chars = chars_of(i);
    match read_number(chars.as_slice(), 0, CODE_MAX) {
        Some((code, end)) => Ok((rest_of(i, chars.as_slice(), end), code as u16)),
        None => failure(Expected::ResponseCode, 0),
    }
}

/// Takes a response size off the front of `i`: a dash, which stands for
/// zero, or digits, which stand for zero where they exceed 128 bits.
/// Returns what is left and the size.
pub fn parse_response_size(i: &str) -> (taken: Result<(&str, u128), ParseFailure>)
    ensures
        match taken {
            Ok((rest, size)) => number_at(i@, 0, SIZE_MAX as nat) is Some && size == value_of(
                number_at(i@, 0, SIZE_MAX as nat),
            ) && rest@ == i@.subrange(field_end(i@, 6, 0)->0, i@.len() as int),
            Err(failure) => number_at(i@, 0, SIZE_MAX as nat) is None && failure == (ParseFailure {
                expected: Expected::ResponseSize,
                at: 0,
            }),
        },
{
    let chars = chars_of(i);
    match read_number(chars.as_slice(), 0, SIZE_MAX) {
        Some((size, end)) => Ok((rest_of(i, chars.as_slice(), end), size)),
        None => failure(Expected::ResponseSize, 0),
    }
}

} // verus!
