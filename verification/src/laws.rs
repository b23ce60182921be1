//! What holds of the grammar for every line.

use crate::address::{address_of, address_text, groups_from, groups_of_bits, is_mapped, joined, longest_run, octets_at, parse_address, part_at, parts_text, v4_at, v6_bits, v6_groups, v6_text, zero_run, IpAddress};
use crate::parsers::{blank_at, entry_of, field_end, line_entry, number_at, request_at, start_of, timestamp_at, token_at, Expected, ParseFailure, CODE_MAX, SIZE_MAX};
use crate::record::{LogEntryView, RequestView};
use crate::text::{decimal, lemma_numeral_reads_back, lemma_numeral_shape, lemma_run_end, lemma_run_end_unique, numeral, run_end, CharClass};
use crate::timestamp::clf_time;
use vstd::prelude::*;

verus! {

/// Whether `text` can stand as a token: it is not empty and holds neither a
/// space nor a tab.
pub open spec fn is_token(text: Seq<char>) -> bool {
    &&& text.len() >= 1
    &&& forall|i: int| 0 <= i < text.len() ==> CharClass::NonBlank.holds(#[trigger] text[i])
}

/// Whether `text` holds the character `c` nowhere.
pub open spec fn lacks(text: Seq<char>, c: char) -> bool {
    forall|i: int| 0 <= i < text.len() ==> #[trigger] text[i] != c
}

/// The line that writes the given fields in full, with single spaces
/// between them.
pub open spec fn written_line(
    address: Seq<char>,
    identity: Seq<char>,
    user: Seq<char>,
    time: Seq<char>,
    request: RequestView,
    code: u16,
    size: u128,
) -> Seq<char> {
    address + seq![' '] + identity + seq![' '] + user + seq![' ', '['] + time + seq![
        ']',
        ' ',
        '"',
    ] + request.method + seq![' '] + request.path + seq![' '] + request.protocol + seq![
        '"',
        ' ',
    ] + decimal(code as nat) + seq![' '] + decimal(size as nat)
}

/// Where a stretch of `s` equals `piece`, lies in `class` and is followed by
/// the end of `s` or by a character outside the class, the run from its start
/// ends at its end.
proof fn lemma_run_over_piece(s: Seq<char>, at: int, piece: Seq<char>, class: CharClass)
    requires
        0 <= at,
        at + piece.len() <= s.len(),
        s.subrange(at, at + piece.len()) == piece,
        forall|i: int| 0 <= i < piece.len() ==> class.holds(#[trigger] piece[i]),
        at + piece.len() < s.len() ==> !class.holds(s[at + piece.len()]),
    ensures
        run_end(s, at, class) == at + piece.len(),
{
    assert forall|j: int| at <= j < at + piece.len() implies class.holds(#[trigger] s[j]) by {
        assert(s[j] == s.subrange(at, at + piece.len())[j - at]);
        assert(class.holds(piece[j - at]));
    }
    lemma_run_end_unique(s, at, class, at + piece.len());
}

/// Where `whole` opens `s` and ends with `piece`, what stands before the
/// piece opens `s` too, and the piece follows it in `s`.
proof fn lemma_stage(s: Seq<char>, whole: Seq<char>, front: Seq<char>, piece: Seq<char>)
    requires
        whole.len() <= s.len(),
        s.subrange(0, whole.len() as int) == whole,
        whole == front + piece,
    ensures
        s.subrange(0, front.len() as int) == front,
        s.subrange(front.len() as int, whole.len() as int) == piece,
        whole.len() == front.len() + piece.len(),
{
    assert forall|i: int| 0 <= i < whole.len() implies s[i] == whole[i] by {
        assert(s[i] == s.subrange(0, whole.len() as int)[i]);
    }
    assert(s.subrange(0, front.len() as int) =~= front);
    assert(s.subrange(front.len() as int, whole.len() as int) =~= piece);
}

/// Where the parts of a line that is written in full begin and end.
struct Offsets {
    address_end: int,
    identity: int,
    identity_end: int,
    user: int,
    user_end: int,
    time: int,
    time_end: int,
    request: int,
    method_end: int,
    path: int,
    path_end: int,
    protocol: int,
    request_end: int,
    code: int,
    code_end: int,
    size: int,
    size_end: int,
}

/// The offsets of a line whose parts have the given lengths.
spec fn offsets_of(
    address: Seq<char>,
    identity: Seq<char>,
    user: Seq<char>,
    time: Seq<char>,
    request: RequestView,
    code: Seq<char>,
    size: Seq<char>,
) -> Offsets {
    let address_end = address.len() as int;
    let identity_end = address_end + 1 + identity.len();
    let user_end = identity_end + 1 + user.len();
    let time_end = user_end + 1 + 1 + time.len() + 1;
    let method_end = time_end + 1 + 1 + request.method.len();
    let path_end = method_end + 1 + request.path.len();
    let request_end = path_end + 1 + request.protocol.len() + 1;
    let code_end = request_end + 1 + code.len();
    Offsets {
        address_end,
        identity: address_end + 1,
        identity_end,
        user: identity_end + 1,
        user_end,
        time: user_end + 1,
        time_end,
        request: time_end + 1,
        method_end,
        path: method_end + 1,
        path_end,
        protocol: path_end + 1,
        request_end,
        code: request_end + 1,
        code_end,
        size: code_end + 1,
        size_end: code_end + 1 + size.len(),
    }
}

/// The line `s` holds the given parts at their offsets, with one space
/// between two fields, the time in brackets and the request in quotes.
spec fn laid_out(
    s: Seq<char>,
    address: Seq<char>,
    identity: Seq<char>,
    user: Seq<char>,
    time: Seq<char>,
    request: RequestView,
    code: Seq<char>,
    size: Seq<char>,
) -> bool {
    let o = offsets_of(address, identity, user, time, request, code, size);
    &&& s.len() == o.size_end
    &&& s.subrange(0, o.address_end) == address
    &&& s[o.address_end] == ' '
    &&& s.subrange(o.identity, o.identity_end) == identity
    &&& s[o.identity_end] == ' '
    &&& s.subrange(o.user, o.user_end) == user
    &&& s[o.user_end] == ' '
    &&& s[o.time] == '['
    &&& s.subrange(o.time + 1, o.time_end - 1) == time
    &&& s[o.time_end - 1] == ']'
    &&& s[o.time_end] == ' '
    &&& s[o.request] == '"'
    &&& s.subrange(o.request + 1, o.method_end) == request.method
    &&& s[o.method_end] == ' '
    &&& s.subrange(o.path, o.path_end) == request.path
    &&& s[o.path_end] == ' '
    &&& s.subrange(o.protocol, o.request_end - 1) == request.protocol
    &&& s[o.request_end - 1] == '"'
    &&& s[o.request_end] == ' '
    &&& s.subrange(o.code, o.code_end) == code
    &&& s[o.code_end] == ' '
    &&& s.subrange(o.size, o.size_end) == size
}

/// A line that is written in full holds its parts at their offsets.
#[verifier::rlimit(100)]
proof fn lemma_written_line_is_laid_out(
    address: Seq<char>,
    identity: Seq<char>,
    user: Seq<char>,
    time: Seq<char>,
    request: RequestView,
    code: u16,
    size: u128,
)
    ensures
        laid_out(
            written_line(address, identity, user, time, request, code, size),
            address,
            identity,
            user,
            time,
            request,
            decimal(code as nat),
            decimal(size as nat),
        ),
{
    let c = decimal(code as nat);
    let z = decimal(size as nat);
    let o = offsets_of(address, identity, user, time, request, c, z);
    let blank = seq![' '];
    let open = seq![' ', '['];
    let shut = seq![']', ' ', '"'];
    let quote = seq!['"', ' '];
    let l0 = address;
    let l1 = l0 + blank;
    let l2 = l1 + identity;
    let l3 = l2 + blank;
    let l4 = l3 + user;
    let l5 = l4 + open;
    let l6 = l5 + time;
    let l7 = l6 + shut;
    let l8 = l7 + request.method;
    let l9 = l8 + blank;
    let l10 = l9 + request.path;
    let l11 = l10 + blank;
    let l12 = l11 + request.protocol;
    let l13 = l12 + quote;
    let l14 = l13 + c;
    let l15 = l14 + blank;
    let s = l15 + z;
    assert(s == written_line(address, identity, user, time, request, code, size));
    assert(s.subrange(0, s.len() as int) =~= s);
    lemma_stage(s, s, l15, z);
    lemma_stage(s, l15, l14, blank);
    lemma_stage(s, l14, l13, c);
    lemma_stage(s, l13, l12, quote);
    lemma_stage(s, l12, l11, request.protocol);
    lemma_stage(s, l11, l10, blank);
    lemma_stage(s, l10, l9, request.path);
    lemma_stage(s, l9, l8, blank);
    lemma_stage(s, l8, l7, request.method);
    lemma_stage(s, l7, l6, shut);
    lemma_stage(s, l6, l5, time);
    lemma_stage(s, l5, l4, open);
    lemma_stage(s, l4, l3, user);
    lemma_stage(s, l3, l2, blank);
    lemma_stage(s, l2, l1, identity);
    lemma_stage(s, l1, l0, blank);
    assert(s[o.address_end] == s.subrange(o.address_end, o.identity)[0]);
    assert(s[o.identity_end] == s.subrange(o.identity_end, o.user)[0]);
    assert(s[o.user_end] == s.subrange(o.user_end, o.time + 1)[0]);
    assert(s[o.time] == s.subrange(o.user_end, o.time + 1)[1]);
    assert(s[o.time_end - 1] == s.subrange(o.time_end - 1, o.request + 1)[0]);
    assert(s[o.time_end] == s.subrange(o.time_end - 1, o.request + 1)[1]);
    assert(s[o.request] == s.subrange(o.time_end - 1, o.request + 1)[2]);
    assert(s[o.method_end] == s.subrange(o.method_end, o.path)[0]);
    assert(s[o.path_end] == s.subrange(o.path_end, o.protocol)[0]);
    assert(s[o.request_end - 1] == s.subrange(o.request_end - 1, o.code)[0]);
    assert(s[o.request_end] == s.subrange(o.request_end - 1, o.code)[1]);
    assert(s[o.code_end] == s.subrange(o.code_end, o.size)[0]);
}

/// A token in `s` that is followed by one space and then by something else
/// is read as a token, and the space as the separator after it.
proof fn lemma_token_then_blank(s: Seq<char>, at: int, piece: Seq<char>)
    requires
        0 <= at,
        at + piece.len() + 1 < s.len(),
        s.subrange(at, at + piece.len()) == piece,
        is_token(piece),
        s[at + piece.len()] == ' ',
        CharClass::NonBlank.holds(s[at + piece.len() + 1]),
    ensures
        token_at(s, at) == Some(at + piece.len()),
        blank_at(s, at + piece.len()) == Some(at + piece.len() + 1),
{
    lemma_run_over_piece(s, at, piece, CharClass::NonBlank);
    lemma_blank_between(s, at + piece.len());
}

/// One space in `s` that is followed by something else is read as a separator.
proof fn lemma_blank_between(s: Seq<char>, at: int)
    requires
        0 <= at,
        at + 1 < s.len(),
        s[at] == ' ',
        CharClass::NonBlank.holds(s[at + 1]),
    ensures
        blank_at(s, at) == Some(at + 1),
{
    let blank = seq![' '];
    assert(s.subrange(at, at + 1) =~= blank);
    lemma_run_over_piece(s, at, blank, CharClass::Blank);
}

/// What reading finds in a line that holds its parts at their offsets.
spec fn scanned(
    s: Seq<char>,
    o: Offsets,
    time: Seq<char>,
    request: RequestView,
    code: nat,
    size: nat,
) -> bool {
    &&& token_at(s, 0) == Some(o.address_end)
    &&& blank_at(s, o.address_end) == Some(o.identity)
    &&& token_at(s, o.identity) == Some(o.identity_end)
    &&& blank_at(s, o.identity_end) == Some(o.user)
    &&& token_at(s, o.user) == Some(o.user_end)
    &&& blank_at(s, o.user_end) == Some(o.time)
    &&& timestamp_at(s, o.time) == Some((clf_time(time), o.time_end))
    &&& blank_at(s, o.time_end) == Some(o.request)
    &&& request_at(s, o.request) == Some((request, o.request_end))
    &&& blank_at(s, o.request_end) == Some(o.code)
    &&& number_at(s, o.code, CODE_MAX as nat) == Some((code, o.code_end))
    &&& field_end(s, 5, o.code) == Some(o.code_end)
    &&& blank_at(s, o.code_end) == Some(o.size)
    &&& number_at(s, o.size, SIZE_MAX as nat) == Some((size, o.size_end))
    &&& field_end(s, 6, o.size) == Some(o.size_end)
    &&& s.len() == o.size_end
}

/// The first three fields of a line that holds its parts at their offsets
/// are read as tokens with separators after them.
proof fn lemma_tokens_are_scanned(
    s: Seq<char>,
    address: Seq<char>,
    identity: Seq<char>,
    user: Seq<char>,
    time: Seq<char>,
    request: RequestView,
    code: Seq<char>,
    size: Seq<char>,
)
    requires
        laid_out(s, address, identity, user, time, request, code, size),
        is_token(address),
        is_token(identity),
        is_token(user),
    ensures
        ({
            let o = offsets_of(address, identity, user, time, request, code, size);
            &&& token_at(s, 0) == Some(o.address_end)
            &&& blank_at(s, o.address_end) == Some(o.identity)
            &&& token_at(s, o.identity) == Some(o.identity_end)
            &&& blank_at(s, o.identity_end) == Some(o.user)
            &&& token_at(s, o.user) == Some(o.user_end)
            &&& blank_at(s, o.user_end) == Some(o.time)
        }),
{
    let o = offsets_of(address, identity, user, time, request, code, size);
    assert(s[o.identity] == s.subrange(o.identity, o.identity_end)[0]);
    assert(s[o.user] == s.subrange(o.user, o.user_end)[0]);
    lemma_token_then_blank(s, 0, address);
    lemma_token_then_blank(s, o.identity, identity);
    lemma_token_then_blank(s, o.user, user);
}

/// The time of a line that holds its parts at their offsets is read from
/// between its brackets.
proof fn lemma_time_is_scanned(
    s: Seq<char>,
    address: Seq<char>,
    identity: Seq<char>,
    user: Seq<char>,
    time: Seq<char>,
    request: RequestView,
    code: Seq<char>,
    size: Seq<char>,
)
    requires
        laid_out(s, address, identity, user, time, request, code, size),
        lacks(time, ']'),
    ensures
        ({
            let o = offsets_of(address, identity, user, time, request, code, size);
            &&& timestamp_at(s, o.time) == Some((clf_time(time), o.time_end))
            &&& blank_at(s, o.time_end) == Some(o.request)
        }),
{
    let o = offsets_of(address, identity, user, time, request, code, size);
    lemma_run_over_piece(s, o.time + 1, time, CharClass::Except(']'));
    lemma_blank_between(s, o.time_end);
}

/// The request of a line that holds its parts at their offsets is read from
/// between its quotes.
proof fn lemma_request_is_scanned(
    s: Seq<char>,
    address: Seq<char>,
    identity: Seq<char>,
    user: Seq<char>,
    time: Seq<char>,
    request: RequestView,
    code: Seq<char>,
    size: Seq<char>,
)
    requires
        laid_out(s, address, identity, user, time, request, code, size),
        is_token(request.method),
        is_token(request.path),
        request.protocol.len() >= 1,
        CharClass::NonBlank.holds(request.protocol[0]),
        lacks(request.protocol, '"'),
        code.len() >= 1,
        CharClass::Digit.holds(code[0]),
    ensures
        ({
            let o = offsets_of(address, identity, user, time, request, code, size);
            &&& request_at(s, o.request) == Some((request, o.request_end))
            &&& blank_at(s, o.request_end) == Some(o.code)
        }),
{
    let o = offsets_of(address, identity, user, time, request, code, size);
    assert(s[o.path] == s.subrange(o.path, o.path_end)[0]);
    assert(s[o.protocol] == s.subrange(o.protocol, o.request_end - 1)[0]);
    assert(s[o.code] == s.subrange(o.code, o.code_end)[0]);
    lemma_token_then_blank(s, o.request + 1, request.method);
    lemma_token_then_blank(s, o.path, request.path);
    lemma_run_over_piece(s, o.protocol, request.protocol, CharClass::Except('"'));
    lemma_blank_between(s, o.request_end);
}

/// The numbers of a line that holds its parts at their offsets are read
/// with their values.
proof fn lemma_numbers_are_scanned(
    s: Seq<char>,
    address: Seq<char>,
    identity: Seq<char>,
    user: Seq<char>,
    time: Seq<char>,
    request: RequestView,
    code: u16,
    size: u128,
)
    requires
        laid_out(
            s,
            address,
            identity,
            user,
            time,
            request,
            decimal(code as nat),
            decimal(size as nat),
        ),
    ensures
        ({
            let o = offsets_of(
                address,
                identity,
                user,
                time,
                request,
                decimal(code as nat),
                decimal(size as nat),
            );
            &&& number_at(s, o.code, CODE_MAX as nat) == Some((code as nat, o.code_end))
            &&& field_end(s, 5, o.code) == Some(o.code_end)
            &&& blank_at(s, o.code_end) == Some(o.size)
            &&& number_at(s, o.size, SIZE_MAX as nat) == Some((size as nat, o.size_end))
            &&& field_end(s, 6, o.size) == Some(o.size_end)
        }),
{
    let c = decimal(code as nat);
    let z = decimal(size as nat);
    let o = offsets_of(address, identity, user, time, request, c, z);
    lemma_numeral_reads_back(code as nat, false);
    lemma_numeral_reads_back(size as nat, false);
    assert(s[o.code] == s.subrange(o.code, o.code_end)[0]);
    assert(s[o.size] == s.subrange(o.size, o.size_end)[0]);
    assert(CharClass::Digit.holds(c[0]) && CharClass::Digit.holds(z[0]));
    lemma_run_over_piece(s, o.code, c, CharClass::Digit);
    lemma_blank_between(s, o.code_end);
    lemma_run_over_piece(s, o.size, z, CharClass::Digit);
}

/// A line in which reading finds every field holds the entry of what it found.
proof fn lemma_scanned_line_is_read(
    s: Seq<char>,
    o: Offsets,
    time: Seq<char>,
    request: RequestView,
    code: u16,
    size: u128,
)
    requires
        scanned(s, o, time, request, code as nat, size as nat),
    ensures
        line_entry(s) == Ok::<LogEntryView, ParseFailure>(
            LogEntryView {
                ip_address: address_of(s.subrange(0, o.address_end)),
                identifier: s.subrange(o.identity, o.identity_end),
                user_id: s.subrange(o.user, o.user_end),
                timestamp: clf_time(time),
                request,
                response_code: code,
                response_size: size,
            },
        ),
{
    reveal_with_fuel(start_of, 8);
    assert(start_of(s, 1) == Ok::<int, ParseFailure>(o.identity));
    assert(start_of(s, 2) == Ok::<int, ParseFailure>(o.user));
    assert(start_of(s, 3) == Ok::<int, ParseFailure>(o.time));
    assert(start_of(s, 4) == Ok::<int, ParseFailure>(o.request));
    assert(start_of(s, 5) == Ok::<int, ParseFailure>(o.code));
    assert(start_of(s, 6) == Ok::<int, ParseFailure>(o.size));
}

/// A line that writes every field in full is read back field by field:
/// texts come back as they were written, numbers with their values, the
/// address and the time as their texts are read. No default is applied.
pub proof fn lemma_written_line_reads_back(
    address: Seq<char>,
    identity: Seq<char>,
    user: Seq<char>,
    time: Seq<char>,
    request: RequestView,
    code: u16,
    size: u128,
)
    requires
        is_token(address),
        is_token(identity),
        is_token(user),
        lacks(time, ']'),
        is_token(request.method),
        is_token(request.path),
        request.protocol.len() >= 1,
        CharClass::NonBlank.holds(request.protocol[0]),
        lacks(request.protocol, '"'),
    ensures
        line_entry(written_line(address, identity, user, time, request, code, size)) == Ok::<
            LogEntryView,
            ParseFailure,
        >(
            LogEntryView {
                ip_address: address_of(address),
                identifier: identity,
                user_id: user,
                timestamp: clf_time(time),
                request,
                response_code: code,
                response_size: size,
            },
        ),
{
    let s = written_line(address, identity, user, time, request, code, size);
    let c = decimal(code as nat);
    let z = decimal(size as nat);
    let o = offsets_of(address, identity, user, time, request, c, z);
    lemma_numeral_reads_back(code as nat, false);
    lemma_written_line_is_laid_out(address, identity, user, time, request, code, size);
    lemma_tokens_are_scanned(s, address, identity, user, time, request, c, z);
    lemma_time_is_scanned(s, address, identity, user, time, request, c, z);
    lemma_request_is_scanned(s, address, identity, user, time, request, c, z);
    lemma_numbers_are_scanned(s, address, identity, user, time, request, code, size);
    lemma_scanned_line_is_read(s, o, time, request, code, size);
}

/// A timestamp that opens a bracket and never closes it makes the line
/// refused; no default stands in for it.
pub proof fn lemma_unclosed_bracket_is_refused(s: Seq<char>, at: int)
    requires
        start_of(s, 3) == Ok::<int, ParseFailure>(at),
        0 <= at < s.len(),
        s[at] == '[',
        forall|j: int| at < j < s.len() ==> s[j] != ']',
    ensures
        line_entry(s) == Err::<LogEntryView, ParseFailure>(
            ParseFailure { expected: Expected::Timestamp, at: at as usize },
        ),
{
    reveal_with_fuel(start_of, 4);
    lemma_run_end(s, at + 1, CharClass::Except(']'));
}

/// A request that opens a quote and never closes it makes the line refused;
/// no default stands in for it.
pub proof fn lemma_unclosed_quote_is_refused(s: Seq<char>, at: int)
    requires
        start_of(s, 4) == Ok::<int, ParseFailure>(at),
        0 <= at < s.len(),
        s[at] == '"',
        forall|j: int| at < j < s.len() ==> s[j] != '"',
    ensures
        line_entry(s) == Err::<LogEntryView, ParseFailure>(
            ParseFailure { expected: Expected::Request, at: at as usize },
        ),
{
    reveal_with_fuel(start_of, 4);
    let method_end = run_end(s, at + 1, CharClass::NonBlank);
    let path_start = run_end(s, method_end, CharClass::Blank);
    let path_end = run_end(s, path_start, CharClass::NonBlank);
    let protocol_start = run_end(s, path_end, CharClass::Blank);
    lemma_run_end(s, at + 1, CharClass::NonBlank);
    lemma_run_end(s, method_end, CharClass::Blank);
    lemma_run_end(s, path_start, CharClass::NonBlank);
    lemma_run_end(s, path_end, CharClass::Blank);
    lemma_run_end(s, protocol_start, CharClass::Except('"'));
}

/// A field that begins with neither its opening mark nor a dash makes the
/// line refused: a timestamp without a bracket, a request without a quote.
pub proof fn lemma_unmarked_field_is_refused(s: Seq<char>, index: nat, at: int)
    requires
        index == 3 || index == 4,
        start_of(s, index) == Ok::<int, ParseFailure>(at),
        0 <= at < s.len(),
        s[at] != '-',
        index == 3 ==> s[at] != '[',
        index == 4 ==> s[at] != '"',
    ensures
        line_entry(s) == Err::<LogEntryView, ParseFailure>(
            ParseFailure {
                expected: if index == 3 {
                    Expected::Timestamp
                } else {
                    Expected::Request
                },
                at: at as usize,
            },
        ),
{
    reveal_with_fuel(start_of, 4);
}

/// A line is read as a whole or not at all: where it is accepted, each of
/// its seven fields is there, each but the last is followed by a separator,
/// the last one ends the line, and the entry holds what the fields hold.
pub proof fn lemma_accepted_line_is_complete(s: Seq<char>)
    requires
        line_entry(s) is Ok,
    ensures
        line_entry(s) == Ok::<LogEntryView, ParseFailure>(entry_of(s)),
        forall|index: nat|
            index <= 6 ==> #[trigger] start_of(s, index) is Ok && field_end(
                s,
                index,
                start_of(s, index)->Ok_0,
            ) is Some,
        forall|index: nat|
            index < 6 ==> blank_at(
                s,
                field_end(s, index, (#[trigger] start_of(s, index))->Ok_0)->0,
            ) is Some,
        field_end(s, 6, start_of(s, 6)->Ok_0) == Some(s.len() as int),
{
    reveal_with_fuel(start_of, 8);
    lemma_run_end(s, start_of(s, 6)->Ok_0, CharClass::Digit);
}

/// How many numbers `parts` octets can write: 256 to the power of `parts`.
spec fn span(parts: nat) -> nat
    decreases parts,
{
    if parts == 0 {
        1
    } else {
        0x100 * span((parts - 1) as nat)
    }
}

/// The class of the digits that a part is written with.
spec fn digits(hex: bool) -> CharClass {
    if hex {
        CharClass::HexDigit
    } else {
        CharClass::Digit
    }
}

/// A part that is written where `t` has it is read back with its value.
proof fn lemma_part_reads_back(t: Seq<char>, at: int, n: nat, hex: bool)
    requires
        0 <= at,
        at + numeral(n, hex).len() <= t.len(),
        t.subrange(at, at + numeral(n, hex).len()) == numeral(n, hex),
        at + numeral(n, hex).len() < t.len() ==> !digits(hex).holds(
            t[at + numeral(n, hex).len()],
        ),
        hex ==> n < 0x1_0000,
        !hex ==> n < 0x100,
    ensures
        part_at(t, at, hex) == Some((n, at + numeral(n, hex).len())),
{
    let piece = numeral(n, hex);
    lemma_numeral_reads_back(n, hex);
    lemma_numeral_shape(n, hex);
    lemma_run_over_piece(t, at, piece, digits(hex));
    assert(t[at] == t.subrange(at, at + piece.len())[0]);
}

/// Octets that are written in `t` from `at` on are read back as the number
/// that they make.
proof fn lemma_octets_read_back(t: Seq<char>, at: int, bits: nat, parts: nat)
    requires
        0 <= at,
        1 <= parts <= 4,
        bits < span(parts),
        at + parts_text(bits, parts).len() <= t.len(),
        t.subrange(at, at + parts_text(bits, parts).len()) == parts_text(bits, parts),
        at + parts_text(bits, parts).len() < t.len() ==> !CharClass::Digit.holds(
            t[at + parts_text(bits, parts).len()],
        ),
    ensures
        octets_at(t, at, parts) == Some((bits, at + parts_text(bits, parts).len())),
    decreases parts,
{
    reveal_with_fuel(span, 2);
    let text = parts_text(bits, parts);
    let last = numeral(bits % 0x100, false);
    if parts == 1 {
        assert(bits % 0x100 == bits);
        lemma_part_reads_back(t, at, bits, false);
    } else {
        let front = parts_text(bits / 0x100, (parts - 1) as nat);
        let next = at + front.len() + 1;
        assert(text == front.push('.') + last);
        assert forall|i: int| 0 <= i < text.len() implies t[at + i] == text[i] by {
            assert(t[at + i] == t.subrange(at, at + text.len())[i]);
        }
        assert(t.subrange(at, at + front.len()) =~= front);
        assert(t[at + front.len()] == text[front.len() as int]);
        lemma_octets_read_back(t, at, bits / 0x100, (parts - 1) as nat);
        assert(t.subrange(next, next + last.len()) =~= last) by {
            assert forall|i: int| 0 <= i < last.len() implies t[next + i] == last[i] by {
                assert(t[at + (front.len() + 1 + i)] == text[front.len() + 1 + i]);
            }
        }
        lemma_part_reads_back(t, next, bits % 0x100, false);
    }
}

/// Octets are written with decimal digits and dots, and with nothing else.
proof fn lemma_parts_are_plain(bits: nat, parts: nat)
    ensures
        parts_text(bits, parts).len() >= 1,
        forall|i: int|
            0 <= i < parts_text(bits, parts).len() ==> CharClass::Digit.holds(
                #[trigger] parts_text(bits, parts)[i],
            ) || parts_text(bits, parts)[i] == '.',
    decreases parts,
{
    let text = parts_text(bits, parts);
    let last = numeral(bits % 0x100, false);
    lemma_numeral_reads_back(bits % 0x100, false);
    if parts > 1 {
        let front = parts_text(bits / 0x100, (parts - 1) as nat);
        lemma_parts_are_plain(bits / 0x100, (parts - 1) as nat);
        assert forall|i: int| 0 <= i < text.len() implies CharClass::Digit.holds(
            #[trigger] text[i],
        ) || text[i] == '.' by {
            if i < front.len() {
                assert(text[i] == front[i]);
            } else if i > front.len() {
                assert(text[i] == last[i - front.len() - 1]);
                assert(CharClass::Digit.holds(last[i - front.len() - 1]));
            }
        }
    } else {
        assert forall|i: int| 0 <= i < text.len() implies CharClass::Digit.holds(
            #[trigger] text[i],
        ) || text[i] == '.' by {
            assert(CharClass::Digit.holds(last[i]));
        }
    }
}

/// A version 4 address is written as one token.
pub proof fn lemma_written_v4_is_token(bits: u32)
    ensures
        is_token(address_text(IpAddress::V4(bits))),
{
    lemma_parts_are_plain(bits as nat, 4);
}

/// A version 4 address that is written is read back: the text that
/// `push_text` writes for it is a text that `parse` reads as that address.
pub proof fn lemma_written_v4_reads_back(bits: u32)
    ensures
        parse_address(address_text(IpAddress::V4(bits))) == Some(IpAddress::V4(bits)),
        address_of(address_text(IpAddress::V4(bits))) == IpAddress::V4(bits),
{
    let t = address_text(IpAddress::V4(bits));
    assert(t.subrange(0, t.len() as int) =~= t);
    reveal_with_fuel(span, 5);
    lemma_octets_read_back(t, 0, bits as nat, 4);
}

/// A text without a dot holds no version 4 address.
proof fn lemma_no_dot_no_octets(t: Seq<char>, at: int)
    requires
        lacks(t, '.'),
    ensures
        v4_at(t, at) is None,
{
    reveal_with_fuel(octets_at, 4);
}

/// Groups are written with hexadecimal digits and colons, and with nothing
/// else.
proof fn lemma_joined_is_plain(groups: Seq<u16>)
    ensures
        groups.len() >= 1 ==> joined(groups).len() >= 1,
        forall|i: int|
            0 <= i < joined(groups).len() ==> CharClass::HexDigit.holds(
                #[trigger] joined(groups)[i],
            ) || joined(groups)[i] == ':',
    decreases groups.len(),
{
    let text = joined(groups);
    if groups.len() >= 1 {
        let last = numeral(groups.last() as nat, true);
        lemma_numeral_reads_back(groups.last() as nat, true);
        if groups.len() == 1 {
            assert forall|i: int| 0 <= i < text.len() implies CharClass::HexDigit.holds(
                #[trigger] text[i],
            ) || text[i] == ':' by {
                assert(CharClass::HexDigit.holds(last[i]));
            }
        } else {
            let front = joined(groups.drop_last());
            lemma_joined_is_plain(groups.drop_last());
            assert forall|i: int| 0 <= i < text.len() implies CharClass::HexDigit.holds(
                #[trigger] text[i],
            ) || text[i] == ':' by {
                if i < front.len() {
                    assert(text[i] == front[i]);
                } else if i > front.len() {
                    assert(text[i] == last[i - front.len() - 1]);
                    assert(CharClass::HexDigit.holds(last[i - front.len() - 1]));
                }
            }
        }
    }
}

/// Reading groups that are written in `t` from `at` on comes to their end
/// with these groups seen.
proof fn lemma_groups_read_back(t: Seq<char>, at: int, groups: Seq<u16>, limit: nat)
    requires
        0 <= at,
        1 <= groups.len() <= limit <= 8,
        lacks(t, '.'),
        at + joined(groups).len() <= t.len(),
        t.subrange(at, at + joined(groups).len()) == joined(groups),
        at + joined(groups).len() < t.len() ==> !CharClass::HexDigit.holds(
            t[at + joined(groups).len()],
        ),
    ensures
        groups_from(t, at, limit, Seq::empty()) == groups_from(
            t,
            at + joined(groups).len(),
            limit,
            groups,
        ),
    decreases groups.len(),
{
    let text = joined(groups);
    let group = groups.last();
    let last = numeral(group as nat, true);
    if groups.len() == 1 {
        lemma_no_dot_no_octets(t, at);
        lemma_part_reads_back(t, at, group as nat, true);
        assert(groups =~= Seq::<u16>::empty().push(group));
    } else {
        let seen = groups.drop_last();
        let front = joined(seen);
        let colon = at + front.len();
        let next = colon + 1;
        assert(text == front.push(':') + last);
        assert forall|i: int| 0 <= i < text.len() implies t[at + i] == text[i] by {
            assert(t[at + i] == t.subrange(at, at + text.len())[i]);
        }
        assert(t.subrange(at, at + front.len()) =~= front);
        assert(t[colon] == text[front.len() as int]);
        lemma_groups_read_back(t, at, seen, limit);
        lemma_no_dot_no_octets(t, next);
        assert(t.subrange(next, next + last.len()) =~= last) by {
            assert forall|i: int| 0 <= i < last.len() implies t[next + i] == last[i] by {
                assert(t[at + (front.len() + 1 + i)] == text[front.len() + 1 + i]);
            }
        }
        lemma_part_reads_back(t, next, group as nat, true);
        assert(groups =~= seen.push(group));
        assert(groups_from(t, colon, limit, seen) == groups_from(
            t,
            at + text.len(),
            limit,
            seen.push(group),
        ));
    }
}

/// A run of zero groups ends within the groups, and its groups are zero.
proof fn lemma_zero_run(groups: Seq<u16>, at: int)
    requires
        0 <= at <= groups.len(),
    ensures
        at + zero_run(groups, at) <= groups.len(),
        forall|i: int| at <= i < at + zero_run(groups, at) ==> groups[i] == 0,
    decreases groups.len() - at,
{
    if at < groups.len() && groups[at] == 0 {
        lemma_zero_run(groups, at + 1);
    }
}

/// The longest run of zero groups is a run of zero groups.
proof fn lemma_longest_is_run(groups: Seq<u16>, at: int, best: (int, nat))
    requires
        0 <= at,
        0 <= best.0 <= groups.len(),
        best.1 <= zero_run(groups, best.0),
    ensures
        0 <= longest_run(groups, at, best).0 <= groups.len(),
        longest_run(groups, at, best).1 <= zero_run(groups, longest_run(groups, at, best).0),
    decreases groups.len() - at,
{
    if at < groups.len() {
        if zero_run(groups, at) > best.1 {
            lemma_longest_is_run(groups, at + 1, (at, zero_run(groups, at)));
        } else {
            lemma_longest_is_run(groups, at + 1, best);
        }
    }
}

/// The eight groups of a number make that number.
proof fn lemma_groups_make_bits(bits: u128)
    ensures
        groups_of_bits(bits).len() == 8,
        v6_bits(groups_of_bits(bits)) == bits,
{
    let b1 = bits / 0x1_0000;
    let b2 = b1 / 0x1_0000;
    let b3 = b2 / 0x1_0000;
    let b4 = b3 / 0x1_0000;
    let b5 = b4 / 0x1_0000;
    let b6 = b5 / 0x1_0000;
    let b7 = b6 / 0x1_0000;
    assert(bits / 0x1_0000_0000 == bits / 0x1_0000 / 0x1_0000) by (bit_vector);
    assert(bits / 0x1_0000_0000_0000 == bits / 0x1_0000_0000 / 0x1_0000) by (bit_vector);
    assert(bits / 0x1_0000_0000_0000_0000 == bits / 0x1_0000_0000_0000 / 0x1_0000)
        by (bit_vector);
    assert(bits / 0x1_0000_0000_0000_0000_0000 == bits / 0x1_0000_0000_0000_0000 / 0x1_0000)
        by (bit_vector);
    assert(bits / 0x1_0000_0000_0000_0000_0000_0000 == bits / 0x1_0000_0000_0000_0000_0000
        / 0x1_0000) by (bit_vector);
    assert(bits / 0x1_0000_0000_0000_0000_0000_0000_0000 == bits
        / 0x1_0000_0000_0000_0000_0000_0000 / 0x1_0000) by (bit_vector);
    assert(b2 == bits / 0x1_0000_0000);
    assert(b3 == bits / 0x1_0000_0000_0000);
    assert(b4 == bits / 0x1_0000_0000_0000_0000);
    assert(b5 == bits / 0x1_0000_0000_0000_0000_0000);
    assert(b6 == bits / 0x1_0000_0000_0000_0000_0000_0000);
    assert(b7 == bits / 0x1_0000_0000_0000_0000_0000_0000_0000);
    assert(b7 < 0x1_0000);
    let g = groups_of_bits(bits);
    assert(g[0] == b7 && g[1] == b6 % 0x1_0000 && g[2] == b5 % 0x1_0000 && g[3] == b4 % 0x1_0000
        && g[4] == b3 % 0x1_0000 && g[5] == b2 % 0x1_0000 && g[6] == b1 % 0x1_0000 && g[7] == bits
        % 0x1_0000);
    assert(b6 == b7 * 0x1_0000 + g[1]);
    assert(b5 == b6 * 0x1_0000 + g[2]);
    assert(b4 == b5 * 0x1_0000 + g[3]);
    assert(b3 == b4 * 0x1_0000 + g[4]);
    assert(b2 == b3 * 0x1_0000 + g[5]);
    assert(b1 == b2 * 0x1_0000 + g[6]);
    assert(bits == b1 * 0x1_0000 + g[7]);
}

/// Where no octet stands, no version 4 address stands.
proof fn lemma_no_octet_no_octets(t: Seq<char>, at: int)
    requires
        part_at(t, at, false) is None,
    ensures
        v4_at(t, at) is None,
{
    reveal_with_fuel(octets_at, 4);
}

/// Where the text ends or something other than a hexadecimal digit stands,
/// no group stands.
proof fn lemma_no_digit_no_group(t: Seq<char>, at: int)
    requires
        0 <= at <= t.len(),
        at < t.len() ==> !CharClass::HexDigit.holds(t[at]),
    ensures
        part_at(t, at, true) is None,
{
}

/// Reading groups stops where no group follows: at the start of the groups
/// where none stands there, and after a group where the text ends or no
/// group stands after the colon.
proof fn lemma_reading_stops(t: Seq<char>, at: int, limit: nat, seen: Seq<u16>)
    requires
        lacks(t, '.'),
        0 <= at <= t.len(),
        seen.len() == 0 ==> part_at(t, at, true) is None,
        seen.len() > 0 && at < t.len() && t[at] == ':' ==> part_at(t, at + 1, true) is None,
    ensures
        groups_from(t, at, limit, seen) == (seen, at, false),
{
    lemma_no_dot_no_octets(t, at);
    lemma_no_dot_no_octets(t, at + 1);
}

/// The text of a mapped version 4 address: the mark, then the address.
proof fn lemma_mapped_text(bits: u128)
    requires
        is_mapped(groups_of_bits(bits)),
    ensures
        ({
            let t = v6_text(bits);
            let tail = parts_text((bits % 0x1_0000_0000) as nat, 4);
            &&& t.len() == 7 + tail.len()
            &&& t[0] == ':' && t[1] == ':' && t[2] == 'f' && t[6] == ':'
            &&& t.subrange(2, 6) == numeral(0xffff, true)
            &&& t.subrange(7, t.len() as int) == tail
            &&& is_token(t)
        }),
{
    reveal_strlit("::ffff:");
    let low = (bits % 0x1_0000_0000) as nat;
    let tail = parts_text(low, 4);
    let t = v6_text(bits);
    assert(t == "::ffff:"@ + tail);
    lemma_parts_are_plain(low, 4);
    assert(t.subrange(7, t.len() as int) =~= tail);
    let mark = seq!['f', 'f', 'f', 'f'];
    assert(t.subrange(2, 6) =~= mark);
    assert(numeral(0xffff, true) =~= mark) by {
        reveal_with_fuel(numeral, 5);
    }
    assert forall|i: int| 0 <= i < t.len() implies CharClass::NonBlank.holds(#[trigger] t[i]) by {
        if i >= 7 {
            assert(t[i] == tail[i - 7]);
        }
    }
}

/// A mapped version 4 address that is written is read back.
proof fn lemma_mapped_reads_back(bits: u128)
    requires
        is_mapped(groups_of_bits(bits)),
    ensures
        v6_groups(v6_text(bits)) == Some(groups_of_bits(bits)),
        v4_at(v6_text(bits), 0) is None,
        is_token(v6_text(bits)),
{
    let groups = groups_of_bits(bits);
    let low = (bits % 0x1_0000_0000) as nat;
    let tail = parts_text(low, 4);
    let t = v6_text(bits);
    lemma_mapped_text(bits);
    assert(low < span(4)) by {
        reveal_with_fuel(span, 5);
    }
    lemma_octets_read_back(t, 7, low, 4);
    lemma_part_reads_back(t, 2, 0xffff, true);
    assert(t[2] == t.subrange(2, 6)[0]);
    lemma_numeral_reads_back(0xffff, true);
    assert(part_at(t, 0, true) is None);
    assert(part_at(t, 0, false) is None);
    assert(part_at(t, 2, false) is None);
    lemma_no_octet_no_octets(t, 0);
    lemma_no_octet_no_octets(t, 2);
    let none = Seq::<u16>::empty();
    assert(groups_from(t, 0, 8, none) == (none, 0int, false));
    let seen = none.push(0xffffu16);
    assert(groups_from(t, 2, 7, none) == groups_from(t, 6, 7, seen));
    let read = seen.push((low / 0x1_0000) as u16).push((low % 0x1_0000) as u16);
    assert(groups_from(t, 6, 7, seen) == (read, t.len() as int, true));
    assert(none + Seq::new(5, |i: int| 0u16) + read =~= groups);
}

/// The text of a version 6 address that is written with `::` in the place
/// of its longest run of zero groups.
proof fn lemma_shortened_text(bits: u128)
    requires
        !is_mapped(groups_of_bits(bits)),
        longest_run(groups_of_bits(bits), 0, (0, 0)).1 > 1,
    ensures
        ({
            let groups = groups_of_bits(bits);
            let (start, len) = longest_run(groups, 0, (0, 0));
            let front = joined(groups.subrange(0, start));
            let back = joined(groups.subrange(start + len, 8));
            let t = v6_text(bits);
            &&& 0 <= start && start + len <= 8
            &&& forall|i: int| start <= i < start + len ==> groups[i] == 0
            &&& t.len() == front.len() + 2 + back.len()
            &&& t.subrange(0, front.len() as int) == front
            &&& t[front.len() as int] == ':'
            &&& t[front.len() as int + 1] == ':'
            &&& t.subrange(front.len() as int + 2, t.len() as int) == back
            &&& lacks(t, '.')
            &&& is_token(t)
        }),
{
    reveal_strlit("::");
    let groups = groups_of_bits(bits);
    let (start, len) = longest_run(groups, 0, (0, 0));
    lemma_longest_is_run(groups, 0, (0, 0));
    lemma_zero_run(groups, start);
    let head = groups.subrange(0, start);
    let tail = groups.subrange(start + len, 8);
    let front = joined(head);
    let back = joined(tail);
    let t = v6_text(bits);
    assert(t == front + "::"@ + back);
    lemma_joined_is_plain(head);
    lemma_joined_is_plain(tail);
    let gap = front.len() as int;
    assert(t.subrange(0, gap) =~= front);
    assert(t.subrange(gap + 2, t.len() as int) =~= back);
    assert forall|i: int| 0 <= i < t.len() implies (CharClass::HexDigit.holds(#[trigger] t[i])
        || t[i] == ':') by {
        if i < gap {
            assert(t[i] == front[i]);
        } else if i >= gap + 2 {
            assert(t[i] == back[i - gap - 2]);
        }
    }
}

/// The groups before `::` are read up to it.
proof fn lemma_head_is_read(t: Seq<char>, head: Seq<u16>)
    requires
        lacks(t, '.'),
        head.len() < 8,
        joined(head).len() + 2 <= t.len(),
        t.subrange(0, joined(head).len() as int) == joined(head),
        t[joined(head).len() as int] == ':',
        t[joined(head).len() as int + 1] == ':',
    ensures
        groups_from(t, 0, 8, Seq::empty()) == (head, joined(head).len() as int, false),
{
    let gap = joined(head).len() as int;
    lemma_no_digit_no_group(t, gap);
    lemma_no_digit_no_group(t, gap + 1);
    if head.len() >= 1 {
        lemma_groups_read_back(t, 0, head, 8);
        lemma_reading_stops(t, gap, 8, head);
    } else {
        assert(head =~= Seq::<u16>::empty());
        lemma_reading_stops(t, 0, 8, Seq::empty());
    }
}

/// The groups after `::` are read up to the end of the text.
proof fn lemma_tail_is_read(t: Seq<char>, from: int, tail: Seq<u16>, limit: nat)
    requires
        lacks(t, '.'),
        0 <= from,
        tail.len() < limit <= 8,
        from + joined(tail).len() == t.len(),
        t.subrange(from, t.len() as int) == joined(tail),
    ensures
        groups_from(t, from, limit, Seq::empty()) == (tail, t.len() as int, false),
{
    if tail.len() >= 1 {
        lemma_groups_read_back(t, from, tail, limit);
        lemma_reading_stops(t, t.len() as int, limit, tail);
    } else {
        assert(tail =~= Seq::<u16>::empty());
        lemma_no_digit_no_group(t, from);
        lemma_reading_stops(t, from, limit, Seq::empty());
    }
}

/// A version 6 address that is written with `::` in the place of its
/// longest run of zero groups is read back.
proof fn lemma_shortened_reads_back(bits: u128)
    requires
        !is_mapped(groups_of_bits(bits)),
        longest_run(groups_of_bits(bits), 0, (0, 0)).1 > 1,
    ensures
        v6_groups(v6_text(bits)) == Some(groups_of_bits(bits)),
        v4_at(v6_text(bits), 0) is None,
        is_token(v6_text(bits)),
{
    let groups = groups_of_bits(bits);
    let (start, len) = longest_run(groups, 0, (0, 0));
    let head = groups.subrange(0, start);
    let tail = groups.subrange(start + len, 8);
    let t = v6_text(bits);
    let gap = joined(head).len() as int;
    let limit = (7 - start) as nat;
    lemma_shortened_text(bits);
    lemma_no_dot_no_octets(t, 0);
    lemma_head_is_read(t, head);
    lemma_tail_is_read(t, gap + 2, tail, limit);
    let zeros = Seq::new((8 - head.len() - tail.len()) as nat, |i: int| 0u16);
    assert(head + zeros + tail =~= groups);
    assert(v6_groups(t) == Some(head + zeros + tail));
}

/// A version 6 address that is written with all its groups is read back.
proof fn lemma_unshortened_reads_back(bits: u128)
    requires
        !is_mapped(groups_of_bits(bits)),
        longest_run(groups_of_bits(bits), 0, (0, 0)).1 <= 1,
    ensures
        v6_groups(v6_text(bits)) == Some(groups_of_bits(bits)),
        v4_at(v6_text(bits), 0) is None,
        is_token(v6_text(bits)),
{
    let groups = groups_of_bits(bits);
    let t = v6_text(bits);
    assert(t == joined(groups));
    lemma_joined_is_plain(groups);
    assert(lacks(t, '.'));
    lemma_no_dot_no_octets(t, 0);
    assert(t.subrange(0, t.len() as int) =~= t);
    lemma_groups_read_back(t, 0, groups, 8);
    assert(groups_from(t, t.len() as int, 8, groups) == (groups, t.len() as int, false));
}

/// A version 6 address is written as one token, and the text that
/// `push_text` writes for it is a text that `parse` reads as that address.
pub proof fn lemma_written_v6_reads_back(bits: u128)
    ensures
        is_token(address_text(IpAddress::V6(bits))),
        parse_address(address_text(IpAddress::V6(bits))) == Some(IpAddress::V6(bits)),
        address_of(address_text(IpAddress::V6(bits))) == IpAddress::V6(bits),
{
    let groups = groups_of_bits(bits);
    lemma_groups_make_bits(bits);
    if is_mapped(groups) {
        lemma_mapped_reads_back(bits);
    } else if longest_run(groups, 0, (0, 0)).1 > 1 {
        lemma_shortened_reads_back(bits);
    } else {
        lemma_unshortened_reads_back(bits);
    }
}

/// An address that is written is read back: it is written as one token, and
/// the text that `push_text` writes for it is a text that `parse` reads as
/// that address.
pub proof fn lemma_written_address_reads_back(address: IpAddress)
    ensures
        is_token(address_text(address)),
        parse_address(address_text(address)) == Some(address),
        address_of(address_text(address)) == address,
{
    match address {
        IpAddress::V4(bits) => {
            lemma_written_v4_is_token(bits);
            lemma_written_v4_reads_back(bits);
        },
        IpAddress::V6(bits) => {
            lemma_written_v6_reads_back(bits);
        },
    }
}

/// An entry that is written in full is read back as it was: the line that
/// writes its address as `push_text` does, its texts as they are, its time
/// in brackets and its numbers in decimal holds that entry.
pub proof fn lemma_written_entry_reads_back(entry: LogEntryView, time: Seq<char>)
    requires
        is_token(entry.identifier),
        is_token(entry.user_id),
        lacks(time, ']'),
        entry.timestamp == clf_time(time),
        is_token(entry.request.method),
        is_token(entry.request.path),
        entry.request.protocol.len() >= 1,
        CharClass::NonBlank.holds(entry.request.protocol[0]),
        lacks(entry.request.protocol, '"'),
    ensures
        line_entry(
            written_line(
                address_text(entry.ip_address),
                entry.identifier,
                entry.user_id,
                time,
                entry.request,
                entry.response_code,
                entry.response_size,
            ),
        ) == Ok::<LogEntryView, ParseFailure>(entry),
{
    lemma_written_address_reads_back(entry.ip_address);
    lemma_written_line_reads_back(
        address_text(entry.ip_address),
        entry.identifier,
        entry.user_id,
        time,
        entry.request,
        entry.response_code,
        entry.response_size,
    );
}

} // verus!
