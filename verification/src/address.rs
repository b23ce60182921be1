//! Network addresses as plain numbers.

use crate::tally::TallyKey;
use crate::text::{digit_value, numeral, numeral_value, push_numeral, push_text, read_numeral, run_end, scan_run, CharClass};
use vstd::prelude::*;

verus! {

/// A network address: the 32 bits of a version 4 address or the 128 bits of a
/// version 6 address, most significant part first.
#[derive(Clone, Copy, Debug, PartialEq, Eq, Hash, Structural)]
pub enum IpAddress {
    /// A version 4 address, its four octets in one number.
    V4(u32),
    /// A version 6 address, its eight groups in one number.
    V6(u128),
}

impl View for IpAddress {
    type V = IpAddress;

    open spec fn view(&self) -> IpAddress {
        *self
    }
}

impl TallyKey for IpAddress {
    fn same_key(&self, other: &Self) -> (same: bool) {
        *self == *other
    }
}

/// The number that four octets make, the first one most significant.
pub open spec fn v4_bits(a: u8, b: u8, c: u8, d: u8) -> u32 {
    (a as int * 0x100_0000 + b as int * 0x1_0000 + c as int * 0x100 + d as int) as u32
}

/// The number that eight groups make, the first one most significant.
pub open spec fn v6_bits(groups: Seq<u16>) -> u128 {
    (groups[0] as int * 0x1_0000_0000_0000_0000_0000_0000_0000 + groups[1] as int
        * 0x1_0000_0000_0000_0000_0000_0000 + groups[2] as int * 0x1_0000_0000_0000_0000_0000
        + groups[3] as int * 0x1_0000_0000_0000_0000 + groups[4] as int * 0x1_0000_0000_0000
        + groups[5] as int * 0x1_0000_0000 + groups[6] as int * 0x1_0000
        + groups[7] as int) as u128
}

/// The address that stands for one that is unknown: version 4, all zero.
pub open spec fn unspecified() -> IpAddress {
    IpAddress::V4(0)
}

/// The number written at `at`, with the index at which it ends: a group of
/// one to four hexadecimal digits where `hex` is set; otherwise an octet of
/// one to three decimal digits, at most 255 and without a leading zero. The
/// digits are the longest run there is, so a fifth digit spoils a group.
pub open spec fn part_at(t: Seq<char>, at: int, hex: bool) -> Option<(nat, int)> {
    if hex {
        let end = run_end(t, at, CharClass::HexDigit);
        if 1 <= end - at <= 4 {
            Some((numeral_value(t.subrange(at, end), true), end))
        } else {
            None
        }
    } else {
        let end = run_end(t, at, CharClass::Digit);
        let value = numeral_value(t.subrange(at, end), false);
        if 1 <= end - at <= 3 && (end - at == 1 || t[at] != '0') && value <= 255 {
            Some((value, end))
        } else {
            None
        }
    }
}

/// The number that `count` octets with dots between them make, read from
/// `at`, with the index at which they end.
pub open spec fn octets_at(t: Seq<char>, at: int, count: nat) -> Option<(nat, int)>
    decreases count,
{
    if count <= 1 {
        part_at(t, at, false)
    } else {
        match octets_at(t, at, (count - 1) as nat) {
            Some((value, end)) => if end < t.len() && t[end] == '.' {
                match part_at(t, end + 1, false) {
                    Some((octet, next)) => Some((value * 0x100 + octet, next)),
                    None => None,
                }
            } else {
                None
            },
            None => None,
        }
    }
}

/// The version 4 address written at `at`, with the index at which it ends.
pub open spec fn v4_at(t: Seq<char>, at: int) -> Option<(nat, int)> {
    octets_at(t, at, 4)
}

/// The groups of a version 6 address read from `at` after the groups `seen`,
/// up to `limit` groups in all, with the index at which reading stops and
/// whether it stopped after a version 4 address. Groups stand with colons
/// between them. Where at least two groups are still missing, a version 4
/// address may stand in their place, and it ends the reading.
pub open spec fn groups_from(t: Seq<char>, at: int, limit: nat, seen: Seq<u16>) -> (
    Seq<u16>,
    int,
    bool,
)
    decreases limit - seen.len(),
{
    if seen.len() >= limit {
        (seen, at, false)
    } else {
        let first = seen.len() == 0;
        let start = if first {
            at
        } else {
            at + 1
        };
        let joined = first || (at < t.len() && t[at] == ':');
        if joined && seen.len() + 1 < limit && v4_at(t, start) is Some {
            let (bits, end) = v4_at(t, start)->0;
            (seen.push((bits / 0x1_0000) as u16).push((bits % 0x1_0000) as u16), end, true)
        } else if joined && part_at(t, start, true) is Some {
            let (group, end) = part_at(t, start, true)->0;
            groups_from(t, end, limit, seen.push(group as u16))
        } else {
            (seen, at, false)
        }
    }
}

/// The eight groups of the version 6 address that `t` writes: either all
/// eight, or fewer with one `::` that stands for the groups left out, which
/// are zero and at least one.
pub open spec fn v6_groups(t: Seq<char>) -> Option<Seq<u16>> {
    let (head, gap, embedded) = groups_from(t, 0, 8, Seq::empty());
    if head.len() == 8 {
        if gap == t.len() {
            Some(head)
        } else {
            None
        }
    } else if embedded || !(gap + 1 < t.len() && t[gap] == ':' && t[gap + 1] == ':') {
        None
    } else {
        let (tail, end, _) = groups_from(t, gap + 2, (7 - head.len()) as nat, Seq::empty());
        if end == t.len() {
            Some(head + Seq::new((8 - head.len() - tail.len()) as nat, |i: int| 0u16) + tail)
        } else {
            None
        }
    }
}

/// The address that `t` writes, if it writes one: a version 4 address in
/// dotted decimal, or a version 6 address in groups of hexadecimal digits.
/// A text that begins with a version 4 address and goes on is no address.
pub open spec fn parse_address(t: Seq<char>) -> Option<IpAddress> {
    match v4_at(t, 0) {
        Some((bits, end)) => if end == t.len() {
            Some(IpAddress::V4(bits as u32))
        } else {
            None
        },
        None => match v6_groups(t) {
            Some(groups) => Some(IpAddress::V6(v6_bits(groups))),
            None => None,
        },
    }
}

/// The address that `t` stands for in a log: the one that it writes, or the
/// unspecified address where it writes none.
pub open spec fn address_of(t: Seq<char>) -> IpAddress {
    match parse_address(t) {
        Some(address) => address,
        None => unspecified(),
    }
}

/// A numeral of up to four digits is worth less than 65536.
pub proof fn lemma_short_value(digits: Seq<char>, hex: bool)
    requires
        digits.len() <= 4,
    ensures
        digits.len() == 0 ==> numeral_value(digits, hex) == 0,
        digits.len() <= 1 ==> numeral_value(digits, hex) <= 0xf,
        digits.len() <= 2 ==> numeral_value(digits, hex) <= 0xff,
        digits.len() <= 3 ==> numeral_value(digits, hex) <= 0xfff,
        numeral_value(digits, hex) <= 0xffff,
    decreases digits.len(),
{
    if digits.len() > 0 {
        lemma_short_value(digits.drop_last(), hex);
        assert(digit_value(digits.last()) <= 15);
    }
}

/// Reads the number written at `at`, as `part_at` has it.
fn read_part(t: &[char], at: usize, hex: bool) -> (part: Option<(u16, usize)>)
    requires
        at <= t@.len(),
    ensures
        match part {
            Some((value, end)) => part_at(t@, at as int, hex) == Some((value as nat, end as int))
                && at < end <= t@.len(),
            None => part_at(t@, at as int, hex) is None,
        },
{
    let class = if hex {
        CharClass::HexDigit
    } else {
        CharClass::Digit
    };
    let end = scan_run(t, at, class);
    let limit: usize = if hex {
        4
    } else {
        3
    };
    if end == at || end - at > limit {
        return None;
    }
    if !hex && end - at > 1 && t[at] == '0' {
        return None;
    }
    proof {
        lemma_short_value(t@.subrange(at as int, end as int), hex);
    }
    let value: u128 = read_numeral(t, at, end, hex, 0xffff);
    if !hex && value > 255 {
        return None;
    }
    Some((value as u16, end))
}

/// Reads the version 4 address written at `at`, as `v4_at` has it.
fn read_v4(t: &[char], at: usize) -> (found: Option<(u32, usize)>)
    requires
        at <= t@.len(),
    ensures
        match found {
            Some((bits, end)) => v4_at(t@, at as int) == Some((bits as nat, end as int)) && at
                < end <= t@.len(),
            None => v4_at(t@, at as int) is None,
        },
{
    proof {
        reveal_with_fuel(octets_at, 4);
    }
    let (first, mut end) = match read_part(t, at, false) {
        Some(part) => part,
        None => return None,
    };
    let mut bits: u32 = first as u32;
    let mut count: usize = 1;
    while count < 4
        invariant
            1 <= count <= 4,
            at < end <= t@.len(),
            bits < 0x100 * 0x100 * 0x100 * 0x100,
            count < 4 ==> bits < 0x100 * 0x100 * 0x100,
            count < 3 ==> bits < 0x100 * 0x100,
            count < 2 ==> bits < 0x100,
            octets_at(t@, at as int, count as nat) == Some((bits as nat, end as int)),
        decreases 4 - count,
    {
        proof {
            reveal_with_fuel(octets_at, 4);
        }
        if end >= t.len() || t[end] != '.' {
            return None;
        }
        match read_part(t, end + 1, false) {
            Some((octet, next)) => {
                bits = bits * 0x100 + octet as u32;
                end = next;
            },
            None => {
                return None;
            },
        }
        count += 1;
    }
    Some((bits, end))
}

/// Reads groups from `at`, up to `limit` of them, as `groups_from` has them.
fn read_groups(t: &[char], at: usize, limit: usize) -> (read: (Vec<u16>, usize, bool))
    requires
        at <= t@.len(),
        limit <= 8,
    ensures
        (read.0@, read.1 as int, read.2) == groups_from(
            t@,
            at as int,
            limit as nat,
            Seq::empty(),
        ),
        read.0@.len() <= limit,
        at <= read.1 <= t@.len(),
{
    let mut groups: Vec<u16> = Vec::new();
    let mut end: usize = at;
    while groups.len() < limit
        invariant
            limit <= 8,
            groups@.len() <= limit,
            at <= end <= t@.len(),
            groups_from(t@, at as int, limit as nat, Seq::empty()) == groups_from(
                t@,
                end as int,
                limit as nat,
                groups@,
            ),
        decreases limit - groups@.len(),
    {
        let first = groups.len() == 0;
        if !first && (end >= t.len() || t[end] != ':') {
            return (groups, end, false);
        }
        let start: usize = if first {
            end
        } else {
            end + 1
        };
        if groups.len() + 1 < limit {
            match read_v4(t, start) {
                Some((bits, next)) => {
                    groups.push((bits / 0x1_0000) as u16);
                    groups.push((bits % 0x1_0000) as u16);
                    return (groups, next, true);
                },
                None => {},
            }
        }
        match read_part(t, start, true) {
            Some((group, next)) => {
                groups.push(group);
                end = next;
            },
            None => {
                return (groups, end, false);
            },
        }
    }
    (groups, end, false)
}

/// The lowest `parts` octets of `bits` in decimal, most significant first,
/// with dots between them.
pub open spec fn parts_text(bits: nat, parts: nat) -> Seq<char>
    decreases parts,
{
    if parts <= 1 {
        numeral(bits % 0x100, false)
    } else {
        parts_text(bits / 0x100, (parts - 1) as nat).push('.') + numeral(bits % 0x100, false)
    }
}

/// The eight groups of the number of a version 6 address, most significant
/// first.
pub open spec fn groups_of_bits(bits: u128) -> Seq<u16> {
    seq![
        (bits / 0x1_0000_0000_0000_0000_0000_0000_0000) as u16,
        (bits / 0x1_0000_0000_0000_0000_0000_0000 % 0x1_0000) as u16,
        (bits / 0x1_0000_0000_0000_0000_0000 % 0x1_0000) as u16,
        (bits / 0x1_0000_0000_0000_0000 % 0x1_0000) as u16,
        (bits / 0x1_0000_0000_0000 % 0x1_0000) as u16,
        (bits / 0x1_0000_0000 % 0x1_0000) as u16,
        (bits / 0x1_0000 % 0x1_0000) as u16,
        (bits % 0x1_0000) as u16,
    ]
}

/// Groups in hexadecimal with colons between them; nothing for no groups.
pub open spec fn joined(groups: Seq<u16>) -> Seq<char>
    decreases groups.len(),
{
    if groups.len() == 0 {
        Seq::empty()
    } else if groups.len() == 1 {
        numeral(groups[0] as nat, true)
    } else {
        joined(groups.drop_last()).push(':') + numeral(groups.last() as nat, true)
    }
}

/// How many groups in a row are zero from the group at `at` on.
pub open spec fn zero_run(groups: Seq<u16>, at: int) -> nat
    decreases groups.len() - at,
{
    if 0 <= at < groups.len() && groups[at] == 0 {
        1 + zero_run(groups, at + 1)
    } else {
        0
    }
}

/// The longest run of zero groups that begins at `at` or later, where it is
/// longer than the run `best`, and `best` otherwise: where it begins and how
/// long it is. Of two runs of the same length the earlier one is kept.
pub open spec fn longest_run(groups: Seq<u16>, at: int, best: (int, nat)) -> (int, nat)
    decreases groups.len() - at,
{
    if 0 <= at < groups.len() {
        if zero_run(groups, at) > best.1 {
            longest_run(groups, at + 1, (at, zero_run(groups, at)))
        } else {
            longest_run(groups, at + 1, best)
        }
    } else {
        best
    }
}

/// Whether the groups are those of a version 4 address mapped into version
/// 6: five groups of zero, then `ffff`.
pub open spec fn is_mapped(groups: Seq<u16>) -> bool {
    groups[0] == 0 && groups[1] == 0 && groups[2] == 0 && groups[3] == 0 && groups[4] == 0
        && groups[5] == 0xffff
}

/// How a version 6 address is written: a mapped version 4 address as
/// `::ffff:` and that address in dotted decimal; any other with its groups
/// in hexadecimal, where the longest run of two or more zero groups is left
/// out and `::` stands in its place.
pub open spec fn v6_text(bits: u128) -> Seq<char> {
    let groups = groups_of_bits(bits);
    let (start, len) = longest_run(groups, 0, (0, 0));
    if is_mapped(groups) {
        "::ffff:"@ + parts_text((bits % 0x1_0000_0000) as nat, 4)
    } else if len > 1 {
        joined(groups.subrange(0, start)) + "::"@ + joined(groups.subrange(start + len, 8))
    } else {
        joined(groups)
    }
}

/// How an address is written: `127.0.0.1` for version 4, `::1` or
/// `2001:db8::ff00:42:8329` for version 6.
pub open spec fn address_text(address: IpAddress) -> Seq<char> {
    match address {
        IpAddress::V4(bits) => parts_text(bits as nat, 4),
        IpAddress::V6(bits) => v6_text(bits),
    }
}

/// The eight groups of the number of a version 6 address.
fn groups_of(bits: u128) -> (groups: [u16; 8])
    ensures
        groups@ == groups_of_bits(bits),
{
    let groups: [u16; 8] = [
        (bits / 0x1_0000_0000_0000_0000_0000_0000_0000) as u16,
        (bits / 0x1_0000_0000_0000_0000_0000_0000 % 0x1_0000) as u16,
        (bits / 0x1_0000_0000_0000_0000_0000 % 0x1_0000) as u16,
        (bits / 0x1_0000_0000_0000_0000 % 0x1_0000) as u16,
        (bits / 0x1_0000_0000_0000 % 0x1_0000) as u16,
        (bits / 0x1_0000_0000 % 0x1_0000) as u16,
        (bits / 0x1_0000 % 0x1_0000) as u16,
        (bits % 0x1_0000) as u16,
    ];
    assert(groups@ =~= groups_of_bits(bits));
    groups
}

/// How many groups in a row are zero from the group at `at` on.
fn run_length(groups: &[u16; 8], at: usize) -> (len: usize)
    requires
        at <= 8,
    ensures
        len == zero_run(groups@, at as int),
        at + len <= 8,
{
    let mut i: usize = at;
    while i < 8 && groups[i] == 0
        invariant
            at <= i <= 8,
            zero_run(groups@, at as int) == (i - at) + zero_run(groups@, i as int),
        decreases 8 - i,
    {
        i += 1;
    }
    i - at
}

/// The first of the longest runs of zero groups: where it begins and how
/// long it is.
fn longest_zero_run(groups: &[u16; 8]) -> (run: (usize, usize))
    ensures
        (run.0 as int, run.1 as nat) == longest_run(groups@, 0, (0, 0)),
        run.0 + run.1 <= 8,
{
    let mut start: usize = 0;
    let mut len: usize = 0;
    let mut at: usize = 0;
    while at < 8
        invariant
            at <= 8,
            start + len <= 8,
            longest_run(groups@, 0, (0, 0)) == longest_run(
                groups@,
                at as int,
                (start as int, len as nat),
            ),
        decreases 8 - at,
    {
        let here = run_length(groups, at);
        if here > len {
            start = at;
            len = here;
        }
        at += 1;
    }
    (start, len)
}

/// Appends the groups from `from` up to `to`, with colons between them.
fn push_joined(out: &mut Vec<char>, groups: &[u16; 8], from: usize, to: usize)
    requires
        from <= to <= 8,
    ensures
        final(out)@ == old(out)@ + joined(groups@.subrange(from as int, to as int)),
{
    let mut i: usize = from;
    proof {
        assert(out@ =~= old(out)@ + joined(groups@.subrange(from as int, from as int)));
    }
    while i < to
        invariant
            from <= i <= to <= 8,
            out@ == old(out)@ + joined(groups@.subrange(from as int, i as int)),
        decreases to - i,
    {
        let ghost before = out@;
        let ghost front = groups@.subrange(from as int, i as int);
        let ghost whole = groups@.subrange(from as int, i + 1);
        if i > from {
            out.push(':');
        }
        push_numeral(out, groups[i] as u128, true);
        proof {
            assert(whole.drop_last() =~= front);
            assert(whole.last() == groups@[i as int]);
            assert(out@ =~= old(out)@ + joined(whole));
        }
        i += 1;
    }
}

/// Appends the lowest `parts` octets of `bits` to `out`, as `parts_text` has them.
fn push_parts(out: &mut Vec<char>, bits: u128, parts: u8)
    ensures
        final(out)@ == old(out)@ + parts_text(bits as nat, parts as nat),
    decreases parts,
{
    if parts > 1 {
        push_parts(out, bits / 0x100, parts - 1);
        out.push('.');
    }
    push_numeral(out, bits % 0x100, false);
    proof {
        assert(final(out)@ =~= old(out)@ + parts_text(bits as nat, parts as nat));
    }
}

impl IpAddress {
    /// Appends the address to `out` as it is written.
    pub fn push_text(&self, out: &mut Vec<char>)
        ensures
            final(out)@ == old(out)@ + address_text(*self),
    {
        match self {
            IpAddress::V4(bits) => push_parts(out, *bits as u128, 4),
            IpAddress::V6(bits) => {
                let groups = groups_of(*bits);
                let (start, len) = longest_zero_run(&groups);
                if groups[0] == 0 && groups[1] == 0 && groups[2] == 0 && groups[3] == 0
                    && groups[4] == 0 && groups[5] == 0xffff {
                    push_text(out, "::ffff:");
                    push_parts(out, *bits % 0x1_0000_0000, 4);
                } else if len > 1 {
                    push_joined(out, &groups, 0, start);
                    push_text(out, "::");
                    push_joined(out, &groups, start + len, 8);
                } else {
                    push_joined(out, &groups, 0, 8);
                    assert(groups@.subrange(0, 8) =~= groups@);
                }
                assert(final(out)@ =~= old(out)@ + address_text(*self));
            },
        }
    }

    /// The version 4 address `a.b.c.d`.
    pub fn v4(a: u8, b: u8, c: u8, d: u8) -> (address: IpAddress)
        ensures
            address == IpAddress::V4(v4_bits(a, b, c, d)),
    {
        let bits: u32 = a as u32 * 0x100_0000 + b as u32 * 0x1_0000 + c as u32 * 0x100 + d as u32;
        IpAddress::V4(bits)
    }

    /// The version 6 address of the eight groups.
    pub fn v6(groups: [u16; 8]) -> (address: IpAddress)
        ensures
            address == IpAddress::V6(v6_bits(groups@)),
    {
        let bits: u128 = groups[0] as u128 * 0x1_0000_0000_0000_0000_0000_0000_0000 + groups[1] as u128
            * 0x1_0000_0000_0000_0000_0000_0000 + groups[2] as u128 * 0x1_0000_0000_0000_0000_0000
            + groups[3] as u128 * 0x1_0000_0000_0000_0000 + groups[4] as u128 * 0x1_0000_0000_0000
            + groups[5] as u128 * 0x1_0000_0000 + groups[6] as u128 * 0x1_0000 + groups[7] as u128;
        IpAddress::V6(bits)
    }

    /// Reads the address that `t` writes, if it writes one.
    pub fn parse(t: &[char]) -> (address: Option<IpAddress>)
        ensures
            address == parse_address(t@),
    {
        match read_v4(t, 0) {
            Some((bits, end)) => {
                return if end == t.len() {
                    Some(IpAddress::V4(bits))
                } else {
                    None
                };
            },
            None => {},
        }
        let (head, gap, embedded) = read_groups(t, 0, 8);
        if head.len() == 8 {
            return if gap == t.len() {
                Some(IpAddress::v6([head[0], head[1], head[2], head[3], head[4], head[5], head[6], head[7]]))
            } else {
                None
            };
        }
        if embedded || t.len() - gap < 2 || t[gap] != ':' || t[gap + 1] != ':' {
            return None;
        }
        let (tail, end, _) = read_groups(t, gap + 2, 7 - head.len());
        if end != t.len() {
            return None;
        }
        let mut groups: [u16; 8] = [0, 0, 0, 0, 0, 0, 0, 0];
        let ghost wanted = head@ + Seq::new((8 - head@.len() - tail@.len()) as nat, |i: int| 0u16)
            + tail@;
        let mut i: usize = 0;
        while i < head.len()
            invariant
                i <= head@.len() < 8,
                head@.len() + tail@.len() <= 7,
                forall|j: int| 0 <= j < i ==> groups@[j] == head@[j],
                forall|j: int| i <= j < 8 ==> groups@[j] == 0,
            decreases head@.len() - i,
        {
            groups[i] = head[i];
            i += 1;
        }
        let shift: usize = 8 - tail.len();
        let mut k: usize = 0;
        while k < tail.len()
            invariant
                k <= tail@.len(),
                shift == 8 - tail@.len(),
                head@.len() + tail@.len() <= 7,
                forall|j: int| 0 <= j < head@.len() ==> groups@[j] == head@[j],
                forall|j: int| head@.len() <= j < shift ==> groups@[j] == 0,
                forall|j: int| shift <= j < shift + k ==> groups@[j] == tail@[j - shift],
                forall|j: int| shift + k <= j < 8 ==> groups@[j] == 0,
            decreases tail@.len() - k,
        {
            groups[shift + k] = tail[k];
            k += 1;
        }
        assert(groups@ =~= wanted);
        Some(IpAddress::v6(groups))
    }

    /// The address that `t` stands for in a log: the one that it writes, or
    /// the unspecified address where it writes none.
    pub fn parse_or_unspecified(t: &[char]) -> (address: IpAddress)
        ensures
            address == address_of(t@),
    {
        match IpAddress::parse(t) {
            Some(address) => address,
            None => IpAddress::unspecified(),
        }
    }

    /// The address that stands for one that is unknown: version 4, all zero.
    pub fn unspecified() -> (address: IpAddress)
        ensures
            address == unspecified(),
    {
        IpAddress::V4(0)
    }
}

} // verus!
