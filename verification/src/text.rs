//! Scanning primitives over a line held as a sequence of characters.

use vstd::prelude::*;

verus! {

/// The classes of characters that the log grammar tells apart.
#[derive(Clone, Copy, Debug, PartialEq, Eq)]
pub enum CharClass {
    /// A space or a horizontal tab.
    Blank,
    /// Anything but a space or a horizontal tab.
    NonBlank,
    /// An ASCII decimal digit.
    Digit,
    /// An ASCII hexadecimal digit, in either case.
    HexDigit,
    /// Anything but the given character.
    Except(char),
}

impl CharClass {
    /// Whether `c` belongs to the class.
    pub open spec fn holds(self, c: char) -> bool {
        match self {
            CharClass::Blank => c == ' ' || c == '\t',
            CharClass::NonBlank => !(c == ' ' || c == '\t'),
            CharClass::Digit => '0' <= c <= '9',
            CharClass::HexDigit => ('0' <= c <= '9') || ('a' <= c <= 'f') || ('A' <= c <= 'F'),
            CharClass::Except(stop) => c != stop,
        }
    }

    /// Tests whether `c` belongs to the class.
    pub fn contains(self, c: char) -> (r: bool)
        ensures
            r == self.holds(c),
    {
        match self {
            CharClass::Blank => c == ' ' || c == '\t',
            CharClass::NonBlank => !(c == ' ' || c == '\t'),
            CharClass::Digit => '0' <= c && c <= '9',
            CharClass::HexDigit => ('0' <= c && c <= '9') || ('a' <= c && c <= 'f') || ('A' <= c
                && c <= 'F'),
            CharClass::Except(stop) => c != stop,
        }
    }
}

/// Where the longest run of characters of `class` that starts at `from` ends:
/// the first index at or after `from` whose character is outside the class,
/// or the length of `s` when there is none.
pub open spec fn run_end(s: Seq<char>, from: int, class: CharClass) -> int
    decreases s.len() - from,
{
    if 0 <= from < s.len() && class.holds(s[from]) {
        run_end(s, from + 1, class)
    } else {
        from
    }
}

/// `run_end` is the one position that closes a run: everything before it is
/// in the class and the character at it, if any, is not.
pub proof fn lemma_run_end(s: Seq<char>, from: int, class: CharClass)
    requires
        0 <= from <= s.len(),
    ensures
        from <= run_end(s, from, class) <= s.len(),
        forall|j: int| from <= j < run_end(s, from, class) ==> class.holds(#[trigger] s[j]),
        run_end(s, from, class) < s.len() ==> !class.holds(s[run_end(s, from, class)]),
    decreases s.len() - from,
{
    if from < s.len() && class.holds(s[from]) {
        lemma_run_end(s, from + 1, class);
    }
}

/// Any position that closes a run from `from` is `run_end`.
pub proof fn lemma_run_end_unique(s: Seq<char>, from: int, class: CharClass, end: int)
    requires
        0 <= from <= end <= s.len(),
        forall|j: int| from <= j < end ==> class.holds(#[trigger] s[j]),
        end < s.len() ==> !class.holds(s[end]),
    ensures
        run_end(s, from, class) == end,
    decreases end - from,
{
    if from < end {
        lemma_run_end_unique(s, from + 1, class, end);
    }
}

/// Scans the longest run of characters of `class` from `from` and returns
/// where it ends.
pub fn scan_run(s: &[char], from: usize, class: CharClass) -> (end: usize)
    requires
        from <= s@.len(),
    ensures
        end == run_end(s@, from as int, class),
        from <= end <= s@.len(),
{
    let mut i: usize = from;
    while i < s.len() && class.contains(s[i])
        invariant
            from <= i <= s@.len(),
            run_end(s@, from as int, class) == run_end(s@, i as int, class),
        decreases s@.len() - i,
    {
        i += 1;
    }
    i
}

/// The characters of `text`, in order.
pub fn chars_of(text: &str) -> (chars: Vec<char>)
    ensures
        chars@ == text@,
{
    let mut chars: Vec<char> = Vec::new();
    for c in it: text.chars()
        invariant
            chars@ == it.seq().take(it.index()),
            it.seq() == text@,
    {
        chars.push(c);
    }
    chars
}

/// The number that the digit `c` stands for in a base up to sixteen; zero for
/// a character that is no digit.
pub open spec fn digit_value(c: char) -> nat {
    if '0' <= c <= '9' {
        (c as u32 - 48) as nat
    } else if 'a' <= c <= 'f' {
        (c as u32 - 87) as nat
    } else if 'A' <= c <= 'F' {
        (c as u32 - 55) as nat
    } else {
        0
    }
}

/// The number that the digits `digits` write: hexadecimal where `hex` is set,
/// decimal otherwise. Leading zeros do not count, and no digits write zero.
pub open spec fn numeral_value(digits: Seq<char>, hex: bool) -> nat
    decreases digits.len(),
{
    if digits.len() == 0 {
        0
    } else if hex {
        numeral_value(digits.drop_last(), hex) * 16 + digit_value(digits.last())
    } else {
        numeral_value(digits.drop_last(), hex) * 10 + digit_value(digits.last())
    }
}

/// The number that `digits` write where it is at most `max`, and zero where
/// it is larger.
pub open spec fn value_within(digits: Seq<char>, hex: bool, max: nat) -> nat {
    if numeral_value(digits, hex) <= max {
        numeral_value(digits, hex)
    } else {
        0
    }
}

/// A numeral is worth at least as much as any numeral that it begins with.
pub proof fn lemma_value_grows(digits: Seq<char>, hex: bool, n: int)
    requires
        0 <= n <= digits.len(),
    ensures
        numeral_value(digits.take(n), hex) <= numeral_value(digits, hex),
    decreases digits.len(),
{
    if n == digits.len() {
        assert(digits.take(n) =~= digits);
    } else {
        assert(digits.drop_last().take(n) =~= digits.take(n));
        lemma_value_grows(digits.drop_last(), hex, n);
    }
}

/// The number that the digit `c` stands for.
pub fn digit_of(c: char) -> (d: u8)
    ensures
        d == digit_value(c),
        d < 16,
{
    if '0' <= c && c <= '9' {
        (c as u32 - 48) as u8
    } else if 'a' <= c && c <= 'f' {
        (c as u32 - 87) as u8
    } else if 'A' <= c && c <= 'F' {
        (c as u32 - 55) as u8
    } else {
        0
    }
}

/// Reads the numeral that `s` holds from `from` up to `to`: its value where
/// that is at most `max`, and zero where it is larger.
pub fn read_numeral(s: &[char], from: usize, to: usize, hex: bool, max: u128) -> (value: u128)
    requires
        from <= to <= s@.len(),
    ensures
        value == value_within(s@.subrange(from as int, to as int), hex, max as nat),
{
    let ghost digits = s@.subrange(from as int, to as int);
    let base: u128 = if hex {
        16
    } else {
        10
    };
    let mut value: u128 = 0;
    let mut i: usize = from;
    while i < to
        invariant
            from <= i <= to <= s@.len(),
            digits == s@.subrange(from as int, to as int),
            base == if hex { 16u128 } else { 10u128 },
            value == numeral_value(digits.take(i - from), hex),
            value <= max,
        decreases to - i,
    {
        let d: u128 = digit_of(s[i]) as u128;
        proof {
            assert(digits.take(i + 1 - from).drop_last() =~= digits.take(i - from));
            assert(digits.take(i + 1 - from).last() == s@[i as int]);
            lemma_value_grows(digits, hex, i + 1 - from);
        }
        if max < d || value > (max - d) / base {
            return 0;
        }
        value = value * base + d;
        i += 1;
    }
    proof {
        assert(digits.take(to - from) =~= digits);
    }
    value
}

/// `String::from_iter` over characters: the text that they spell.
#[verifier::external_body]
pub(crate) fn text_of(chars: &[char]) -> (text: String)
    ensures
        text@ == chars@,
{
    String::from_iter(chars)
}

/// The text that `chars` spell from `from` up to `to`.
pub fn text_between(chars: &[char], from: usize, to: usize) -> (text: String)
    requires
        from <= to <= chars@.len(),
    ensures
        text@ == chars@.subrange(from as int, to as int),
{
    text_of(vstd::slice::slice_subrange(chars, from, to))
}

/// Appends the characters of `text` to `out`.
pub fn push_text(out: &mut Vec<char>, text: &str)
    ensures
        final(out)@ == old(out)@ + text@,
{
    let mut chars = chars_of(text);
    out.append(&mut chars);
}

/// The character that writes the digit `d` in a base up to sixteen, letters
/// in lower case.
pub open spec fn digit_char(d: int) -> char {
    if d < 10 {
        (48 + d) as u8 as char
    } else {
        (87 + d) as u8 as char
    }
}

/// The numeral of `n` without leading zeros: hexadecimal where `hex` is set,
/// decimal otherwise.
pub open spec fn numeral(n: nat, hex: bool) -> Seq<char>
    decreases n,
{
    if hex {
        if n < 16 {
            seq![digit_char(n as int)]
        } else {
            numeral(n / 16, hex).push(digit_char((n % 16) as int))
        }
    } else {
        if n < 10 {
            seq![digit_char(n as int)]
        } else {
            numeral(n / 10, hex).push(digit_char((n % 10) as int))
        }
    }
}

/// The decimal numeral of `n`.
pub open spec fn decimal(n: nat) -> Seq<char> {
    numeral(n, false)
}

/// The character that writes a digit stands for that digit, and is a decimal
/// digit where the digit is less than ten.
pub proof fn lemma_digit_reads_back(d: int)
    requires
        0 <= d < 16,
    ensures
        digit_value(digit_char(d)) == d,
        CharClass::HexDigit.holds(digit_char(d)),
        d < 10 ==> CharClass::Digit.holds(digit_char(d)),
{
    let c = digit_char(d);
    if d < 10 {
        assert(c as u32 == 48 + d);
        assert('0' as u32 == 48 && '9' as u32 == 57);
    } else {
        assert(c as u32 == 87 + d);
        assert('a' as u32 == 97 && 'f' as u32 == 102);
    }
}

/// A numeral is not empty, holds nothing but digits of its base, and is
/// worth the number that it was written for.
pub proof fn lemma_numeral_reads_back(n: nat, hex: bool)
    ensures
        numeral(n, hex).len() >= 1,
        forall|i: int|
            0 <= i < numeral(n, hex).len() ==> if hex {
                CharClass::HexDigit.holds(#[trigger] numeral(n, hex)[i])
            } else {
                CharClass::Digit.holds(#[trigger] numeral(n, hex)[i])
            },
        numeral_value(numeral(n, hex), hex) == n,
    decreases n,
{
    let text = numeral(n, hex);
    if hex {
        lemma_digit_reads_back((n % 16) as int);
        assert(text.last() == digit_char((n % 16) as int));
        if n >= 16 {
            lemma_numeral_reads_back(n / 16, hex);
            assert(text.drop_last() =~= numeral(n / 16, hex));
        } else {
            assert(text.drop_last() =~= Seq::<char>::empty());
            assert(numeral_value(text.drop_last(), hex) == 0);
        }
        assert(numeral_value(text, hex) == numeral_value(text.drop_last(), hex) * 16 + digit_value(
            text.last(),
        ));
    } else {
        lemma_digit_reads_back((n % 10) as int);
        assert(text.last() == digit_char((n % 10) as int));
        if n >= 10 {
            lemma_numeral_reads_back(n / 10, hex);
            assert(text.drop_last() =~= numeral(n / 10, hex));
        } else {
            assert(text.drop_last() =~= Seq::<char>::empty());
            assert(numeral_value(text.drop_last(), hex) == 0);
        }
        assert(numeral_value(text, hex) == numeral_value(text.drop_last(), hex) * 10 + digit_value(
            text.last(),
        ));
    }
}

/// A numeral has no more digits than its number needs: one below the base,
/// at most three below a thousand in decimal, at most four below 65536 in
/// hexadecimal. Its first digit is zero only where the number is zero.
pub proof fn lemma_numeral_shape(n: nat, hex: bool)
    ensures
        numeral(n, hex).len() >= 1,
        n >= 1 ==> numeral(n, hex)[0] != '0',
        numeral(n, hex).len() > 1 ==> n >= 1,
        !hex && n < 10 ==> numeral(n, hex).len() == 1,
        !hex && n < 100 ==> numeral(n, hex).len() <= 2,
        !hex && n < 1000 ==> numeral(n, hex).len() <= 3,
        hex && n < 0x10 ==> numeral(n, hex).len() == 1,
        hex && n < 0x100 ==> numeral(n, hex).len() <= 2,
        hex && n < 0x1000 ==> numeral(n, hex).len() <= 3,
        hex && n < 0x1_0000 ==> numeral(n, hex).len() <= 4,
    decreases n,
{
    if hex {
        if n >= 16 {
            lemma_numeral_shape(n / 16, hex);
            assert(numeral(n, hex)[0] == numeral(n / 16, hex)[0]);
        } else {
            lemma_digit_reads_back(n as int);
        }
    } else {
        if n >= 10 {
            lemma_numeral_shape(n / 10, hex);
            assert(numeral(n, hex)[0] == numeral(n / 10, hex)[0]);
        } else {
            lemma_digit_reads_back(n as int);
        }
    }
}

/// Appends the numeral of `n` to `out`: hexadecimal where `hex` is set,
/// decimal otherwise.
pub fn push_numeral(out: &mut Vec<char>, n: u128, hex: bool)
    ensures
        final(out)@ == old(out)@ + numeral(n as nat, hex),
    decreases n,
{
    let d: u8 = if hex {
        if n >= 16 {
            push_numeral(out, n / 16, hex);
        }
        (n % 16) as u8
    } else {
        if n >= 10 {
            push_numeral(out, n / 10, hex);
        }
        (n % 10) as u8
    };
    let c: char = if d < 10 {
        (48 + d) as char
    } else {
        (87 + d) as char
    };
    out.push(c);
    proof {
        assert(final(out)@ =~= old(out)@ + numeral(n as nat, hex));
    }
}

} // verus!
