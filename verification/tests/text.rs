use clf_parser::tally::{Tally, TallyKey};
use clf_parser::text::{
    chars_of, digit_of, push_numeral, push_text, read_numeral, scan_run, text_between, CharClass,
};

fn numeral(n: u128, hex: bool) -> String {
    let mut out = Vec::new();
    push_numeral(&mut out, n, hex);
    out.into_iter().collect()
}

#[test]
fn character_classes() {
    assert!(CharClass::Blank.contains(' '));
    assert!(CharClass::Blank.contains('\t'));
    assert!(!CharClass::Blank.contains('\n'));
    assert!(!CharClass::Blank.contains('a'));
    assert!(CharClass::NonBlank.contains('\n'));
    assert!(!CharClass::NonBlank.contains(' '));
    assert!(CharClass::Digit.contains('0'));
    assert!(CharClass::Digit.contains('9'));
    assert!(!CharClass::Digit.contains('a'));
    assert!(!CharClass::Digit.contains('/'));
    assert!(!CharClass::Digit.contains(':'));
    assert!(CharClass::HexDigit.contains('a'));
    assert!(CharClass::HexDigit.contains('F'));
    assert!(!CharClass::HexDigit.contains('g'));
    assert!(!CharClass::HexDigit.contains('G'));
    assert!(CharClass::Except(']').contains('['));
    assert!(!CharClass::Except(']').contains(']'));
}

#[test]
fn runs() {
    let s = chars_of("ab  cd");
    assert_eq!(scan_run(&s, 0, CharClass::NonBlank), 2);
    assert_eq!(scan_run(&s, 2, CharClass::NonBlank), 2);
    assert_eq!(scan_run(&s, 2, CharClass::Blank), 4);
    assert_eq!(scan_run(&s, 4, CharClass::NonBlank), 6);
    assert_eq!(scan_run(&s, 6, CharClass::NonBlank), 6);
    assert_eq!(scan_run(&s, 0, CharClass::Except('c')), 4);
    assert_eq!(scan_run(&s, 0, CharClass::Except('x')), 6);
    assert_eq!(text_between(&s, 4, 6), "cd");
    assert_eq!(text_between(&s, 3, 3), "");
}

#[test]
fn chars_and_texts() {
    assert_eq!(chars_of("a\u{e9}\u{1f980}"), vec!['a', '\u{e9}', '\u{1f980}']);
    assert!(chars_of("").is_empty());
    let mut out = vec!['x'];
    push_text(&mut out, "yz");
    assert_eq!(out, vec!['x', 'y', 'z']);
}

#[test]
fn numerals_written() {
    assert_eq!(numeral(0, false), "0");
    assert_eq!(numeral(9, false), "9");
    assert_eq!(numeral(10, false), "10");
    assert_eq!(numeral(65535, false), "65535");
    assert_eq!(numeral(u128::MAX, false), "340282366920938463463374607431768211455");
    assert_eq!(numeral(0, true), "0");
    assert_eq!(numeral(15, true), "f");
    assert_eq!(numeral(16, true), "10");
    assert_eq!(numeral(0xdead_beef, true), "deadbeef");
}

#[test]
fn numerals_read() {
    let s = chars_of("x00120y");
    assert_eq!(read_numeral(&s, 1, 6, false, 1000), 120);
    assert_eq!(read_numeral(&s, 1, 6, false, 120), 120);
    assert_eq!(read_numeral(&s, 1, 6, false, 119), 0);
    assert_eq!(read_numeral(&s, 1, 6, true, 1000), 0x120);
    assert_eq!(read_numeral(&s, 3, 3, false, 1000), 0);
    let h = chars_of("fFaA");
    assert_eq!(read_numeral(&h, 0, 4, true, 0xffff), 0xffaa);
    assert_eq!(read_numeral(&h, 0, 4, true, 0xffa9), 0);
    assert_eq!(digit_of('7'), 7);
    assert_eq!(digit_of('c'), 12);
    assert_eq!(digit_of('C'), 12);
    assert_eq!(digit_of('z'), 0);
    for n in [0u128, 7, 10, 99, 100, 12345, u64::MAX as u128, u128::MAX] {
        let text = chars_of(&numeral(n, false));
        assert_eq!(read_numeral(&text, 0, text.len(), false, u128::MAX), n);
        let hex = chars_of(&numeral(n, true));
        assert_eq!(read_numeral(&hex, 0, hex.len(), true, u128::MAX), n);
    }
}

#[test]
fn tally_counts_by_key() {
    let mut tally: Tally<String> = Tally::new();
    assert_eq!(tally.len(), 0);
    assert_eq!(tally.total(), 0);
    assert_eq!(tally.get(&String::from("a")), 0);
    tally.increment(String::from("a"));
    tally.increment(String::from("b"));
    tally.increment(String::from("a"));
    assert_eq!(tally.len(), 2);
    assert_eq!(tally.total(), 3);
    assert_eq!(tally.get(&String::from("a")), 2);
    assert_eq!(tally.get(&String::from("b")), 1);
    assert_eq!(tally.get(&String::from("c")), 0);
    assert_eq!(
        tally.entries(),
        &vec![(String::from("a"), 2), (String::from("b"), 1)]
    );
}

#[test]
fn tally_keys() {
    assert!(String::from("a").same_key(&String::from("a")));
    assert!(!String::from("a").same_key(&String::from("A")));
    assert!((200u16, String::from("a")).same_key(&(200u16, String::from("a"))));
    assert!(!(200u16, String::from("a")).same_key(&(201u16, String::from("a"))));
    assert!(!(200u16, String::from("a")).same_key(&(200u16, String::from("b"))));
}
