use stash_server::text::{
    chars_of, decimal_of, digit_char, digit_of, find_from, is_white_space, is_word, same, slice,
    split_at_each, split_once_at, string_of, trimmed,
};

fn cs(s: &str) -> Vec<char> {
    s.chars().collect()
}

#[test]
fn chars_and_back() {
    assert_eq!(chars_of("héllo"), vec!['h', 'é', 'l', 'l', 'o']);
    assert_eq!(string_of(&cs("héllo")), "héllo");
    assert_eq!(string_of(&vec![]), "");
    assert_eq!(chars_of(""), Vec::<char>::new());
}

#[test]
fn same_and_word() {
    assert!(same(&cs("abc"), &cs("abc")));
    assert!(!same(&cs("abc"), &cs("abd")));
    assert!(!same(&cs("abc"), &cs("ab")));
    assert!(is_word(&cs("list"), "list"));
    assert!(!is_word(&cs("List"), "list"));
}

#[test]
fn slice_and_find() {
    assert_eq!(slice(&cs("hello"), 1, 3), cs("el"));
    assert_eq!(slice(&cs("hello"), 2, 2), cs(""));
    assert_eq!(find_from(&cs("a b c"), 0, ' '), 1);
    assert_eq!(find_from(&cs("a b c"), 2, ' '), 3);
    assert_eq!(find_from(&cs("a b c"), 4, ' '), 5);
}

#[test]
fn split_once_cuts_at_first() {
    assert_eq!(split_once_at(&cs("a b c"), ' '), Some((cs("a"), cs("b c"))));
    assert_eq!(split_once_at(&cs(" x"), ' '), Some((cs(""), cs("x"))));
    assert_eq!(split_once_at(&cs("x "), ' '), Some((cs("x"), cs(""))));
    assert_eq!(split_once_at(&cs("abc"), ' '), None);
    assert_eq!(split_once_at(&cs(""), ' '), None);
}

#[test]
fn split_cuts_at_each() {
    assert_eq!(split_at_each(&cs("a b c"), ' '), vec![cs("a"), cs("b"), cs("c")]);
    assert_eq!(split_at_each(&cs(""), ' '), vec![cs("")]);
    assert_eq!(split_at_each(&cs(" "), ' '), vec![cs(""), cs("")]);
    assert_eq!(split_at_each(&cs("a  b"), ' '), vec![cs("a"), cs(""), cs("b")]);
    assert_eq!(split_at_each(&cs("abc"), ' '), vec![cs("abc")]);
}

#[test]
fn trim_strips_unicode_white_space() {
    assert_eq!(trimmed(&cs("  a b \t\r\n")), cs("a b"));
    assert_eq!(trimmed(&cs("\u{a0}\u{2003}x\u{3000}")), cs("x"));
    assert_eq!(trimmed(&cs("   ")), cs(""));
    assert_eq!(trimmed(&cs("")), cs(""));
    assert_eq!(trimmed(&cs("x")), cs("x"));
}

#[test]
fn decimal_notation() {
    assert_eq!(decimal_of(0), cs("0"));
    assert_eq!(decimal_of(7), cs("7"));
    assert_eq!(decimal_of(10), cs("10"));
    assert_eq!(decimal_of(1700000000), cs("1700000000"));
    assert_eq!(decimal_of(u64::MAX as u128), cs("18446744073709551615"));
    assert_eq!(decimal_of(u128::MAX), cs("340282366920938463463374607431768211455"));
}

#[test]
fn digits() {
    assert_eq!(digit_char(0), '0');
    assert_eq!(digit_char(9), '9');
    assert_eq!(digit_of('5'), Some(5));
    assert_eq!(digit_of('a'), None);
    assert_eq!(digit_of('٣'), None);
}

#[test]
fn white_space_is_the_stated_code_points() {
    let stated = |c: char| {
        matches!(
            c,
            '\u{9}'..='\u{d}'
                | '\u{20}'
                | '\u{85}'
                | '\u{a0}'
                | '\u{1680}'
                | '\u{2000}'..='\u{200a}'
                | '\u{2028}'
                | '\u{2029}'
                | '\u{202f}'
                | '\u{205f}'
                | '\u{3000}'
        )
    };
    let mut count = 0;
    for code in 0..=0x10ffffu32 {
        if let Some(c) = char::from_u32(code) {
            assert_eq!(c.is_whitespace(), stated(c), "U+{code:04X}");
            assert_eq!(is_white_space(c), c.is_whitespace(), "U+{code:04X}");
            assert_eq!(trimmed(&vec![c]).is_empty(), stated(c), "U+{code:04X}");
            if stated(c) {
                count += 1;
            }
        }
    }
    assert_eq!(count, 25);
}
