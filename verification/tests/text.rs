use astra_sentinel::text::{
    chars_equal, contains_chars, from_chars, push_decimal, read_unsigned, split_words, to_chars,
    to_lower, to_upper, trim, CharClass,
};

#[test]
fn white_space_is_that_of_unicode() {
    for code in 0..=0x10ffffu32 {
        if let Some(c) = char::from_u32(code) {
            assert_eq!(CharClass::WhiteSpace.contains(c), c.is_whitespace(), "{code:x}");
        }
    }
}

#[test]
fn ends_are_trimmed() {
    assert_eq!(from_chars(&trim(" \t a b\u{a0}\n")), "a b");
    assert_eq!(from_chars(&trim("   ")), "");
}

#[test]
fn words_are_split() {
    let words: Vec<String> =
        split_words(&to_chars(" one  two\tthree ")).iter().map(|w| from_chars(w)).collect();
    assert_eq!(words, vec!["one", "two", "three"]);
}

#[test]
fn only_ascii_letters_change_case() {
    assert_eq!(from_chars(&to_lower(&to_chars("AbZ[\u{c9}"))), "abz[\u{c9}");
    assert_eq!(from_chars(&to_upper(&to_chars("aBz{\u{e9}"))), "ABZ{\u{e9}");
    let text = to_chars("MiXeD");
    assert!(chars_equal(&to_lower(&to_upper(&text)), &to_lower(&text)));
}

#[test]
fn needles_are_found() {
    let contains = |s: &str, n: &str| contains_chars(&to_chars(s), &to_chars(n));
    assert!(contains("could not open", "not"));
    assert!(contains("abc", ""));
    assert!(contains("aab", "ab"));
    assert!(!contains("ab", "abc"));
    assert!(!contains("", "a"));
}

#[test]
fn numbers_are_written_and_read() {
    let mut out = String::new();
    push_decimal(&mut out, 0);
    push_decimal(&mut out, u128::MAX);
    assert_eq!(out, format!("0{}", u128::MAX));
    assert_eq!(read_unsigned(&to_chars("+42"), 10), Some(42));
    assert_eq!(read_unsigned(&to_chars("18446744073709551615"), 10), Some(u64::MAX));
    assert_eq!(read_unsigned(&to_chars("18446744073709551616"), 10), None);
    assert_eq!(read_unsigned(&to_chars("+"), 10), None);
    assert_eq!(read_unsigned(&to_chars(""), 10), None);
    assert_eq!(read_unsigned(&to_chars("-1"), 10), None);
    assert_eq!(read_unsigned(&to_chars("fF"), 16), Some(255));
    assert_eq!(read_unsigned(&to_chars("f"), 10), None);
}
