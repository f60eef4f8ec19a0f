use curator::text::{
    append_chars, decimal, find_char, from_chars, same_chars, same_text, slice_chars,
    strip_suffix, to_chars, trim_chars,
};

fn chars(s: &str) -> Vec<char> {
    s.chars().collect()
}

#[test]
fn chars_and_back() {
    assert_eq!(to_chars("héllo"), vec!['h', 'é', 'l', 'l', 'o']);
    assert_eq!(from_chars(&vec!['a', 'ß', 'c']), "aßc");
    assert_eq!(to_chars(""), Vec::<char>::new());
    assert_eq!(from_chars(&Vec::new()), "");
}

#[test]
fn find_char_gives_first_place_or_length() {
    let text = chars("a<b<c");
    assert_eq!(find_char(&text, '<', 0), 1);
    assert_eq!(find_char(&text, '<', 1), 1);
    assert_eq!(find_char(&text, '<', 2), 3);
    assert_eq!(find_char(&text, '<', 4), 5);
    assert_eq!(find_char(&text, '<', 5), 5);
    assert_eq!(find_char(&text, 'z', 0), 5);
}

#[test]
fn slices_and_appends() {
    let text = chars("abcdef");
    assert_eq!(slice_chars(&text, 1, 4), chars("bcd"));
    assert_eq!(slice_chars(&text, 3, 3), chars(""));
    let mut out = chars("xy");
    append_chars(&mut out, &chars("z!"));
    assert_eq!(out, chars("xyz!"));
}

#[test]
fn comparing_texts() {
    assert!(same_text("abc", "abc"));
    assert!(same_text("", ""));
    assert!(!same_text("abc", "abd"));
    assert!(!same_text("abc", "ab"));
    assert!(!same_text("ab", "abc"));
    assert!(same_chars(&chars("äb"), &chars("äb")));
    assert!(!same_chars(&chars("ab"), &chars("ba")));
    assert!(!same_chars(&chars("ab"), &chars("a")));
}

#[test]
fn strip_suffix_takes_every_repetition() {
    let ending = chars(".txt");
    assert_eq!(strip_suffix(&chars("MIT.txt"), &ending), chars("MIT"));
    assert_eq!(strip_suffix(&chars("a.txt.txt"), &ending), chars("a"));
    assert_eq!(strip_suffix(&chars(".txt"), &ending), chars(""));
    assert_eq!(strip_suffix(&chars("a.TXT"), &ending), chars("a.TXT"));
    assert_eq!(strip_suffix(&chars("txt"), &ending), chars("txt"));
    assert_eq!(strip_suffix(&chars("abc"), &chars("")), chars("abc"));
    assert_eq!("a.txt.txt".trim_end_matches(".txt"), "a");
}

#[test]
fn decimal_writes_numbers() {
    assert_eq!(decimal(0), "0");
    assert_eq!(decimal(7), "7");
    assert_eq!(decimal(10), "10");
    assert_eq!(decimal(2024), "2024");
    assert_eq!(decimal(404), "404");
    assert_eq!(decimal(-1), "-1");
    assert_eq!(decimal(-2024), "-2024");
    assert_eq!(decimal(i64::MAX), i64::MAX.to_string());
    assert_eq!(decimal(i64::MIN), i64::MIN.to_string());
}

#[test]
fn trim_takes_white_space_off_both_ends() {
    assert_eq!(trim_chars(&chars("  a b \t\r\n")), chars("a b"));
    assert_eq!(trim_chars(&chars("")), chars(""));
    assert_eq!(trim_chars(&chars(" \n ")), chars(""));
    assert_eq!(trim_chars(&chars("x")), chars("x"));
    assert_eq!(trim_chars(&chars("\u{a0}\u{3000}x\u{2003}\u{85}")), chars("x"));
    assert_eq!(trim_chars(&chars("\u{200b}x")), chars("\u{200b}x"));
}

#[test]
fn trim_agrees_with_the_standard_library() {
    for code in 0u32..0x3100 {
        if let Some(c) = char::from_u32(code) {
            let text = format!("{}x{}", c, c);
            assert_eq!(from_chars(&trim_chars(&chars(&text))), text.trim());
        }
    }
}
