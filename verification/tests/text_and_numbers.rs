use smackup::number::{decimal_string, parse_u32};
use smackup::text::{chars_of, contains_char, path_under, replace_all, split_on, str_eq};

#[test]
fn split_keeps_empty_pieces() {
    assert_eq!(split_on("a::b:", ':'), vec!["a", "", "b", ""]);
    assert_eq!(split_on("", ':'), vec![""]);
    assert_eq!(split_on("./data/data1:./data/data2", ':'), vec!["./data/data1", "./data/data2"]);
}

#[test]
fn split_then_join_gives_back_the_list() {
    let list = "./data/data1::/data/x:";
    let parts = split_on(list, ':');
    assert_eq!(parts.join(":"), list);
    assert!(parts.iter().all(|p| !p.contains(':')));
}

#[test]
fn replace_takes_matches_from_the_left() {
    assert_eq!(replace_all("aaa", "aa", "b"), "ba");
    assert_eq!(replace_all("a//b///c", "//", "/"), "a/b//c");
    assert_eq!(replace_all("abc", "x", "y"), "abc");
    assert_eq!(replace_all("", "x", "y"), "");
}

#[test]
fn replace_agrees_with_std() {
    for (s, p, r) in [("xyxyx", "xy", "Z"), ("/data//a//b", "/data/", ""), ("ab", "abc", "q")] {
        assert_eq!(replace_all(s, p, r), s.replace(p, r));
    }
}

#[test]
fn characters_of_a_string() {
    assert_eq!(chars_of("héllo"), vec!['h', 'é', 'l', 'l', 'o']);
    assert!(chars_of("").is_empty());
}

#[test]
fn string_comparisons() {
    assert!(str_eq("True", "True"));
    assert!(!str_eq("True", "true"));
    assert!(contains_char("a.b", '.'));
    assert!(!contains_char("ab", '.'));
    assert_eq!(path_under("./data", "x.txt"), "./data/x.txt");
}

#[test]
fn decimal_text_of_numbers() {
    assert_eq!(decimal_string(0), "0");
    assert_eq!(decimal_string(7), "7");
    assert_eq!(decimal_string(1234567890123), "1234567890123");
    assert_eq!(decimal_string(u64::MAX), u64::MAX.to_string());
}

#[test]
fn parse_accepts_plus_and_digits_only() {
    assert_eq!(parse_u32("42"), Some(42));
    assert_eq!(parse_u32("+42"), Some(42));
    assert_eq!(parse_u32("007"), Some(7));
    assert_eq!(parse_u32("4294967295"), Some(u32::MAX));
    assert_eq!(parse_u32("4294967296"), None);
    assert_eq!(parse_u32(""), None);
    assert_eq!(parse_u32("+"), None);
    assert_eq!(parse_u32("-1"), None);
    assert_eq!(parse_u32("1 "), None);
    assert_eq!(parse_u32("١"), None);
}

#[test]
fn parse_agrees_with_std() {
    for s in ["0", "+0", "12x", "99999999999", "+-3", "65536", "00000000000004294967295"] {
        assert_eq!(parse_u32(s), s.parse::<u32>().ok(), "{}", s);
    }
}

#[test]
fn parse_reads_back_decimal_text() {
    for n in [0u32, 9, 10, 4096, u32::MAX] {
        assert_eq!(parse_u32(&decimal_string(n as u64)), Some(n));
    }
}
