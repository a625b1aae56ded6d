use hyraid::decimal::{decimal_string, digit_to_char, digit_value, parse_decimal};
use hyraid::pattern::{find_groups, group};
use hyraid::text::{
    contains, from_chars, join, matches_at, remove_char, same_text, skip_repeats, split,
    starts_with, to_chars, trim_end,
};

fn strings(items: &[&str]) -> Vec<String> {
    items.iter().map(|s| s.to_string()).collect()
}

#[test]
fn decimal_numbers_are_read_as_the_standard_library_reads_them() {
    let samples = [
        "0", "007", "+5", "+", "", "-1", "12a", " 12", "12 ", "1_000", "+0", "++1", "1+",
        "18446744073709551615", "18446744073709551616", "99999999999999999999999", "\u{663}",
        "4294967295", "4294967296", "0x10", "1e3", "000000000000000000000000000001",
    ];
    for text in samples {
        assert_eq!(parse_decimal(text), text.parse::<usize>().ok(), "{:?}", text);
    }
    assert_eq!(parse_decimal("1024"), Some(1024));
    assert_eq!(parse_decimal("+42"), Some(42));
}

#[test]
fn decimal_numbers_are_written_without_sign_or_leading_zeros() {
    for n in [0usize, 1, 9, 10, 11, 99, 100, 101, 12345, usize::MAX] {
        assert_eq!(decimal_string(n), n.to_string());
        assert_eq!(parse_decimal(&decimal_string(n)), Some(n));
    }
}

#[test]
fn digits() {
    for (d, c) in "0123456789".chars().enumerate() {
        assert_eq!(digit_value(c), Some(d));
        assert_eq!(digit_to_char(d), c);
    }
    for c in ['a', ' ', '/', ':', '+', '-', '\u{663}'] {
        assert_eq!(digit_value(c), None);
    }
}

#[test]
fn characters_go_in_and_out_of_strings() {
    assert_eq!(to_chars("a\u{e9}b"), vec!['a', '\u{e9}', 'b']);
    assert_eq!(to_chars(""), Vec::<char>::new());
    let chars = vec!['h', 'e', 'l', 'l', 'o'];
    assert_eq!(from_chars(&chars, 1, 4), "ell");
    assert_eq!(from_chars(&chars, 0, 5), "hello");
    assert_eq!(from_chars(&chars, 2, 2), "");
}

#[test]
fn patterns_are_found_where_they_stand() {
    let text = to_chars("abcabc");
    assert!(matches_at(&text, 0, &to_chars("abc")));
    assert!(matches_at(&text, 3, &to_chars("abc")));
    assert!(!matches_at(&text, 1, &to_chars("abc")));
    assert!(!matches_at(&text, 4, &to_chars("abc")));
    assert!(matches_at(&text, 6, &to_chars("")));
    assert!(!matches_at(&text, 7, &to_chars("")));
    assert!(starts_with("/dev/sda", "/dev/"));
    assert!(!starts_with("/dev", "/dev/"));
    assert!(starts_with("x", ""));
    assert!(same_text("abc", "abc"));
    assert!(!same_text("abc", "abd"));
    assert!(!same_text("abc", "ab"));
    assert!(!same_text("ab", "abc"));
    assert!(same_text("", ""));
    assert!(contains("hello world", "o w"));
    assert!(contains("hello", ""));
    assert!(contains("", ""));
    assert!(contains("hello", "hello"));
    assert!(contains("aab", "ab"));
    assert!(!contains("hello", "hellos"));
    assert!(!contains("", "a"));
}

#[test]
fn texts_are_joined_and_split() {
    assert_eq!(join(&strings(&["a", "b", "c"]), ";"), "a;b;c");
    assert_eq!(join(&strings(&["a"]), ";"), "a");
    assert_eq!(join(&strings(&[]), ";"), "");
    assert_eq!(join(&strings(&["", ""]), ", "), ", ");
    assert_eq!(split("a,b,c", ','), strings(&["a", "b", "c"]));
    assert_eq!(split("", ','), strings(&[""]));
    assert_eq!(split(",", ','), strings(&["", ""]));
    assert_eq!(split("a,,b,", ','), strings(&["a", "", "b", ""]));
    assert_eq!(split("abc", ','), strings(&["abc"]));
    for text in ["a,b", "", ",,", "x", ",x,"] {
        let expected: Vec<String> = text.split(',').map(|s| s.to_string()).collect();
        assert_eq!(split(text, ','), expected);
    }
    assert_eq!(remove_char("clean, degraded ", ' '), "clean,degraded");
    assert_eq!(remove_char("   ", ' '), "");
    assert_eq!(remove_char("abc", ' '), "abc");
}

#[test]
fn repeated_prefixes_and_suffixes_are_trimmed() {
    let text = to_chars("ababcab");
    assert_eq!(skip_repeats(&text, 0, &to_chars("ab")), 4);
    assert_eq!(skip_repeats(&text, 1, &to_chars("ab")), 1);
    assert_eq!(skip_repeats(&text, 5, &to_chars("ab")), 7);
    assert_eq!(skip_repeats(&text, 0, &to_chars("")), 0);
    assert_eq!(skip_repeats(&text, 7, &to_chars("ab")), 7);
    for (text, pattern) in [("/dev/vg/lvol0", "/lvol0"), ("a/lvol0/lvol0", "/lvol0"), ("lvol0", "/lvol0"), ("", "x"), ("xxx", "x"), ("abc", ""), ("/lvol0x", "/lvol0")] {
        assert_eq!(trim_end(text, pattern), text.trim_end_matches(pattern));
    }
    assert_eq!(trim_end("/dev/hyraid_vg_0123456789abcdef/lvol0", "/lvol0"), "/dev/hyraid_vg_0123456789abcdef");
}

#[test]
fn groups_of_a_match_are_handed_out_in_order() {
    let groups = find_groups(r"(\w+)@(\w+)(\.\d+)?", "mail bob@example now").unwrap();
    assert_eq!(
        groups,
        vec![Some("bob@example".to_string()), Some("bob".to_string()), Some("example".to_string()), None]
    );
    assert_eq!(group(&groups, 1), Some("bob".to_string()));
    assert_eq!(group(&groups, 3), None);
    assert_eq!(group(&groups, 4), None);
    assert_eq!(find_groups(r"(\d+)", "none here"), None);
    assert_eq!(find_groups(r"(unclosed", "unclosed"), None);
    assert_eq!(find_groups("", "x"), Some(vec![Some(String::new())]));
}
