use touchbar::scan::{find_line, parse_number, parse_wide};
use touchbar::text::{
    blank, characters, contains, contains_control, control, copied, decimal_text, ends_with,
    joined, joined3, joined4, less, list, lower_text, same, space, starts_with, strip_prefix,
    text_of, trim, TextMap, TextSet,
};

#[test]
fn kinds_of_characters_are_those_of_unicode() {
    for number in 0..=0x10ffff_u32 {
        if let Some(c) = char::from_u32(number) {
            assert_eq!(space(c), c.is_whitespace(), "{number:x}");
            assert_eq!(control(c), c.is_control(), "{number:x}");
        }
    }
}

#[test]
fn only_english_letters_change_case() {
    for number in 0..=0x2fff_u32 {
        if let Some(c) = char::from_u32(number) {
            let text = c.to_string();
            assert_eq!(lower_text(&text), text.to_ascii_lowercase());
        }
    }
}

#[test]
fn numbers_are_written_and_read() {
    for number in [0, 1, 9, 10, 11, 99, 100, 12345, u64::MAX] {
        assert_eq!(decimal_text(number), number.to_string());
        assert_eq!(parse_wide(&decimal_text(number), u64::MAX), Some(number));
    }
    for text in ["", "+", "-1", "1x", " 1", "1 ", "+1", "007", "4294967295", "4294967296", "++1"] {
        assert_eq!(parse_number(text, u32::MAX), text.parse::<u32>().ok(), "{text:?}");
    }
    assert_eq!(parse_number("11", 10), None);
}

#[test]
fn texts_are_cut_and_joined() {
    assert_eq!(trim(" \u{3000}a b\t\n"), "a b");
    assert!(blank(" \t") && blank("") && !blank(" a"));
    assert!(contains_control("a\u{7f}") && !contains_control("ab"));
    assert_eq!(joined("a", "b"), "ab");
    assert_eq!(joined3("a", "b", "c"), "abc");
    assert_eq!(joined4("a", "b", "c", "d"), "abcd");
    assert_eq!(list(&vec!["a".into(), "b".into()], ", "), "a, b");
    assert_eq!(list(&Vec::new(), ", "), "");
    assert_eq!(strip_prefix("abc", "ab").as_deref(), Some("c"));
    assert_eq!(strip_prefix("abc", "b"), None);
    assert!(starts_with("abc", "ab") && !starts_with("a", "ab"));
    assert!(ends_with("abc", "bc") && !ends_with("c", "bc"));
    assert!(contains("abc", "b") && contains("abc", "") && !contains("abc", "ac"));
    assert_eq!(text_of(&characters("a\u{e9}c"), 1, 3), "\u{e9}c");
    assert!(same("a", "a") && !same("a", "ab"));
    assert_eq!(copied("x"), "x");
    assert_eq!(find_line("A=1\r\nB=2\n", "B=").as_deref(), Some("2"));
    assert_eq!(find_line("A=1\r\nB=2\n", "A=").as_deref(), Some("1"));
    assert_eq!(find_line("A=1", "C="), None);
}

#[test]
fn texts_are_ordered_as_their_bytes_are() {
    let texts = ["", "a", "ab", "b", "\u{7f}", "\u{80}", "\u{ffff}", "\u{10000}", "a\u{10000}"];
    for a in texts {
        for b in texts {
            assert_eq!(less(a, b), a < b, "{a:?} {b:?}");
        }
    }
}

#[test]
fn sets_and_maps_are_sorted() {
    let mut set: TextSet<String> = TextSet::new();
    assert!(set.insert("b".into()));
    assert!(set.insert("a".into()));
    assert!(!set.insert("b".into()));
    assert_eq!(set.len(), 2);
    assert_eq!((set.get(0).as_str(), set.get(1).as_str()), ("a", "b"));
    assert!(set.contains("a") && !set.contains("c"));
    let mut map: TextMap<String, u32> = TextMap::new();
    map.insert("b".into(), 1);
    map.insert("a".into(), 2);
    map.insert("b".into(), 3);
    assert_eq!(map.len(), 2);
    assert_eq!(map.get("b"), Some(&3));
    assert_eq!((map.key_at(0), map.value_at(0)), ("a", &2));
    assert!(map.contains("a") && map.get("c").is_none());
}
