use gh_release_notify::string_map::StringMap;
use gh_release_notify::text::{
    chars_of, copy_texts, count_words, decimal, head, parse_u64, same_text, space, split,
    strip_prefix, trim,
};

#[test]
fn numbers_are_written_in_decimal() {
    assert_eq!(decimal(0), "0");
    assert_eq!(decimal(43200), "43200");
    assert_eq!(decimal(u64::MAX), u64::MAX.to_string());
}

#[test]
fn numbers_are_read_as_the_standard_library_reads_them() {
    for s in [
        "", "+", "0", "+7", "007", "12a", "-1", " 1", "18446744073709551615",
        "18446744073709551616", "99999999999999999999", "1+", "++1", "٣",
    ] {
        assert_eq!(parse_u64(s), s.parse::<u64>().ok(), "{s}");
    }
}

#[test]
fn whitespace_is_that_of_unicode() {
    for n in 0..0x11_0000u32 {
        if let Some(c) = char::from_u32(n) {
            assert_eq!(space(c), c.is_whitespace(), "{n:x}");
        }
    }
}

#[test]
fn texts_are_trimmed_split_and_counted() {
    for s in ["", " ", " a ", "\u{3000}ab c\t", "a;b", ";;", "ä; b ;c", " 0 */6  * * *\n"] {
        assert_eq!(trim(s), s.trim());
        assert_eq!(split(s, ';'), s.split(';').collect::<Vec<_>>());
        assert_eq!(count_words(s), s.split_whitespace().count());
        assert_eq!(chars_of(s), s.chars().collect::<Vec<_>>());
        assert_eq!(head(s, 2), s.chars().take(2).collect::<String>());
        assert_eq!(strip_prefix(s, "a"), s.strip_prefix("a"));
    }
    assert_eq!(strip_prefix("Bearer x", "Bearer "), Some("x"));
    assert_eq!(strip_prefix("Bear", "Bearer "), None);
    assert!(same_text("ä", "ä") && !same_text("ä", "a") && !same_text("a", "ab"));
    let v = vec!["a".to_string(), "b".to_string()];
    assert_eq!(copy_texts(&v), v);
}

#[test]
fn maps_hold_one_value_for_each_key() {
    let mut m: StringMap<u32> = StringMap::new();
    assert_eq!(m.get("a"), None);
    m.insert("a", 1);
    m.insert("b", 2);
    m.insert("c", 3);
    m.insert("a", 4);
    assert_eq!(m.get("a"), Some(&4));
    assert_eq!(m.entries().len(), 3);
    m.remove("a");
    m.remove("zzz");
    assert_eq!(m.get("a"), None);
    assert_eq!(m.get("b"), Some(&2));
    assert_eq!(m.get("c"), Some(&3));
    assert_eq!(m.entries().len(), 2);
}
