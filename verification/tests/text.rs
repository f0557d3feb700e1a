//! Text, numbers, order and the map.

use wintermute_platform::number::{decimal, parse_u32, signed};
use wintermute_platform::order::{insert_text, precedes};
use wintermute_platform::string_map::StringMap;
use wintermute_platform::text::{
    contains_char, ends_with, find_at, is_whitespace, join, join_strs, lines, pad_left,
    pad_right, repeat, replace, same, split, split_once, starts_with, strip_prefix,
    trim, trim_end_matches, trim_start_matches, words,
};

const SAMPLES: [&str; 14] = [
    "", " ", "a", " a b ", "\r\n", "a\r\nb\n\nc", "x\r", "aXbXc", "\u{3000}é\u{a0}", "aaa", "=a=",
    "\t\u{b}\u{1c}x", "ab\u{2028}cd", "Wants=x y",
];

fn chars(s: &str) -> Vec<char> {
    s.chars().collect()
}

#[test]
fn text_agrees_with_the_standard_library() {
    for s in SAMPLES {
        assert_eq!(trim(s), s.trim());
        assert_eq!(lines(s), s.lines().collect::<Vec<_>>());
        assert_eq!(words(s), s.split_whitespace().collect::<Vec<_>>());
        assert_eq!(split(s, 'X'), s.split('X').collect::<Vec<_>>());
        assert_eq!(
            split_once(s, '='),
            s.split_once('=').map(|(a, b)| (a.to_string(), b.to_string()))
        );
        assert_eq!(replace(s, "aa", "b"), s.replace("aa", "b"));
        assert_eq!(trim_start_matches(s, &['a', '=']), s.trim_start_matches(['a', '=']));
        assert_eq!(trim_end_matches(s, &['\n', '\r']), s.trim_end_matches(['\n', '\r']));
        assert_eq!(pad_right(s, 4), format!("{s:<4}"));
        assert_eq!(pad_left(s, 4, ' '), format!("{s:>4}"));
        for t in SAMPLES {
            assert_eq!(same(s, t), s == t);
            assert_eq!(starts_with(s, t), s.starts_with(t));
            assert_eq!(ends_with(s, t), s.ends_with(t));
            let found = find_at(&chars(s), 0, &chars(t)).map(|k| s.chars().take(k).collect());
            assert_eq!(found, s.find(t).map(|k| s[..k].to_string()));
            assert_eq!(strip_prefix(s, t).as_deref(), s.strip_prefix(t));
            assert_eq!(precedes(s, t), s < t);
        }
        assert_eq!(contains_char(s, 'b'), s.contains('b'));
    }
}

#[test]
fn whitespace_is_that_of_unicode() {
    for n in 0..0x11_0000u32 {
        if let Some(c) = char::from_u32(n) {
            assert_eq!(is_whitespace(c), c.is_whitespace(), "{n:x}");
        }
    }
}

#[test]
fn numbers_agree_with_the_standard_library() {
    for n in [0u64, 9, 10, 99, 100, 12_345, u64::MAX] {
        assert_eq!(decimal(n), n.to_string());
    }
    for n in [0i32, -1, 7, i32::MIN, i32::MAX] {
        assert_eq!(signed(n), n.to_string());
    }
    for s in ["", "+", "-1", "0", "+5", "00012", "4294967295", "4294967296", "1x", " 1", "++1"] {
        assert_eq!(parse_u32(s), s.parse::<u32>().ok(), "{s}");
    }
    for n in [0u32, 1, 10, u32::MAX] {
        assert_eq!(parse_u32(&decimal(u64::from(n))), Some(n));
    }
}

#[test]
fn parts_are_joined() {
    assert_eq!(join(&vec!["a".into(), "b".into(), "".into()], ", "), "a, b, ");
    assert_eq!(join_strs(&["a", "b"], "-"), "a-b");
    assert_eq!(join_strs(&[], "-"), "");
    assert_eq!(repeat('x', 3), "xxx");
}

#[test]
fn inserted_texts_stay_sorted() {
    let mut v: Vec<String> = Vec::new();
    for s in ["b", "a", "c", "b", "aa", ""] {
        insert_text(&mut v, s.to_string());
    }
    assert_eq!(v, vec!["", "a", "aa", "b", "c"]);
}

#[test]
fn the_map_keeps_one_value_for_each_key() {
    let mut m: StringMap<u32> = StringMap::new();
    for (i, k) in ["b", "a", "c", "b"].iter().enumerate() {
        m.insert(k.to_string(), u32::try_from(i).unwrap_or(0));
    }
    assert_eq!(m.len(), 3);
    assert_eq!(m.keys(), vec!["a", "b", "c"]);
    assert_eq!(m.get("b"), Some(&3));
    assert!(m.contains_key("c"));
    assert_eq!(m.remove("a"), Some(1));
    assert_eq!(m.remove("a"), None);
    assert_eq!(m.keys(), vec!["b", "c"]);
    assert_eq!(StringMap::<u32>::default().len(), 0);
}
