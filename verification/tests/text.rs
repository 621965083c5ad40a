//! Text operations, held against the standard library's.
use laba_core::map::TextMap;
use laba_core::text::{
    after_mark, before_mark, between_marks, contains_lowered, decimal_text, first_segment, has_end,
    join_words,
    last_segment, less, only_digits, read_line, same_ignoring_case, same_text, strip_end, trim,
    trim_end_char, white,
};

const SAMPLES: [&str; 16] = [
    "",
    " ",
    "a",
    "abc",
    "ABC",
    " a b ",
    "\t\n x \u{2003}",
    "\u{85}y\u{a0}",
    "a/b/c",
    "/",
    "a//",
    " for  for  for ",
    "x for y for z branch",
    "grün",
    "日本語 for 語",
    "\u{10ffff}",
];

#[test]
fn white_space_is_what_unicode_says() {
    for u in 0..=0x10ffffu32 {
        if let Some(c) = char::from_u32(u) {
            assert_eq!(white(c), c.is_whitespace(), "{:x}", u);
        }
    }
}

#[test]
fn trimming_agrees_with_std() {
    for s in SAMPLES {
        assert_eq!(trim(s), s.trim());
        assert_eq!(trim_end_char(s, '/'), s.trim_end_matches('/'));
    }
}

#[test]
fn splitting_agrees_with_std() {
    for s in SAMPLES {
        assert_eq!(between_marks(s, " for "), s.split(" for ").nth(1));
        assert_eq!(after_mark(s, " for "), s.rfind(" for ").map(|i| &s[i + 5..]));
        assert_eq!(has_end(s, " branch"), s.ends_with(" branch"));
        assert_eq!(before_mark(s, " for "), s.find(" for ").map(|i| &s[..i]));
        assert_eq!(strip_end(s, " branch"), s.strip_suffix(" branch").unwrap_or(s));
        assert_eq!(last_segment(s, '/'), s.rsplit('/').next().unwrap());
        assert_eq!(first_segment(s, '/'), s.split('/').next().unwrap());
    }
}

#[test]
fn comparing_agrees_with_std() {
    for a in SAMPLES {
        for b in SAMPLES {
            assert_eq!(less(a, b), a < b, "{} {}", a, b);
            assert_eq!(same_text(a, b), a == b);
            assert_eq!(same_ignoring_case(a, b), a.eq_ignore_ascii_case(b));
            assert_eq!(
                contains_lowered(a, b),
                a.to_ascii_lowercase().contains(b)
            );
        }
        assert_eq!(only_digits(a), a.chars().all(|c| c.is_ascii_digit()));
    }
    assert!(only_digits("0123456789"));
    assert!(!only_digits("12a"));
    assert!(!only_digits("٣"));
}

#[test]
fn joining_agrees_with_std() {
    for words in [vec![], vec!["a"], vec!["a", "", "b"]] {
        assert_eq!(join_words(&words, ", "), words.join(", "));
        assert_eq!(join_words(&words, ""), words.join(""));
    }
}

#[test]
fn decimals_agree_with_std() {
    for n in [0, 7, 10, 42, 100, -1, -10, i64::MAX, i64::MIN] {
        assert_eq!(decimal_text(n), n.to_string());
    }
}

#[test]
fn lines_lose_white_ends_and_broken_bytes() {
    assert_eq!(read_line(b" octocat\r\n"), "octocat");
    assert_eq!(read_line(b""), "");
    assert_eq!(read_line("grün\n".as_bytes()), "grün");
    assert_eq!(read_line(b"a\xffb\n"), "a\u{fffd}b");
    assert_eq!(read_line(b"\xe6\x97"), "\u{fffd}");
}

#[test]
fn text_maps_keep_the_last_value_and_list_keys_in_order() {
    let mut m: TextMap<String> = TextMap::new();
    assert_eq!(m.len(), 0);
    for (k, v) in [("b", "1"), ("a", "2"), ("c", "3"), ("a", "4"), ("", "5")] {
        m.insert(k.to_string(), v.to_string());
    }
    assert_eq!(m.len(), 4);
    let listed: Vec<(&str, &str)> = (0..m.len())
        .map(|i| (m.key_at(i), m.value_at(i).as_str()))
        .collect();
    assert_eq!(listed, vec![("", "5"), ("a", "4"), ("b", "1"), ("c", "3")]);
    assert_eq!(m.get("a").map(String::as_str), Some("4"));
    assert_eq!(m.get("d"), None);
}
