use ytsearch::text::{
    char_is_whitespace, chars_contain, chars_lt, chars_of, chars_start_with, decimal_chars,
    find_char, join_chars, lower_chars, str_blank, str_eq, string_of, strip_leading_chars, trimmed,
};

#[test]
fn whitespace_agrees_with_std_on_every_char() {
    let mut n: u32 = 0;
    while n <= 0x10FFFF {
        if let Some(c) = char::from_u32(n) {
            assert_eq!(char_is_whitespace(c), c.is_whitespace(), "code point {:#x}", n);
        }
        n += 1;
    }
}

#[test]
fn trimmed_removes_outer_whitespace_only() {
    assert_eq!(trimmed("  a b \t\n"), "a b");
    assert_eq!(trimmed("\u{3000}x\u{a0}"), "x");
    assert_eq!(trimmed("   "), "");
    assert_eq!(trimmed(""), "");
    for s in ["", " ", "a", " a", "a ", "  a  b  ", "\n\ta\r\n", "\u{2003}é\u{2003}"] {
        assert_eq!(trimmed(s), s.trim(), "{s:?}");
        assert_eq!(str_blank(s), s.trim().is_empty(), "{s:?}");
    }
}

#[test]
fn string_round_trip_keeps_every_character() {
    for s in ["", "abc", "日本語", "a\u{10FFFF}b", "é\u{0301}"] {
        assert_eq!(string_of(&chars_of(s)), s);
        assert_eq!(chars_of(s), s.chars().collect::<Vec<char>>());
    }
    assert!(str_eq("abc", "abc"));
    assert!(!str_eq("abc", "abd"));
    assert!(!str_eq("abc", "ab"));
    assert!(str_eq("", ""));
}

#[test]
fn lowering_touches_ascii_capitals_only() {
    let text = "AbC-Zz ÄÖ é 123 [@`{";
    let v = chars_of(text);
    assert_eq!(string_of(&lower_chars(&v)), text.to_ascii_lowercase());
    assert_eq!(string_of(&lower_chars(&v)), "abc-zz ÄÖ é 123 [@`{");
}

#[test]
fn substring_search_agrees_with_std() {
    let hays = ["", "a", "abc", "aab", "abab", "日本語abc", "xyzabc"];
    let needles = ["", "a", "b", "ab", "abc", "bc", "abcd", "本語", "ba", "aab"];
    for h in hays {
        for n in needles {
            assert_eq!(chars_contain(&chars_of(h), &chars_of(n)), h.contains(n), "{h:?} {n:?}");
            assert_eq!(
                chars_start_with(&chars_of(h), &chars_of(n)),
                h.starts_with(n),
                "{h:?} {n:?}"
            );
        }
    }
}

#[test]
fn lexicographic_order_agrees_with_str_order() {
    let items = [
        "",
        "a",
        "A",
        "ab",
        "abc",
        "b",
        "é",
        "z",
        "日本",
        "a0",
        "2024-01-01T00:00:00Z",
        "2024-06-01T00:00:00Z",
        "\u{10FFFF}",
        "\u{FFFF}",
    ];
    for a in items {
        for b in items {
            assert_eq!(chars_lt(&chars_of(a), &chars_of(b)), a < b, "{a:?} {b:?}");
        }
    }
}

#[test]
fn decimal_numerals_agree_with_display() {
    for n in [0u64, 1, 9, 10, 11, 99, 100, 12345, u32::MAX as u64, u64::MAX] {
        assert_eq!(string_of(&decimal_chars(n as u128)), n.to_string());
    }
    for n in [u128::MAX, 1u128 << 64] {
        assert_eq!(string_of(&decimal_chars(n)), n.to_string());
    }
}

#[test]
fn joining_and_stripping() {
    let parts = vec![chars_of("a"), chars_of(""), chars_of("bc")];
    assert_eq!(string_of(&join_chars(&parts, &chars_of(", "))), "a, , bc");
    assert_eq!(string_of(&join_chars(&vec![], &chars_of(","))), "");
    assert_eq!(string_of(&join_chars(&vec![chars_of("x")], &chars_of(","))), "x");
    assert_eq!(string_of(&strip_leading_chars(&chars_of("@@a@b"), '@')), "a@b");
    assert_eq!(string_of(&strip_leading_chars(&chars_of("@@"), '@')), "");
    assert_eq!(find_char(&chars_of("a|b|c"), '|'), Some(1));
    assert_eq!(find_char(&chars_of("abc"), '|'), None);
}
