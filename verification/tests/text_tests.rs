use balatro_wiki::text::{
    byte_len, clean_text, contains_str, is_blank, is_link, join_strings, same_text,
    starts_with_str, trim, truncate,
};

#[test]
fn truncate_keeps_short_text() {
    assert_eq!(truncate("hello", 10), "hello");
    assert_eq!(truncate("hello", 5), "hello");
}

#[test]
fn truncate_cuts_long_text_with_dots() {
    assert_eq!(truncate("hello world", 8), "hello...");
    assert_eq!(truncate("hello world", 4), "h...");
    assert_eq!(truncate("hello world", 3), "...");
}

#[test]
fn truncate_keeps_as_many_dots_as_fit() {
    assert_eq!(truncate("hello world", 2), "..");
    assert_eq!(truncate("hello world", 1), ".");
    assert_eq!(truncate("hello world", 0), "");
    assert_eq!(truncate("", 0), "");
    assert_eq!(truncate("ab", 2), "ab");
}

#[test]
fn truncate_counts_characters_not_bytes() {
    assert_eq!(truncate("ééééé", 5), "ééééé");
    assert_eq!(truncate("éééééé", 5), "éé...");
}

#[test]
fn clean_text_drops_links_and_markup() {
    assert_eq!(clean_text("  A [[fine]]   mod  https://x.org/y  {{stub}} "), "A fine mod stub");
    assert_eq!(clean_text("see github.com/foo now ()"), "see now ");
}

#[test]
fn truncate_twice_is_truncate_once() {
    for max_len in [0usize, 2, 3, 4, 7, 11, 12] {
        let once = truncate("hello world", max_len);
        assert_eq!(truncate(&once, max_len), once);
    }
}

#[test]
fn truncate_always_fits() {
    for max_len in 0usize..25 {
        assert!(truncate("hello wörld, again", max_len).chars().count() <= max_len);
    }
    assert_eq!(truncate("abcd", 2), "..");
}

#[test]
fn truncate_never_splits_a_character() {
    let text = "日本語のテキストです";
    let cut = truncate(text, 7);
    assert_eq!(cut, "日本語の...");
    assert!(text.starts_with(cut.trim_end_matches("...")));
}

#[test]
fn contains_and_starts_with_look_for_the_whole_pattern() {
    assert!(contains_str("hello world", "lo w"));
    assert!(contains_str("hello", ""));
    assert!(contains_str("", ""));
    assert!(!contains_str("hello", "world"));
    assert!(!contains_str("hel", "hello"));
    assert!(contains_str("aab", "ab"));
    assert!(starts_with_str("https://x", "http"));
    assert!(!starts_with_str("see http", "http"));
    assert!(!starts_with_str("ht", "http"));
    assert!(same_text("abc", "abc"));
    assert!(!same_text("abc", "abd"));
    assert!(!same_text("abc", "ab"));
}

#[test]
fn clean_text_squeezes_white_space() {
    assert_eq!(clean_text("a\t b\n\nc\u{00a0}d"), "a b c d");
    assert_eq!(clean_text("   "), "");
    assert_eq!(clean_text(""), "");
}

#[test]
fn clean_text_replaces_from_left_to_right() {
    assert_eq!(clean_text("[[[a]]]"), "[a]");
    assert_eq!(clean_text("a [[]] b"), "a b");
    assert_eq!(clean_text("a () () b"), "a  b");
    assert_eq!(clean_text("x {{y}} (z)"), "x y (z)");
}

#[test]
fn clean_text_drops_words_that_are_links() {
    assert_eq!(clean_text("get it at gamebanana.com/mods/1 today"), "get it at today");
    assert_eq!(clean_text("(https://a.b) http://c.d end"), "(https://a.b) end");
}

#[test]
fn link_words_are_told() {
    assert!(is_link("http://x"));
    assert!(is_link("www.github.com/x"));
    assert!(is_link("gamebanana.com"));
    assert!(!is_link("word"));
}

#[test]
fn join_puts_the_separator_between_neighbours() {
    let parts = vec!["a".to_string(), "b".to_string(), "c".to_string()];
    assert_eq!(join_strings(&parts, ", "), "a, b, c");
    assert_eq!(join_strings(&parts, ""), "abc");
    assert_eq!(join_strings(&vec!["a".to_string()], "-"), "a");
    assert_eq!(join_strings(&Vec::new(), "-"), "");
    assert_eq!(join_strings(&vec![String::new(), String::new()], "-"), "-");
}

#[test]
fn trim_removes_white_space_at_both_ends() {
    assert_eq!(trim("  a b \n"), "a b");
    assert_eq!(trim("a"), "a");
    assert_eq!(trim(" \t "), "");
    assert_eq!(trim(""), "");
    assert!(is_blank(" \n\t"));
    assert!(is_blank(""));
    assert!(!is_blank(" a "));
}

#[test]
fn byte_len_counts_bytes() {
    assert_eq!(byte_len("abc"), 3);
    assert_eq!(byte_len("é日"), 5);
    assert_eq!(byte_len(""), 0);
}

#[test]
fn white_space_is_the_set_that_unicode_lists() {
    let listed = |code: u32| {
        (0x0009..=0x000D).contains(&code)
            || code == 0x0020
            || code == 0x0085
            || code == 0x00A0
            || code == 0x1680
            || (0x2000..=0x200A).contains(&code)
            || code == 0x2028
            || code == 0x2029
            || code == 0x202F
            || code == 0x205F
            || code == 0x3000
    };
    let mut count = 0;
    for code in 0u32..=0x10FFFF {
        if let Some(c) = char::from_u32(code) {
            let mut text = String::new();
            text.push(c);
            assert_eq!(is_blank(&text), listed(code), "U+{:04X}", code);
            if is_blank(&text) {
                count += 1;
            }
        }
    }
    assert_eq!(count, 25);
}

#[test]
fn trim_and_words_know_the_rarer_spaces() {
    assert_eq!(trim("\u{3000}a\u{2028}"), "a");
    assert_eq!(clean_text("a\u{1680}b\u{205F}c\u{0085}d"), "a b c d");
    assert_eq!(clean_text("a\u{200B}b"), "a\u{200B}b");
    assert_eq!(trim("\u{180E}a"), "\u{180E}a");
}
