use clawmon_core::text::{
    any_control, any_white, basename, begins_with, bytes_of, chomp, contains, decimal_of, decimal_of_signed,
    is_blank, is_control, is_white, join_words, split_words, trim, truncate,
};

#[test]
fn character_classes_match_the_language() {
    for c in '\0'..=char::MAX {
        assert_eq!(is_white(c), c.is_whitespace(), "{c:?}");
        assert_eq!(is_control(c), c.is_control(), "{c:?}");
    }
}

#[test]
fn trimming_matches_the_language() {
    for s in [
        "", " ", "a", " a", "a ", "  a b  ", "\u{3000}目 录\u{2003}", "\t\n", "a\u{200b}",
    ] {
        assert_eq!(trim(s), s.trim(), "{s:?}");
        assert_eq!(is_blank(s), s.trim().is_empty(), "{s:?}");
    }
}

#[test]
fn cutting_counts_characters() {
    assert_eq!(truncate("abc", 3), "abc");
    assert_eq!(truncate("abcd", 3), "abc");
    assert_eq!(truncate("一二三四", 2), "一二");
    assert_eq!(truncate("abc", 0), "");
}

#[test]
fn lengths_are_in_bytes() {
    for s in ["", "a", "é", "目录", "🔴", "a目🔴"] {
        assert_eq!(bytes_of(s), s.len(), "{s:?}");
    }
}

#[test]
fn words_match_the_language() {
    for s in [
        "", " ", "a", "C-c Enter", "  a \t b\n", "a\u{a0}b", "一 二\u{3000}三",
    ] {
        let words: Vec<String> = s.split_whitespace().map(String::from).collect();
        assert_eq!(split_words(s), words, "{s:?}");
        assert_eq!(join_words(&words), words.join(" "), "{s:?}");
        assert_eq!(split_words(&join_words(&words)), words, "{s:?}");
    }
}

#[test]
fn numbers_match_the_language() {
    for n in [0, 1, 9, 10, 11, 99, 100, 1234567890, u64::MAX] {
        assert_eq!(decimal_of(n), n.to_string());
    }
    for n in [0, 1, -1, 10, -10, i32::MAX, i32::MIN] {
        assert_eq!(decimal_of_signed(n), n.to_string());
    }
}

#[test]
fn line_ends_are_cut() {
    assert_eq!(chomp("got:a\n"), "got:a");
    assert_eq!(chomp("got:a\r\n"), "got:a");
    assert_eq!(chomp("a\n\r\n"), "a");
    assert_eq!(chomp("a\nb"), "a\nb");
    assert_eq!(chomp(" \n"), " ");
    assert_eq!(chomp("\n"), "");
}

#[test]
fn single_characters_are_found() {
    assert!(begins_with("/a", '/'));
    assert!(!begins_with("a/", '/'));
    assert!(!begins_with("", '/'));
    assert!(any_control("a\u{1b}"));
    assert!(!any_control("目 录"));
    assert!(any_white("a\u{3000}b"));
    assert!(!any_white("a-b"));
}

#[test]
fn project_names_are_the_last_component() {
    assert_eq!(basename("/home/john/statebar"), "statebar");
    assert_eq!(basename("/home/john/statebar/"), "statebar");
    assert_eq!(basename("statebar"), "statebar");
}

#[test]
fn parts_are_found_anywhere() {
    for s in ["", "a", "ab", "aab", "can't find session: x", "目录目", "ana"] {
        for part in ["", "a", "b", "ab", "find", "目", "录目", "anaa"] {
            assert_eq!(contains(s, part), s.contains(part), "{s:?} {part:?}");
        }
    }
}
