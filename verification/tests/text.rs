use localsend_controller::text;
use localsend_controller::textset::TextSet;

#[test]
fn control_and_space_agree_with_the_standard_library() {
    for code in 0..=0x10FFFFu32 {
        if let Some(c) = char::from_u32(code) {
            assert_eq!(text::is_control(c), c.is_control(), "{code:x}");
            assert_eq!(text::is_space(c), c.is_whitespace(), "{code:x}");
            assert_eq!(text::lower_ascii(c), c.to_ascii_lowercase(), "{code:x}");
        }
    }
}

#[test]
fn texts_are_compared_like_strings() {
    let samples = ["", "a", "ab", "b", "B", "é", "z", "\u{10000}", "\u{ffff}", "a b"];
    for a in samples {
        for b in samples {
            assert_eq!(text::same_text(a, b), a == b);
            assert_eq!(text::text_precedes(a, b), a < b);
            assert_eq!(text::starts_with(a, b), a.starts_with(b));
            assert_eq!(text::ends_with(a, b), a.ends_with(b));
            assert_eq!(text::equal_ignoring_case(a, b), a.eq_ignore_ascii_case(b));
        }
    }
}

#[test]
fn endings_are_stripped_as_often_as_they_stand() {
    for sample in ["host.local", "host.local.local", ".local", "", "local", "host.localhost"] {
        assert_eq!(
            text::strip_endings(sample, ".local"),
            sample.trim_end_matches(".local")
        );
    }
}

#[test]
fn numbers_are_written_in_decimal() {
    for n in [0u64, 9, 10, 11, 99, 100, 524_288, 10_000, u64::MAX] {
        assert_eq!(text::decimal(n), n.to_string());
    }
}

#[test]
fn blank_texts_hold_only_space() {
    for sample in ["", " ", "\t\n", "\u{3000}", "a", " a ", "\u{200b}"] {
        assert_eq!(text::is_blank_text(sample), sample.trim().is_empty());
    }
}

#[test]
fn bytes_and_characters_are_counted() {
    assert_eq!(text::text_bytes("é"), 2);
    assert_eq!(text::chars_of("aé"), vec!['a', 'é']);
    assert_eq!(text::join2("a", "b"), "ab");
    assert_eq!(text::join3("a", "b", "c"), "abc");
    assert_eq!(text::clone_opt(&Some("x".to_string())), Some("x".to_string()));
    assert_eq!(text::clone_opt(&None), None);
    let list = vec!["x".to_string(), "y".to_string()];
    assert!(text::list_contains(&list, "y"));
    assert!(!text::list_contains(&list, "z"));
}

#[test]
fn sets_hold_each_text_once() {
    let mut set = TextSet::new();
    assert!(set.is_empty());
    set.insert("a");
    set.insert("a");
    set.insert("b");
    assert!(set.contains("a") && set.contains("b") && !set.contains("c"));
    set.remove("a");
    assert!(!set.contains("a") && set.contains("b") && !set.is_empty());
    set.remove("a");
    set.remove("b");
    assert!(set.is_empty());
}
