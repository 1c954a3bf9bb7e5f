use markdown_plugins::text::{is_space, prepare_text, split_words};

#[test]
fn collapses_whitespace_runs() {
    assert_eq!(prepare_text("a   b\tc"), "a b c");
}

#[test]
fn strips_escaping_backslashes() {
    assert_eq!(prepare_text("a\\|b"), "a|b");
}

#[test]
fn empty_text_stays_empty() {
    assert_eq!(prepare_text(""), "");
    assert_eq!(prepare_text(" \t\n "), "");
}

#[test]
fn trims_both_ends() {
    assert_eq!(prepare_text("  foo   doo \n"), "foo doo");
}

#[test]
fn unicode_whitespace_counts() {
    assert_eq!(prepare_text("漢\u{3000}字\u{a0}\u{2003}x"), "漢 字 x");
}

#[test]
fn normalizing_twice_changes_nothing() {
    let once = prepare_text("  foo \\}  bar\t\\|baz ");
    assert_eq!(once, "foo } bar |baz");
    assert_eq!(prepare_text(&once), once);
}

#[test]
fn backslash_only_word_leaves_a_gap() {
    let once = prepare_text("a \\\\ b");
    assert_eq!(once, "a  b");
    assert_eq!(prepare_text(&once), "a b");
}

#[test]
fn whitespace_set_matches_std() {
    for c in (0u32..=0x10ffff).filter_map(char::from_u32) {
        assert_eq!(is_space(c), c.is_whitespace(), "{:?}", c);
    }
}

#[test]
fn words_of_a_range() {
    let text: Vec<char> = "  ab c\\  d ".chars().collect();
    assert_eq!(split_words(&text, 0, text.len()), vec!["ab", "c\\", "d"]);
    assert_eq!(split_words(&text, 3, 6), vec!["b", "c"]);
    assert!(split_words(&text, 0, 2).is_empty());
}
