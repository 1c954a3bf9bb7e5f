use markdown_plugins::ruby::{find_text_end_index, scan_ruby};

fn scan(src: &str) -> Option<(String, String, usize)> {
    let len = src.chars().count();
    scan_ruby(src, 0, len).map(|(ruby, n)| (ruby.base_text, ruby.ruby_text, n))
}

fn fields(base: &str, ruby: &str, n: usize) -> Option<(String, String, usize)> {
    Some((base.to_string(), ruby.to_string(), n))
}

#[test]
fn plain_span() {
    assert_eq!(scan("{foo|bar}"), fields("foo", "bar", 9));
}

#[test]
fn escaped_separator_is_content() {
    assert_eq!(scan("{foo\\|bar|baz}"), fields("foo|bar", "baz", 14));
}

#[test]
fn escaped_terminator_is_content() {
    assert_eq!(scan("{foo|bar\\}baz}"), fields("foo", "bar}baz", 14));
}

#[test]
fn missing_separator_declines() {
    assert_eq!(scan("{foobar}"), None);
}

#[test]
fn terminator_before_separator_declines() {
    assert_eq!(scan("{foo}|bar}"), None);
    assert_eq!(scan("{foo\\|bar}\\{baz|qux}"), None);
}

#[test]
fn missing_terminator_declines() {
    assert_eq!(scan("{foo|bar"), None);
    assert_eq!(scan("{foo|bar\\}"), None);
}

#[test]
fn must_start_at_marker() {
    assert_eq!(scan("x{a|b}"), None);
    let r = scan_ruby("x{a|b} y", 1, 8).map(|(ruby, n)| (ruby.base_text, ruby.ruby_text, n));
    assert_eq!(r, fields("a", "b", 5));
}

#[test]
fn window_end_bounds_the_scan() {
    assert!(scan_ruby("{a|b}", 0, 4).is_none());
    assert!(scan_ruby("{a|b}", 0, 0).is_none());
}

#[test]
fn fields_are_normalized() {
    assert_eq!(
        scan("{foo      doo|bar            hello}  mid"),
        fields("foo doo", "bar hello", 35)
    );
}

#[test]
fn positions_count_characters() {
    assert_eq!(scan("{漢|Kan}{字|ji}"), fields("漢", "Kan", 7));
    let r = scan_ruby("{漢|Kan}{字|ji}", 7, 13).map(|(ruby, n)| (ruby.base_text, ruby.ruby_text, n));
    assert_eq!(r, fields("字", "ji", 6));
}

#[test]
fn escape_state_follows_backslashes() {
    let text: Vec<char> = "a\\|b|c".chars().collect();
    assert_eq!(find_text_end_index(&text, 0, text.len(), '|'), Some(4));
    let doubled: Vec<char> = "a\\\\|b".chars().collect();
    assert_eq!(find_text_end_index(&doubled, 0, doubled.len(), '|'), None);
    let first: Vec<char> = "|x".chars().collect();
    assert_eq!(find_text_end_index(&first, 0, first.len(), '|'), Some(0));
    assert_eq!(find_text_end_index(&first, 1, first.len(), '|'), None);
}
