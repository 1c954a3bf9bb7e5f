use markdown_plugins::spoiler::{find_fence_close, is_close_line, parse_spoiler_open, scan_spoiler};

fn lines(ls: &[&str]) -> Vec<String> {
    ls.iter().map(|l| l.to_string()).collect()
}

fn scan(ls: &[&str]) -> Option<(String, usize)> {
    let v = lines(ls);
    scan_spoiler(&v, 0, v.len()).map(|(block, n)| (block.visible_text, n))
}

#[test]
fn fence_without_nesting() {
    assert_eq!(
        scan(&["::: spoiler click here", "secret", "::: "]),
        Some(("click here".to_string(), 3))
    );
}

#[test]
fn content_lies_between_the_fences() {
    let v = lines(&["::: spoiler click here", "secret", "::: "]);
    let (_, n) = scan_spoiler(&v, 0, v.len()).unwrap();
    assert_eq!(&v[1..n - 1], &["secret".to_string()]);
}

#[test]
fn nested_fence_is_skipped() {
    assert_eq!(
        scan(&["::: spoiler outer", "::: spoiler inner", "x", ":::", "y", ":::"]),
        Some(("outer".to_string(), 6))
    );
    let v = lines(&["::: spoiler outer", "::: spoiler inner", "x", ":::", "y", ":::"]);
    assert_eq!(find_fence_close(&v, 1, v.len()), Some(5));
    assert_eq!(find_fence_close(&v, 2, v.len()), Some(3));
}

#[test]
fn unterminated_fence_declines() {
    assert_eq!(scan(&["::: spoiler click to see more", "but I never finished"]), None);
    assert_eq!(scan(&["::: spoiler a", "::: spoiler b", ":::"]), None);
    assert_eq!(scan(&["::: spoiler a"]), None);
}

#[test]
fn scan_stops_at_line_max() {
    let v = lines(&["::: spoiler a", "x", ":::"]);
    assert!(scan_spoiler(&v, 0, 2).is_none());
}

#[test]
fn opening_line_needs_a_label() {
    assert_eq!(scan(&["::: spoiler", "never added the lead in", ":::"]), None);
    assert_eq!(
        scan(&["::: spoiler a", "::: spoiler", ":::", ":::"]),
        Some(("a".to_string(), 3))
    );
}

#[test]
fn label_tokens_joined_by_one_space() {
    assert_eq!(
        parse_spoiler_open(":::   spoiler   _click   to see_  \t"),
        Some("_click to see_".to_string())
    );
    assert_eq!(parse_spoiler_open("::: spoiler a\\|b"), Some("a\\|b".to_string()));
}

#[test]
fn malformed_opening_lines() {
    assert_eq!(parse_spoiler_open(":::spoiler x"), None);
    assert_eq!(parse_spoiler_open("::: spoilerx y"), None);
    assert_eq!(parse_spoiler_open("::: spoiler\tx"), None);
    assert_eq!(parse_spoiler_open("::: spoiler x\ty"), None);
    assert_eq!(parse_spoiler_open("::: details x"), None);
    assert_eq!(parse_spoiler_open("::"), None);
    assert_eq!(parse_spoiler_open(""), None);
}

#[test]
fn closing_line_shape() {
    assert!(is_close_line(":::"));
    assert!(is_close_line("::: \t"));
    assert!(!is_close_line(" :::"));
    assert!(!is_close_line(":::x"));
    assert!(!is_close_line("::"));
    assert!(!is_close_line("::::"));
}
