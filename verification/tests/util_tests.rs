use graphshell::util::truncate_with_ellipsis;

#[test]
fn test_short_string_unchanged() {
    assert_eq!(truncate_with_ellipsis("short", 20), "short");
}

#[test]
fn test_long_string_truncated() {
    let result = truncate_with_ellipsis("this is a very long title that should be truncated", 20);
    assert_eq!(result.chars().count(), 20);
    assert!(result.ends_with('\u{2026}'));
}

#[test]
fn test_exact_length_unchanged() {
    assert_eq!(truncate_with_ellipsis("exactly twenty chars", 20), "exactly twenty chars");
}

#[test]
fn test_emoji_safe() {
    let input = "Hello \u{1F600} World! This is long enough to truncate";
    let result = truncate_with_ellipsis(input, 15);
    assert!(result.chars().count() <= 15);
    assert!(result.ends_with('\u{2026}'));
}

#[test]
fn test_cjk_safe() {
    let input = "\u{4F60}\u{597D}\u{4E16}\u{754C}\u{4F60}\u{597D}\u{4E16}\u{754C}";
    let result = truncate_with_ellipsis(input, 5);
    assert_eq!(result.chars().count(), 5);
    assert!(result.ends_with('\u{2026}'));
}

#[test]
fn test_empty_string() {
    assert_eq!(truncate_with_ellipsis("", 20), "");
}

#[test]
fn test_max_one() {
    let result = truncate_with_ellipsis("hello", 1);
    assert_eq!(result, "\u{2026}");
}

#[test]
fn test_truncate_label() {
    assert_eq!(truncate_with_ellipsis("short", 20), "short");
    let result = truncate_with_ellipsis("this is a very long title that should be truncated", 20);
    assert_eq!(result.chars().count(), 20);
    assert!(result.ends_with('\u{2026}'));
}

#[test]
fn test_truncate_keeps_exact_prefix() {
    assert_eq!(truncate_with_ellipsis("abcdef", 4), "abc\u{2026}");
}

#[test]
fn test_truncate_to_zero_is_ellipsis() {
    assert_eq!(truncate_with_ellipsis("abc", 0), "\u{2026}");
    assert_eq!(truncate_with_ellipsis("", 0), "");
}
