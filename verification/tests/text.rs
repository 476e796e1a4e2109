use transcoder_core::text::{begins_with, find, has, trim_prefixes};

#[test]
fn find_counts_characters() {
    assert_eq!(find("你好<x>你好<x>", "<x>"), Some(2));
    assert_eq!(find("abc", "abcd"), None);
    assert_eq!(find("abc", ""), Some(0));
    assert_eq!(find("", ""), Some(0));
    assert_eq!(find("", "a"), None);
    assert_eq!(find("aab", "ab"), Some(1));
}

#[test]
fn has_is_exact_about_case() {
    assert!(has("flash-lite", "lite"));
    assert!(!has("flash-Lite", "lite"));
}

#[test]
fn prefixes_are_taken_off_as_often_as_they_stand() {
    assert!(begins_with("file:///a", "file://"));
    assert!(!begins_with("file:/a", "file://"));
    assert_eq!(trim_prefixes("ababac", "ab"), "ac");
    assert_eq!(trim_prefixes("cab", "ab"), "cab");
    assert_eq!(trim_prefixes("abab", "ab"), "");
}
