use warp_fs::path::{sanitize, sanitize_decoded, segment_allowed};

fn resolved(base: &str, tail: &str) -> Option<String> {
    sanitize(base, tail).map(|p| p.resolved())
}

#[test]
fn plain_tail_joins_each_segment() {
    assert_eq!(resolved("/srv", "a/b.txt"), Some("/srv/a/b.txt".to_string()));
}

#[test]
fn empty_tail_is_the_base() {
    assert_eq!(resolved("/srv", ""), Some("/srv".to_string()));
}

#[test]
fn empty_segments_are_skipped() {
    let p = sanitize("/srv", "a//b/").unwrap();
    assert_eq!(p.segments, vec!["a".to_string(), "b".to_string()]);
    assert_eq!(p.resolved(), "/srv/a/b");
}

#[test]
fn percent_sequences_are_decoded() {
    assert_eq!(resolved("/srv", "my%20docs/x"), Some("/srv/my docs/x".to_string()));
}

#[test]
fn dotdot_segment_is_refused() {
    assert!(sanitize("/srv", "../etc/passwd").is_none());
    assert!(sanitize("/srv", "a/..").is_none());
}

#[test]
fn dotdot_prefixed_segment_is_refused() {
    assert!(sanitize("/srv", "a/..foo/b").is_none());
}

#[test]
fn encoded_dotdot_is_refused() {
    assert!(sanitize("/srv", "%2E%2E/etc").is_none());
    assert!(sanitize("/srv", "a%2F..%2Fb").is_none());
}

#[test]
fn backslash_is_refused() {
    assert!(sanitize("/srv", "a\\b").is_none());
    assert!(sanitize("/srv", "a%5C..%5Cb").is_none());
}

#[test]
fn invalid_utf8_is_refused() {
    assert!(sanitize("/srv", "%FF%FE").is_none());
}

#[test]
fn single_dot_and_inner_dots_pass() {
    assert_eq!(resolved("/srv", "./a.b..c"), Some("/srv/./a.b..c".to_string()));
}

#[test]
fn decoded_tail_is_split_as_given() {
    let p = sanitize_decoded("/base", "x/y%20z").unwrap();
    assert_eq!(p.resolved(), "/base/x/y%20z");
}

#[test]
fn segment_rules() {
    assert!(segment_allowed("file.txt"));
    assert!(segment_allowed(""));
    assert!(segment_allowed(".hidden"));
    assert!(!segment_allowed(".."));
    assert!(!segment_allowed("..x"));
    assert!(!segment_allowed("a\\b"));
}

#[test]
fn resolved_paths_start_with_base() {
    for tail in ["a", "a/b/c", "x%20y", "", "///"] {
        let r = resolved("/data/root", tail).unwrap();
        assert!(r.starts_with("/data/root"));
    }
}
