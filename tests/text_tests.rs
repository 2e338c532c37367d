use nexus_core::text::{is_cjk, normalize_text, safe_slice, tokenize, tokenize_lowered};

#[test]
fn normalize_unifies_line_endings_and_trims() {
    assert_eq!(normalize_text("  a\r\nb \u{3000}"), "a\nb");
    assert_eq!(normalize_text("\r\n"), "");
    assert_eq!(normalize_text("x\ry"), "x\ry");
}

#[test]
fn safe_slice_cuts_with_ellipsis() {
    assert_eq!(safe_slice("abcdef", 3), "abc…");
    assert_eq!(safe_slice("  abc  ", 3), "abc");
    assert_eq!(safe_slice("   ", 3), "");
    assert_eq!(safe_slice("机器学习笔记", 4), "机器学习…");
}

#[test]
fn cjk_range() {
    assert!(is_cjk('机'));
    assert!(is_cjk('\u{4E00}'));
    assert!(is_cjk('\u{9FFF}'));
    assert!(!is_cjk('a'));
    assert!(!is_cjk('。'));
}

#[test]
fn tokenize_splits_words_and_ideographs() {
    assert_eq!(
        tokenize("Hello, 世界 foo_bar42"),
        vec!["hello", "世", "界", "foo", "bar42"]
    );
    assert_eq!(tokenize("机器学习笔记"), vec!["机", "器", "学", "习", "笔", "记"]);
    assert!(tokenize("   ").is_empty());
    assert!(tokenize("--- !!").is_empty());
}

#[test]
fn tokenize_lowered_keeps_case() {
    assert_eq!(tokenize_lowered("AbC d"), vec!["AbC", "d"]);
    assert_eq!(tokenize_lowered("ab机cd"), vec!["ab", "机", "cd"]);
}
