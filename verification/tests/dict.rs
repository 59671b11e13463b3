use tuipo::dict::{CustomDict, DEFAULT_DICT_TEXT};

#[test]
fn empty_text_yields_empty_dict() {
    let d = CustomDict::from_text("");
    assert!(d.is_empty());
    assert!(!d.contains("anything"));
}

#[test]
fn comments_and_blank_lines_are_ignored() {
    let d = CustomDict::from_text("# my dict\n\nabdurrahim\n\n# trailing comment\ntuipo\n");
    assert_eq!(d.len(), 2);
    assert!(d.contains("abdurrahim"));
    assert!(d.contains("tuipo"));
}

#[test]
fn lookup_is_case_insensitive() {
    let d = CustomDict::from_text("Abdurrahim\nTUIPO\n");
    assert!(d.contains("abdurrahim"));
    assert!(d.contains("ABDURRAHIM"));
    assert!(d.contains("tuipo"));
    assert!(!d.contains("notinthere"));
}

#[test]
fn whitespace_around_words_is_trimmed() {
    let d = CustomDict::from_text("  spacey  \n\ttabby\t\n");
    assert!(d.contains("spacey"));
    assert!(d.contains("tabby"));
}

#[test]
fn empty_dict_contains_returns_false_fast() {
    let d = CustomDict::empty();
    assert!(!d.contains("anything"));
}

#[test]
fn extend_from_text_merges_words() {
    let mut d = CustomDict::from_text("apple\nbanana\n");
    d.extend_from_text("cherry\n# comment\napple\n");
    // apple deduplicates; cherry adds; comment ignored.
    assert_eq!(d.len(), 3);
    for w in ["apple", "banana", "cherry"] {
        assert!(d.contains(w), "missing `{w}`");
    }
}

#[test]
fn bundled_list_holds_common_tools() {
    let d = CustomDict::from_text(DEFAULT_DICT_TEXT);
    for w in [
        "ultrathink",
        "anthropic",
        "tuipo",
        "kubectl",
        "grep",
        "tmux",
        "ssh",
        "oauth",
        "postgres",
        "nodejs",
        "pdf",
        "pdfs",
    ] {
        assert!(d.contains(w), "default dict missing `{w}`");
    }
    assert!(d.len() > 100, "default dict is suspiciously small");
}
