use tuipo::input::InputState;

#[test]
fn boundary_clears_issues() {
    let mut s = InputState::new();
    s.feed_bytes(b"teh ");
    let before = s.issues().len();
    // We expect at least one lint on "teh"
    assert!(before > 0, "expected issues from `teh `, got {before}");
    s.feed_bytes(&[0x0D]);
    assert!(s.issues().is_empty(), "issues survived boundary");
}

#[test]
fn issues_update_on_change() {
    let mut s = InputState::new();
    s.feed_bytes(b"hello");
    let v0 = s.buffer().version();
    s.feed_bytes(b" teh");
    assert_ne!(v0, s.buffer().version());
}

#[test]
fn misspelling_is_visible_in_issues() {
    let mut s = InputState::new();
    s.feed_bytes(b"teh cat");
    assert!(
        s.issues().iter().any(|i| i.word.eq_ignore_ascii_case("teh")),
        "expected `teh` in issues: {:?}",
        s.issues(),
    );
}

#[test]
fn deferred_feed_plus_refresh_matches_per_byte_feed() {
    // The paste fast-path feeds the whole burst without linting, then
    // calls refresh() once. The resulting issues must match what the
    // per-byte path produces — same final buffer, same lints.
    let text = b"i beleive teh fox jumpd";

    let mut per_byte = InputState::new();
    for &b in text {
        per_byte.feed_bytes(&[b]);
    }

    let mut deferred = InputState::new();
    deferred.feed_bytes_deferred(text);
    // Before refresh, the lint cache is intentionally stale (empty).
    assert!(
        deferred.issues().is_empty(),
        "deferred feed must not run harper before refresh",
    );
    deferred.refresh();

    let mut a: Vec<&str> = per_byte.issues().iter().map(|i| i.word.as_str()).collect();
    let mut b: Vec<&str> = deferred.issues().iter().map(|i| i.word.as_str()).collect();
    a.sort_unstable();
    b.sort_unstable();
    assert_eq!(a, b, "deferred+refresh lints must match per-byte lints");
    assert_eq!(per_byte.buffer().text(), deferred.buffer().text());
}

#[test]
fn refresh_is_noop_when_buffer_unchanged() {
    // Calling refresh() twice in a row must not re-run harper or
    // change the issue set — the version guard makes the second call
    // a no-op.
    let mut s = InputState::new();
    s.feed_bytes_deferred(b"teh cat");
    s.refresh();
    let first: Vec<String> = s.issues().iter().map(|i| i.word.clone()).collect();
    s.refresh();
    let second: Vec<String> = s.issues().iter().map(|i| i.word.clone()).collect();
    assert_eq!(first, second);
}

#[test]
fn ascii_keystroke_sequence_yields_lints() {
    let mut s = InputState::new();
    // Simulate typing "wirte a paragprah" key-by-key
    for &b in b"wirte a paragprah" {
        s.feed_bytes(&[b]);
    }
    let words: Vec<&str> = s.issues().iter().map(|i| i.word.as_str()).collect();
    // We don't pin to the exact wording (harper may suggest different
    // corrections for different words), but at minimum it should have
    // flagged something that looks like a misspelling.
    assert!(
        !words.is_empty(),
        "expected at least one misspelling for `wirte a paragprah`, got none",
    );
}
