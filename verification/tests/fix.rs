use tuipo::buffer::FeedOutcome;
use tuipo::fix::{build_fix, try_tab_fix};
use tuipo::input::InputState;
use tuipo::spell::{IssueCategory, SpellIssue};

fn make_state(input: &[u8]) -> InputState {
    let mut s = InputState::new();
    let out = s.feed_bytes(input);
    // Ensure feeding worked
    let _ = out;
    s
}

#[test]
fn build_fix_mid_buffer_emits_right_moves_and_minimal_backspaces() {
    // The picker scenario: user typed a sentence, then moved the
    // cursor INTO the misspelling. Build a stub issue at chars 6..9
    // ("teh") with cursor at 7 (between 't' and 'e'). We expect 2
    // right-moves (to land cursor at char_end=9), 3 backspaces (to
    // delete "teh"), and replacement = just the suggestion (no
    // trailing-text retype — the trailing text is left untouched).
    let mut s = InputState::new();
    s.feed_bytes(b"write teh paragprah for the");
    // Park the cursor at char 7 (inside "teh"). Buffer is ASCII so
    // char offset == byte offset.
    for _ in 0.."write teh paragprah for the".len() - 7 {
        s.feed_bytes(&[0x1B, b'[', b'D']);
    }
    let teh = s
        .issues()
        .iter()
        .find(|i| i.word == "teh")
        .cloned()
        .expect("expected harper to flag `teh`");
    let fix = build_fix(&s, &teh, "the").expect("fix must build");
    assert_eq!(fix.right_moves, 2, "should walk cursor to char_end (7→9)");
    assert_eq!(fix.left_moves, 0);
    assert_eq!(fix.backspaces, 3, "delete only the 3 chars of `teh`");
    assert_eq!(fix.replacement_text, "the", "type only the suggestion");
}

#[test]
fn mid_buffer_fix_preserves_surrounding_text() {
    let mut s = InputState::new();
    s.feed_bytes(b"write teh paragprah for the");
    // Move the cursor back from position 27 to position 9 (just after
    // "teh") by sending 18 left-arrow CSIs.
    for _ in 0..18 {
        s.feed_bytes(&[0x1B, b'[', b'D']);
    }
    let teh = s
        .issues()
        .iter()
        .find(|i| i.word == "teh")
        .cloned()
        .expect("expected harper to flag `teh`");
    let fix = build_fix(&s, &teh, "the").expect("fix must build");
    // Cursor was at char 9 == char_end → no arrow moves needed.
    assert_eq!(fix.left_moves, 0);
    assert_eq!(fix.right_moves, 0);
    // Apply the fix's operations to the same state and verify the
    // buffer ends in the correct shape. This is the contract
    // apply_fix relies on: feeding the recorded byte sequence yields
    // the right text without touching anything outside the
    // misspelling's span.
    for _ in 0..fix.left_moves {
        s.feed_bytes(b"\x1b[D");
    }
    for _ in 0..fix.right_moves {
        s.feed_bytes(b"\x1b[C");
    }
    for _ in 0..fix.backspaces {
        s.feed_bytes(&[0x08]);
    }
    s.feed_bytes(fix.replacement_text.as_bytes());
    assert_eq!(s.buffer().text(), "write the paragprah for the");
}

#[test]
fn build_fix_mid_buffer_emits_left_moves_when_cursor_past_word() {
    // Cursor is just past the misspelling but not at end-of-buffer
    // (e.g. user typed "teh world" and moved cursor back to between
    // the space and 'w'). Expect left_moves to align to char_end.
    let mut s = InputState::new();
    s.feed_bytes(b"teh world");
    // Cursor at end (9). Move left until cursor=4 (just after space,
    // before 'w'). For `teh` at 0..3, char_end=3, so left_moves=1.
    for _ in 0..5 {
        s.feed_bytes(&[0x1B, b'[', b'D']);
    }
    let teh = s
        .issues()
        .iter()
        .find(|i| i.word == "teh")
        .cloned()
        .expect("expected harper to flag `teh`");
    let fix = build_fix(&s, &teh, "the").expect("fix must build");
    assert_eq!(fix.left_moves, 1, "walk cursor back from 4 to char_end=3");
    assert_eq!(fix.right_moves, 0);
    assert_eq!(fix.backspaces, 3);
    assert_eq!(fix.replacement_text, "the");
}

#[test]
fn fix_targets_most_recent_misspelling() {
    // `teh` first, then `paragprah`. The fix should target the latter.
    let state = make_state(b"teh paragprah");
    let fix = try_tab_fix(&state).expect("should fix the latest misspelling");
    assert_eq!(fix.issue_word, "paragprah");
    assert_eq!(fix.backspaces, "paragprah".len());
}

#[test]
fn no_fix_when_buffer_empty() {
    let state = make_state(b"");
    assert!(try_tab_fix(&state).is_none());
}

#[test]
fn no_fix_when_no_issues() {
    let state = make_state(b"hello world");
    assert!(try_tab_fix(&state).is_none());
}

#[test]
fn fix_works_with_typed_text_between_misspelling_and_cursor() {
    let state = make_state(b"write teh paragpraph at teh centrre of");
    let fix = try_tab_fix(&state).expect("should be able to fix centrre");
    // centrre is at the end (latest misspelling). 38 - 28 = 10
    // backspaces to delete "centrre of", then suggestion + " of".
    assert_eq!(fix.issue_word, "centrre");
    assert!(
        fix.replacement_text.ends_with(" of"),
        "replacement should preserve the trailing ' of': {:?}",
        fix.replacement_text,
    );
}

#[test]
fn feed_outcome_is_used() {
    // Smoke test that the buffer + state interaction works; not really
    // about fix logic, just ensures `FeedOutcome` is imported and the
    // construction path is exercised.
    let mut s = InputState::new();
    let out = s.feed_bytes(b"x");
    assert!(matches!(out, FeedOutcome::Updated | FeedOutcome::NoChange));
}

#[test]
fn build_fix_refuses_earlier_line_lint_in_multi_line_buffer() {
    // Simulate a buffer that contains a paste-produced newline.
    // First-line "teh" must not be Tab-fixable because injecting
    // its trailing-text retype would include the `\n`, which is
    // a boundary outside paste mode and would corrupt the buffer.
    // Use the bracketed-paste machinery to put the `\n` in the
    // buffer through the same code path real pastes use.
    let mut s = InputState::new();
    s.feed_bytes(&[0x1B, b'[', b'2', b'0', b'0', b'~']);
    s.feed_bytes(b"teh fix\nfix more");
    s.feed_bytes(&[0x1B, b'[', b'2', b'0', b'1', b'~']);
    assert_eq!(s.buffer().text(), "teh fix\nfix more");
    // Hand-craft a lint at chars 0..3 (the line-1 "teh"). harper
    // would have produced this, but for the test we fabricate it
    // so the assertion is independent of harper's exact output.
    let issue = SpellIssue {
        byte_start: 0,
        byte_end: 3,
        char_start: 0,
        char_end: 3,
        word: "teh".into(),
        message: "".into(),
        suggestions: vec!["the".into()],
        category: IssueCategory::Spelling,
        priority: 50,
    };
    assert!(
        build_fix(&s, &issue, "the").is_none(),
        "earlier-line lint must not produce a Fix"
    );
}

#[test]
fn build_fix_accepts_last_line_lint_in_multi_line_buffer() {
    // Counterpart to the previous test: line-2 "teh" IS fixable.
    let mut s = InputState::new();
    s.feed_bytes(&[0x1B, b'[', b'2', b'0', b'0', b'~']);
    s.feed_bytes(b"fix me\nfix teh more");
    s.feed_bytes(&[0x1B, b'[', b'2', b'0', b'1', b'~']);
    assert_eq!(s.buffer().text(), "fix me\nfix teh more");
    // Line-2 "teh" lives at chars 11..14 of the full buffer.
    let issue = SpellIssue {
        byte_start: 11,
        byte_end: 14,
        char_start: 11,
        char_end: 14,
        word: "teh".into(),
        message: "".into(),
        suggestions: vec!["the".into()],
        category: IssueCategory::Spelling,
        priority: 50,
    };
    let fix = build_fix(&s, &issue, "the").expect("last-line lint should be fixable");
    // End-of-buffer regime: trailing = " more" (after char_end).
    assert_eq!(fix.replacement_text, "the more");
    assert!(!fix.replacement_text.contains('\n'), "fix must not inject \\n");
}
