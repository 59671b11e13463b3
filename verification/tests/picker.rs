use tuipo::clock::{Duration, Instant};
use tuipo::config::{Config, EnvOverrides, Settings};
use tuipo::echo::EchoMatcher;
use tuipo::event::{InputEvent, PickerSnapshot, PrintEvent};
use tuipo::picker::{
    build_overlay, build_restore, check_hover, engage_for, pick_target, render_content,
    typing_forward_at_end, OverlayGate, OverlayRegion, RenderTarget,
};
use tuipo::screen::{CursorPos, ScreenState};
use tuipo::spell::{IssueCategory, SpellIssue};

fn at_ms(millis: u64) -> Instant {
    Instant { nanos: u128::from(millis) * 1_000_000 }
}

fn picker_on() -> Settings {
    let config = Config { picker: true, ..Config::default() };
    config.settings(&EnvOverrides::default())
}

fn issue(start: usize, end: usize, word: &str, suggestions: &[&str]) -> SpellIssue {
    SpellIssue {
        byte_start: start,
        byte_end: end,
        char_start: start,
        char_end: end,
        word: word.into(),
        message: "test".into(),
        suggestions: suggestions.iter().map(|s| (*s).into()).collect(),
        category: IssueCategory::Spelling,
        priority: 50,
    }
}

fn screen(cols: u16, rows: u16, cur: CursorPos) -> ScreenState {
    let mut s = ScreenState::new(cols, rows);
    s.cursor = cur;
    s
}

fn feed_history(m: &mut EchoMatcher, row: u16, start_col: u16, text: &str) {
    for (i, ch) in text.chars().enumerate() {
        m.apply_print(&PrintEvent {
            ch,
            at: CursorPos {
                row,
                col: start_col + i as u16,
            },
        });
    }
}

#[test]
fn engage_returns_none_when_no_suggestions() {
    assert!(engage_for(&issue(0, 3, "teh", &[])).is_none());
}

#[test]
fn nav_wraps_around_in_both_directions() {
    let mut e = engage_for(&issue(0, 3, "teh", &["the", "ten", "tech"])).unwrap();
    assert_eq!(e.selected, 0);
    e.nav(1);
    assert_eq!(e.selected, 1);
    e.nav(1);
    e.nav(1);
    assert_eq!(e.selected, 0, "wraps forward");
    e.nav(-1);
    assert_eq!(e.selected, 2, "wraps backward");
}

#[test]
fn pick_target_chooses_rightmost_actionable() {
    // Two lints; cursor is past both. Pick the later one.
    let lints = vec![
        issue(0, 3, "teh", &["the"]),
        issue(4, 13, "paragprah", &["paragraph"]),
    ];
    let picked = pick_target(&lints, 13, false).expect("should pick");
    assert_eq!(picked.word, "paragprah");
}

#[test]
fn pick_target_ignores_unactionable() {
    let lints = vec![issue(0, 3, "teh", &[])]; // no suggestions
    assert!(pick_target(&lints, 3, false).is_none());
}

#[test]
fn pick_target_inside_span_counts() {
    let lints = vec![issue(0, 6, "reacon", &["reason"])];
    // Cursor INSIDE the span, not just at end.
    let picked = pick_target(&lints, 2, false).expect("should pick");
    assert_eq!(picked.word, "reacon");
}

#[test]
fn pick_target_skips_when_cursor_outside() {
    let lints = vec![issue(0, 3, "teh", &["the"])];
    // Cursor past the end of the lint (with text between).
    assert!(pick_target(&lints, 10, false).is_none());
}

#[test]
fn pick_target_respects_grammar_gate() {
    // A grammar-category lint at the cursor. With grammar disabled
    // it must NOT be picked; with grammar enabled it should be.
    let mut grammar_lint = issue(0, 3, "are", &["is"]);
    grammar_lint.category = IssueCategory::Grammar;
    let lints = vec![grammar_lint];
    assert!(
        pick_target(&lints, 2, false).is_none(),
        "grammar disabled → grammar lint must not be picked"
    );
    let picked = pick_target(&lints, 2, true).expect("grammar enabled → pick");
    assert_eq!(picked.word, "are");
}

#[test]
fn render_content_lists_suggestions_with_selected_highlighted() {
    let suggs = vec!["the".into(), "ten".into(), "tech".into()];
    let c = render_content(&suggs, 1, true);
    let s = String::from_utf8(c.bytes.clone()).unwrap();
    // Selected is index 1 → "ten" wrapped in reverse video.
    assert!(s.contains("\x1b[7m[ten]\x1b[27m"), "missing reverse: {s:?}");
    // Other suggestions appear plainly.
    assert!(s.contains("the"));
    assert!(s.contains("tech"));
    // Engaged hint mentions Enter to commit.
    assert!(s.contains("enter"));
}

#[test]
fn render_content_passive_uses_brackets_not_reverse() {
    let suggs = vec!["the".into(), "ten".into()];
    let c = render_content(&suggs, 0, false);
    let s = String::from_utf8(c.bytes.clone()).unwrap();
    assert!(s.contains("[the]"));
    assert!(!s.contains("\x1b[7m"), "passive should not use reverse: {s:?}");
    assert!(s.contains("tab to pick"));
}

#[test]
fn build_overlay_renders_inline_right_when_room() {
    let mut m = EchoMatcher::new();
    m.apply_input(InputEvent::Lints {
        issues: vec![issue(0, 3, "teh", &["the", "ten"])],
        buffer_chars: 4,
        buffer_text: "teh ".into(),
        buffer_cursor: 3,
    });
    feed_history(&mut m, 5, 10, "teh ");
    let s = screen(120, 24, CursorPos { row: 5, col: 14 });
    let snap = PickerSnapshot {
        target: "teh".into(),
        suggestions: vec!["the".into(), "ten".into()],
        selected: 0,
    };
    let (bytes, region) =
        build_overlay(&RenderTarget::Engaged(&snap), &m, &s, None);
    assert!(!bytes.is_empty());
    let region = region.expect("expected a region");
    // Word ends at col 13 (anchor 10 + char_end 3). Inline = 14.
    assert_eq!(region.row, 5);
    assert_eq!(region.col_start, 14);
    let raw = String::from_utf8_lossy(&bytes);
    assert!(raw.contains("\x1b[7m[the]\x1b[27m"));
}

#[test]
fn build_overlay_falls_back_above_when_inline_too_wide() {
    // Narrow screen + 2 suggestions: with the engaged hint
    // (~22 chars), content is ~35 chars. Choose geometry so inline
    // doesn't fit but the row above (word_col_start..+content) does.
    let mut m = EchoMatcher::new();
    m.apply_input(InputEvent::Lints {
        issues: vec![issue(0, 3, "teh", &["the", "ten"])],
        buffer_chars: 4,
        buffer_text: "teh ".into(),
        buffer_cursor: 3,
    });
    feed_history(&mut m, 5, 10, "teh ");
    // cols = 45 → inline-right (col 14..49) exceeds; fallback above
    // (col 10..45) fits exactly.
    let s = screen(45, 24, CursorPos { row: 5, col: 14 });
    let snap = PickerSnapshot {
        target: "teh".into(),
        suggestions: vec!["the".into(), "ten".into()],
        selected: 0,
    };
    let (_, region) = build_overlay(&RenderTarget::Engaged(&snap), &m, &s, None);
    let region = region.expect("expected a region");
    assert_eq!(region.row, 4, "should fall back to row above");
    assert_eq!(region.col_start, 10, "aligned with word start on fallback");
}

#[test]
fn build_overlay_skips_when_no_room_above_or_right() {
    // Lint on row 0, screen too narrow for inline. No fallback.
    let mut m = EchoMatcher::new();
    m.apply_input(InputEvent::Lints {
        issues: vec![issue(0, 3, "teh", &["the", "ten", "tech"])],
        buffer_chars: 4,
        buffer_text: "teh ".into(),
        buffer_cursor: 3,
    });
    feed_history(&mut m, 0, 0, "teh ");
    let s = screen(10, 24, CursorPos { row: 0, col: 3 });
    let snap = PickerSnapshot {
        target: "teh".into(),
        suggestions: vec!["the".into(), "ten".into(), "tech".into()],
        selected: 0,
    };
    let (_, region) = build_overlay(&RenderTarget::Engaged(&snap), &m, &s, None);
    assert!(region.is_none(), "no safe place to render");
}

#[test]
fn build_restore_writes_grid_chars_with_full_reset() {
    let mut m = EchoMatcher::new();
    feed_history(&mut m, 5, 10, "hello world");
    let s = screen(80, 24, CursorPos { row: 5, col: 21 });
    let region = OverlayRegion {
        row: 5,
        col_start: 16,
        col_end: 21,
    };
    let bytes = build_restore(Some(region), &m, &s);
    let raw = String::from_utf8_lossy(&bytes);
    assert!(raw.contains("\x1b[m"), "missing full SGR reset: {raw:?}");
    assert!(raw.contains("world"), "missing grid chars: {raw:?}");
}

#[test]
fn typing_forward_at_end_gates_picker() {
    // The shared gate used by both hover and Tab-engage. The whole
    // point is that `cd jepa<Tab>` (cursor at end, typing forward)
    // must NOT engage the picker so shell completion still runs.
    // Typing forward at end-of-buffer → suppressed.
    assert!(typing_forward_at_end(7, 7, false), "cd jepa<Tab>: suppress");
    assert!(typing_forward_at_end(9, 7, false), "cursor past end: suppress");
    // Cursor moved back into a finished word → allowed.
    assert!(!typing_forward_at_end(2, 7, false), "cursor inside buffer");
    // At end-of-buffer but just shrank (backspaced into trailing word)
    // → allowed, matching the hover relaxation.
    assert!(!typing_forward_at_end(7, 7, true), "shrink relaxes it");
}

#[test]
fn check_hover_does_not_fire_while_user_types_at_end_of_buffer() {
    let settings = picker_on();

    let mut m = EchoMatcher::new();
    m.apply_input(InputEvent::Lints {
        issues: vec![issue(0, 3, "teh", &["the"])],
        buffer_chars: 3,
        // Cursor at end of buffer (still typing `teh`).
        buffer_text: "teh".into(),
        buffer_cursor: 3,
    });
    feed_history(&mut m, 0, 0, "teh");

    let mut gate = OverlayGate::new();
    let t0 = at_ms(1_000);
    gate.note_buffer(3, 3, t0);
    let later = at_ms(1_300);
    let changed = check_hover(&mut gate, &m, later, Duration::from_millis(250), &settings);
    assert!(!changed, "hover should be silent at end-of-buffer");
    assert!(gate.hover_lint.is_none());
}

#[test]
fn check_hover_fires_after_idle_window() {
    let mut m = EchoMatcher::new();
    m.apply_input(InputEvent::Lints {
        issues: vec![issue(0, 3, "teh", &["the"])],
        buffer_chars: 4,
        buffer_text: "teh ".into(),
        buffer_cursor: 2,
    });
    feed_history(&mut m, 0, 0, "teh ");

    let settings = picker_on();

    let mut gate = OverlayGate::new();
    let t0 = at_ms(1_000);
    gate.note_buffer(2, 4, t0);
    // Before idle window: no hover.
    assert!(!check_hover(&mut gate, &m, t0, Duration::from_millis(250), &settings));
    assert!(gate.hover_lint.is_none());
    // After idle window: hover lights up.
    let later = at_ms(1_300);
    let changed = check_hover(&mut gate, &m, later, Duration::from_millis(250), &settings);
    assert!(changed);
    assert_eq!(gate.hover_lint, Some(0));
}

#[test]
fn check_hover_fires_at_end_of_buffer_after_backspace_into_flagged_word() {
    // Scenario: user typed "write teh " (buffer_chars=10), saw the
    // underline, then backspaced once — buffer is now "write teh"
    // (buffer_chars=9, cursor=9). The shrink signal opens the hover
    // gate even though the cursor sits at end-of-buffer. Without
    // this branch, the user has no way to invoke the picker on the
    // last word short of typing a separator and then backspacing
    // into the middle of the word.
    let settings = picker_on();

    let mut m = EchoMatcher::new();
    // Initial state: "write teh " (10 chars), cursor at end.
    m.apply_input(InputEvent::Lints {
        issues: vec![issue(6, 9, "teh", &["the"])],
        buffer_chars: 10,
        buffer_text: "write teh ".into(),
        buffer_cursor: 10,
    });
    feed_history(&mut m, 0, 0, "write teh ");

    let mut gate = OverlayGate::new();
    let t0 = at_ms(1_000);
    gate.note_buffer(10, 10, t0);
    // First state: no shrink yet, cursor at end → silent.
    let later1 = at_ms(1_300);
    let changed = check_hover(&mut gate, &m, later1, Duration::from_millis(250), &settings);
    assert!(!changed, "no hover while typing forward");
    assert!(!gate.buffer_shrank);

    // Backspace: buffer "write teh" (9 chars), cursor at 9.
    m.apply_input(InputEvent::Lints {
        issues: vec![issue(6, 9, "teh", &["the"])],
        buffer_chars: 9,
        buffer_text: "write teh".into(),
        buffer_cursor: 9,
    });
    let t1 = at_ms(1_350);
    gate.note_buffer(9, 9, t1);
    assert!(gate.buffer_shrank, "shrink should be detected");

    // Before idle window: no hover (250ms gate).
    assert!(!check_hover(
        &mut gate,
        &m,
        t1,
        Duration::from_millis(250),
        &settings
    ));
    // After idle window: hover fires on "teh".
    let t2 = at_ms(1_650);
    let changed = check_hover(&mut gate, &m, t2, Duration::from_millis(250), &settings);
    assert!(changed, "hover should fire after backspace + idle");
    assert_eq!(gate.hover_lint, Some(0));
}

#[test]
fn check_hover_resets_shrink_after_subsequent_growth() {
    // After a backspace-shrink, a forward keystroke must flip the
    // gate closed again — otherwise the picker would keep popping
    // up while the user resumes typing after a brief edit.

    let mut gate = OverlayGate::new();
    let t0 = at_ms(1_000);
    // Walk through: write teh (9 chars, cursor=9) → backspace nothing
    // here, just the initial state — then add a space (grow), then
    // backspace (shrink), then type a char (grow again). After the
    // final grow, buffer_shrank should be false.
    gate.note_buffer(9, 9, t0);
    gate.note_buffer(10, 10, t0); // grew
    assert!(!gate.buffer_shrank);
    gate.note_buffer(9, 9, t0); // shrank
    assert!(gate.buffer_shrank);
    gate.note_buffer(10, 10, t0); // grew again
    assert!(!gate.buffer_shrank, "growth should reset the shrink flag");
}

#[test]
fn reset_buffer_tracking_prevents_false_shrink_after_boundary() {
    // Without resetting, a boundary (Enter) leaves
    // `last_buffer_chars = Some(N)`. The next prompt's first
    // keystroke arrives with `buffer_chars = 1`, which would
    // register as a shrink (1 < N) and open the hover gate on the
    // very first char of the new prompt.
    let mut gate = OverlayGate::new();
    let t0 = at_ms(1_000);
    gate.note_buffer(10, 10, t0);
    gate.reset_buffer_tracking();
    // Next prompt's first keystroke.
    gate.note_buffer(1, 1, t0);
    assert!(
        !gate.buffer_shrank,
        "post-boundary first keystroke must not register as shrink"
    );
}

fn two_words(cursor: usize) -> EchoMatcher {
    let mut m = EchoMatcher::new();
    m.apply_input(InputEvent::Lints {
        issues: vec![issue(0, 3, "teh", &["the"]), issue(8, 11, "teh", &["the"])],
        buffer_chars: 14,
        buffer_text: "teh cat teh ok".into(),
        buffer_cursor: cursor,
    });
    feed_history(&mut m, 5, 10, "teh cat teh ok");
    m
}

#[test]
fn tooltip_stands_beside_the_word_under_the_cursor() {
    let m = two_words(9);
    let s = screen(120, 24, CursorPos { row: 5, col: 19 });
    for (k, col) in [(0, 14), (1, 22)] {
        let (_, region) = build_overlay(&RenderTarget::Hover(&m.lints()[k]), &m, &s, None);
        assert_eq!(region.unwrap().col_start, col);
    }
}

#[test]
fn open_picker_stands_beside_the_word_under_the_cursor() {
    let s = screen(120, 24, CursorPos { row: 5, col: 19 });
    let snap = PickerSnapshot {
        target: "teh".into(),
        suggestions: vec!["the".into()],
        selected: 0,
    };
    for (cursor, col) in [(2, 14), (9, 22), (14, 14)] {
        let m = two_words(cursor);
        let (_, region) = build_overlay(&RenderTarget::Engaged(&snap), &m, &s, None);
        assert_eq!(region.unwrap().col_start, col);
    }
}

#[test]
fn what_is_drawn_is_what_was_opened_or_hovered() {
    let m = two_words(9);
    let mut gate = OverlayGate::new();
    assert!(gate.snapshot_to_render(m.lints()).is_none());
    gate.hover_lint = Some(1);
    match gate.snapshot_to_render(m.lints()) {
        Some(RenderTarget::Hover(lint)) => assert_eq!(lint.char_start, 8),
        other => panic!("expected a tooltip, got {other:?}"),
    }
    gate.hover_lint = Some(2);
    assert!(gate.snapshot_to_render(m.lints()).is_none());
    gate.set_engaged(Some(PickerSnapshot {
        target: "cat".into(),
        suggestions: vec!["car".into()],
        selected: 0,
    }));
    match gate.snapshot_to_render(m.lints()) {
        Some(RenderTarget::Engaged(snap)) => assert_eq!(snap.target, "cat"),
        other => panic!("expected the picker, got {other:?}"),
    }
}

#[test]
fn overlays_without_room_are_not_drawn() {
    let m = two_words(9);
    let s = screen(120, 24, CursorPos { row: 5, col: 19 });
    for len in [200, 0x10000] {
        let wide = issue(0, 3, "teh", &["x".repeat(len).as_str()]);
        let (_, region) = build_overlay(&RenderTarget::Hover(&wide), &m, &s, None);
        assert_eq!(region, None, "{len}");
    }
    for start in [200, 0x10000, 0x1FFF0] {
        let far = issue(start, start + 3, "teh", &["the"]);
        let (_, region) = build_overlay(&RenderTarget::Hover(&far), &m, &s, None);
        assert_eq!(region, None, "{start}");
    }
}
