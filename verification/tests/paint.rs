use tuipo::echo::EchoMatcher;
use tuipo::event::{InputEvent, PrintEvent};
use tuipo::clock::Instant;
use tuipo::paint::{build_annotations_with, paint_signature, PaintGate, FANCY, PAUSE_MS, PLAIN};
use tuipo::screen::{CursorPos, ScreenState};
use tuipo::spell::{IssueCategory, SpellIssue};

fn at_ms(millis: u64) -> Instant {
    Instant { nanos: u128::from(millis) * 1_000_000 }
}

fn issue(char_start: usize, char_end: usize, word: &str) -> SpellIssue {
    SpellIssue {
        byte_start: char_start,
        byte_end: char_end,
        char_start,
        char_end,
        word: word.into(),
        message: "test".into(),
        suggestions: vec!["x".into()],
        category: IssueCategory::Spelling,
        priority: 50,
    }
}

fn screen_with_cursor(cols: u16, rows: u16, row: u16, col: u16) -> ScreenState {
    let mut s = ScreenState::new(cols, rows);
    s.cursor = CursorPos { row, col };
    s
}

fn screen(cols: u16, rows: u16) -> ScreenState {
    ScreenState::new(cols, rows)
}

/// Helper: seed the matcher's print history with `text` at (row, col)
/// so the anchor search finds it.
fn feed_history(m: &mut EchoMatcher, row: u16, start_col: u16, text: &str) {
    for (i, ch) in text.chars().enumerate() {
        m.apply_print(&PrintEvent {
            ch,
            at: CursorPos { row, col: start_col + i as u16 },
        });
    }
}

/// Run `build_annotations` with the PLAIN style and a fresh gate.
/// Most tests assert against plain-underline SGR for stability across
/// terminals; the FANCY path is exercised by its own dedicated tests.
/// Grammar gate stays `false` because the typical test data uses
/// `IssueCategory::Spelling` (which is paintable unconditionally).
fn paint_plain(m: &EchoMatcher, screen: &ScreenState) -> Vec<u8> {
    let mut g = PaintGate::new();
    build_annotations_with(&mut g, m, screen, true, PLAIN, false)
}

#[test]
fn empty_matcher_paints_nothing() {
    let m = EchoMatcher::new();
    assert!(paint_plain(&m, &screen(80, 24)).is_empty());
}

#[test]
fn paint_disabled_returns_empty() {
    let mut m = EchoMatcher::new();
    m.apply_input(InputEvent::Lints {
        issues: vec![issue(0, 3, "teh")],
        buffer_chars: 4,
        buffer_text: "teh ".into(),
        buffer_cursor: 0,
    });
    feed_history(&mut m, 0, 0, "teh ");
    let mut g = PaintGate::new();
    let out = build_annotations_with(
        &mut g,
        &m,
        &screen_with_cursor(80, 24, 0, 4),
        false,
        PLAIN,
        false,
    );
    assert!(out.is_empty(), "active=false should suppress paint");
}

#[test]
fn anchor_based_paint_uses_relative_moves_to_match_position() {
    // Buffer "teh " (4 chars; trailing space means the lint at 0..3 is
    // a completed word, not the one being typed). Rendered at (row=2,
    // col=5). Cursor at (row=2, col=9). Paint should move LEFT 4 cols
    // to col 5, draw "teh", land at col 8 — then a 1-col right restore.
    let mut m = EchoMatcher::new();
    m.apply_input(InputEvent::Lints {
        issues: vec![issue(0, 3, "teh")],
        buffer_chars: 4,
        buffer_text: "teh ".into(),
        buffer_cursor: 0,
    });
    feed_history(&mut m, 2, 5, "teh ");
    let s = screen_with_cursor(80, 24, 2, 9);
    let out = paint_plain(&m, &s);
    let st = String::from_utf8_lossy(&out);
    assert!(st.starts_with("\x1b[4D"), "expected leading left-4 move: {st:?}");
    // Plain SGR — `\x1b[4m` underline + `\x1b[24m` reset. NOT the
    // colon-separated forms (Apple Terminal mis-parses them) and NOT
    // a foreground color change.
    assert!(st.contains("\x1b[4m"), "missing plain-underline SGR: {st:?}");
    assert!(st.contains("teh\x1b[24m"), "missing underline-off after word: {st:?}");
    assert!(!st.contains("\x1b[4:3m"), "colon-undercurl leaked: {st:?}");
    assert!(!st.contains("\x1b[58:"), "colon-underline-color leaked: {st:?}");
    // Must not use absolute CUP (would target wrong row when the local
    // terminal has scrollback offset from the PTY).
    assert!(!st.contains(";5H"), "absolute CUP leaked: {st:?}");
    assert!(!st.contains(";6H"), "absolute CUP leaked: {st:?}");
    // Must not use ESC 7/8 (shared saved-cursor slot conflicts with child).
    assert!(!st.contains("\x1b7"), "should not save cursor: {st:?}");
    assert!(!st.contains("\x1b8"), "should not restore via ESC 8: {st:?}");
}

#[test]
fn fancy_style_emits_curly_red_underline() {
    // The FANCY style is opt-in via TERM_PROGRAM detection (non-Apple)
    // and renders curly + bright-red underline color on terminals that
    // can parse the colon sub-parameter SGR. Apple Terminal users get
    // PLAIN as a fallback — see the dedicated style detection test.
    let mut m = EchoMatcher::new();
    m.apply_input(InputEvent::Lints {
        issues: vec![issue(0, 3, "teh")],
        buffer_chars: 4,
        buffer_text: "teh ".into(),
        buffer_cursor: 0,
    });
    feed_history(&mut m, 0, 0, "teh ");
    let mut g = PaintGate::new();
    let out = build_annotations_with(
        &mut g,
        &m,
        &screen_with_cursor(80, 24, 0, 4),
        true,
        FANCY,
        false,
    );
    let st = String::from_utf8_lossy(&out);
    assert!(st.contains("\x1b[4:3m"), "missing curly-underline SGR: {st:?}");
    assert!(
        st.contains("\x1b[58:2::255:0:0m"),
        "missing direct-color underline SGR: {st:?}"
    );
    // The word's bytes are wrapped by open+close exactly:
    assert!(
        st.contains("\x1b[4:3m\x1b[58:2::255:0:0mteh\x1b[59m\x1b[24m"),
        "wrong wrapping: {st:?}"
    );
}

#[test]
fn paint_anchors_correctly_with_prompt_chrome() {
    // Prompt "> hello there " on row 7 col 2. Buffer "hello there "
    // (trailing space makes "there" a completed word), lint on "there"
    // at chars 6..11, buffer_chars 12. Cursor at (7, 16). Expected:
    // move LEFT 6 cols to col 10, paint "there", land at col 15, then
    // restore right 1.
    let mut m = EchoMatcher::new();
    m.apply_input(InputEvent::Lints {
        issues: vec![issue(6, 11, "there")],
        buffer_chars: 12,
        buffer_text: "hello there ".into(),
        buffer_cursor: 0,
    });
    feed_history(&mut m, 7, 2, "> hello there ");
    let s = screen_with_cursor(80, 24, 7, 16);
    let out = paint_plain(&m, &s);
    let st = String::from_utf8_lossy(&out);
    assert!(st.starts_with("\x1b[6D"), "expected leading left-6 move: {st:?}");
    assert!(st.contains("\x1b[4mthere\x1b[24m"));
}

#[test]
fn paint_uses_latest_occurrence_when_buffer_text_appears_twice() {
    // Same input rendered in a preview row and the actual input row.
    // Anchor must pick the later one. Buffer "teh " so the lint at
    // 0..3 isn't the current word.
    let mut m = EchoMatcher::new();
    m.apply_input(InputEvent::Lints {
        issues: vec![issue(0, 3, "teh")],
        buffer_chars: 4,
        buffer_text: "teh ".into(),
        buffer_cursor: 0,
    });
    feed_history(&mut m, 1, 4, "teh "); // preview (earlier)
    feed_history(&mut m, 5, 8, "teh "); // input (later)
    let s = screen_with_cursor(80, 24, 5, 12);
    let out = paint_plain(&m, &s);
    let st = String::from_utf8_lossy(&out);
    // Anchor = (5, 8). Cursor = (5, 12). Same row → no row move.
    // Col delta -4 → `\x1b[4D`.
    assert!(st.starts_with("\x1b[4D"), "expected left-4 move: {st:?}");
    assert!(!st.contains("\x1b[4A"), "should not move to preview row: {st:?}");
}

#[test]
fn paint_restores_cursor_when_anchor_row_differs_from_cursor_row() {
    // Cursor at (4, 7), anchor at (2, 5), lint "teh" at chars 0..3 of
    // a 4-char buffer "teh ". Approach: up 2, left 2. Paint "teh".
    // Pen lands at (2, 8). Restore: down 2, left 1.
    let mut m = EchoMatcher::new();
    m.apply_input(InputEvent::Lints {
        issues: vec![issue(0, 3, "teh")],
        buffer_chars: 4,
        buffer_text: "teh ".into(),
        buffer_cursor: 0,
    });
    feed_history(&mut m, 2, 5, "teh ");
    let s = screen_with_cursor(80, 24, 4, 7);
    let out = paint_plain(&m, &s);
    let st = String::from_utf8_lossy(&out);
    assert!(st.contains("\x1b[2A"), "missing up-2 in approach: {st:?}");
    assert!(st.contains("\x1b[2D"), "missing left-2 in approach: {st:?}");
    assert!(st.ends_with("\x1b[2B\x1b[1D"), "wrong restore trailer: {st:?}");
}

#[test]
fn paint_skips_grammar_and_style_when_grammar_disabled() {
    let mut grammar_issue = issue(0, 3, "the");
    grammar_issue.category = IssueCategory::Grammar;
    let mut style_issue = issue(4, 6, "is");
    style_issue.category = IssueCategory::Style;
    let mut m = EchoMatcher::new();
    m.apply_input(InputEvent::Lints {
        issues: vec![grammar_issue, style_issue],
        buffer_chars: 7,
        buffer_text: "the is ".into(),
        buffer_cursor: 0,
    });
    feed_history(&mut m, 0, 0, "the is ");
    let out = paint_plain(&m, &screen_with_cursor(80, 24, 0, 7));
    assert!(out.is_empty(), "non-spelling lints should not paint: {out:?}");
}

#[test]
fn paint_includes_grammar_lints_when_grammar_enabled() {
    // Opt-in grammar checking surfaces the narrow-whitelist lints
    // alongside spelling. Style lints stay hidden because they're a
    // separate (not-yet-shipped) opt-in.
    let mut grammar_issue = issue(0, 3, "are");
    grammar_issue.category = IssueCategory::Grammar;
    let mut style_issue = issue(4, 6, "is");
    style_issue.category = IssueCategory::Style;
    let mut m = EchoMatcher::new();
    m.apply_input(InputEvent::Lints {
        issues: vec![grammar_issue, style_issue],
        buffer_chars: 7,
        buffer_text: "are is ".into(),
        buffer_cursor: 0,
    });
    feed_history(&mut m, 0, 0, "are is ");
    let mut g = PaintGate::new();
    let out = build_annotations_with(
        &mut g,
        &m,
        &screen_with_cursor(80, 24, 0, 7),
        true,
        PLAIN,
        true, // grammar_enabled
    );
    let st = String::from_utf8_lossy(&out);
    assert!(
        st.contains("\x1b[4mare\x1b[24m"),
        "grammar lint should paint when enabled: {st:?}"
    );
    // Style lint stays hidden — it's not in our actionable set.
    assert!(
        !st.contains("\x1b[4mis\x1b[24m"),
        "style lint should not paint even with grammar enabled: {st:?}"
    );
}

#[test]
fn paint_skips_lints_with_no_suggestions() {
    // Lints harper produced without any replacement to suggest are
    // usually partial-word artifacts. Painting them produces visual
    // noise the user can't act on.
    let mut no_sugg = issue(0, 3, "teh");
    no_sugg.suggestions.clear();
    let mut m = EchoMatcher::new();
    m.apply_input(InputEvent::Lints {
        issues: vec![no_sugg],
        buffer_chars: 4,
        buffer_text: "teh ".into(),
        buffer_cursor: 0,
    });
    feed_history(&mut m, 0, 0, "teh ");
    let out = paint_plain(&m, &screen_with_cursor(80, 24, 0, 4));
    assert!(out.is_empty(), "lint without suggestions should not paint: {out:?}");
}

#[test]
fn paint_skips_the_word_being_typed() {
    // The lint extends to the cursor (char_end == buffer_chars), so
    // the user is mid-typing this word. Skip — the lint will paint
    // once the user types a separator.
    let mut m = EchoMatcher::new();
    m.apply_input(InputEvent::Lints {
        issues: vec![issue(0, 3, "teh")],
        buffer_chars: 3,
        buffer_text: "teh".into(),
        buffer_cursor: 0,
    });
    feed_history(&mut m, 0, 0, "teh");
    let out = paint_plain(&m, &screen_with_cursor(80, 24, 0, 3));
    assert!(out.is_empty(), "current word should be skipped: {out:?}");
}

#[test]
fn paint_skipped_when_buffer_chars_zero() {
    let mut m = EchoMatcher::new();
    m.apply_input(InputEvent::Lints {
        issues: vec![issue(0, 3, "teh")],
        buffer_chars: 0,
        buffer_text: String::new(),
        buffer_cursor: 0,
    });
    assert!(paint_plain(&m, &screen_with_cursor(80, 24, 0, 0)).is_empty());
}

#[test]
fn paint_skipped_when_anchor_cannot_be_found() {
    let mut m = EchoMatcher::new();
    m.apply_input(InputEvent::Lints {
        issues: vec![issue(0, 5, "hello")],
        buffer_chars: 6,
        buffer_text: "hello ".into(),
        buffer_cursor: 0,
    });
    feed_history(&mut m, 0, 0, "world");
    assert!(paint_plain(&m, &screen_with_cursor(80, 24, 0, 6)).is_empty());
}

#[test]
fn paint_skipped_when_lint_extends_past_right_edge() {
    // 20-col screen. Anchor at col 4 → "longword12" lint spans cols
    // 9..19, fits inside cols 0..20. Buffer has trailing space so the
    // lint isn't the current word.
    let mut m = EchoMatcher::new();
    m.apply_input(InputEvent::Lints {
        issues: vec![issue(5, 15, "longword12")],
        buffer_chars: 16,
        buffer_text: "abcdelongword12 ".into(),
        buffer_cursor: 0,
    });
    feed_history(&mut m, 0, 4, "abcdelongword12 ");
    let out_ok = paint_plain(&m, &screen_with_cursor(20, 24, 0, 19));
    assert!(!out_ok.is_empty(), "lint within bounds should paint");
    // Anchor at col 6 → lint spans cols 11..21, exceeds cols (20).
    let mut m2 = EchoMatcher::new();
    m2.apply_input(InputEvent::Lints {
        issues: vec![issue(5, 15, "longword12")],
        buffer_chars: 16,
        buffer_text: "abcdelongword12 ".into(),
        buffer_cursor: 0,
    });
    feed_history(&mut m2, 0, 6, "abcdelongword12 ");
    let out_skip = paint_plain(&m2, &screen_with_cursor(20, 24, 0, 19));
    assert!(out_skip.is_empty(), "lint past right edge should not paint");
}

#[test]
fn paint_clears_stale_span_when_lint_disappears() {
    // The user's scenario: type "reacon ", paint underlines "reacon"
    // at cols 0..6; then fix in place (backspace "con", type "son")
    // so buffer becomes "reason". The host only rewrites cols 3..6
    // — cols 0..2 keep our stale underline attribute until we
    // actively repaint those cells without it. This test verifies
    // that the second paint emits `\x1b[24m` + the current grid chars
    // at the original span, clearing the leftover underline.
    let mut m = EchoMatcher::new();
    m.apply_input(InputEvent::Lints {
        issues: vec![issue(0, 6, "reacon")],
        buffer_chars: 7,
        buffer_text: "reacon ".into(),
        buffer_cursor: 0,
    });
    feed_history(&mut m, 0, 0, "reacon ");
    let mut g = PaintGate::new();

    // First paint: underline "reacon".
    let out1 = build_annotations_with(
        &mut g,
        &m,
        &screen_with_cursor(80, 24, 0, 7),
        true,
        PLAIN,
        false,
    );
    assert!(
        String::from_utf8_lossy(&out1).contains("\x1b[4mreacon\x1b[24m"),
        "first paint should underline reacon: {out1:?}"
    );
    assert_eq!(g.painted_len(), 1, "should track the painted span");

    // User fixes in place: grid cells at cols 3..6 are now 's','o','n'.
    // Buffer becomes "reason ". Lints empty (correct word).
    m.apply_input(InputEvent::Lints {
        issues: vec![],
        buffer_chars: 7,
        buffer_text: "reason ".into(),
        buffer_cursor: 0,
    });
    m.apply_print(&PrintEvent { ch: 's', at: CursorPos { row: 0, col: 3 } });
    m.apply_print(&PrintEvent { ch: 'o', at: CursorPos { row: 0, col: 4 } });
    m.apply_print(&PrintEvent { ch: 'n', at: CursorPos { row: 0, col: 5 } });

    let out2 = build_annotations_with(
        &mut g,
        &m,
        &screen_with_cursor(80, 24, 0, 7),
        true,
        PLAIN,
        false,
    );
    let st = String::from_utf8_lossy(&out2);
    // We should emit `\x1b[24m` (underline off) followed by the
    // current grid chars at cols 0..6 — "reason" — so the cells get
    // rewritten without the underline attribute.
    assert!(
        st.contains("\x1b[24mreason"),
        "expected clear pass to rewrite cells with underline off: {st:?}"
    );
    assert!(
        !st.contains("\x1b[4mreason"),
        "should not re-underline the fixed word: {st:?}"
    );
    assert_eq!(g.painted_len(), 0, "tracking should be empty after clear");
}

#[test]
fn paint_idempotent_when_same_span_stays_lint() {
    // Re-painting the same lint shouldn't add or drop tracked spans.
    let mut m = EchoMatcher::new();
    m.apply_input(InputEvent::Lints {
        issues: vec![issue(0, 3, "teh")],
        buffer_chars: 4,
        buffer_text: "teh ".into(),
        buffer_cursor: 0,
    });
    feed_history(&mut m, 0, 0, "teh ");
    let mut g = PaintGate::new();
    let s = screen_with_cursor(80, 24, 0, 4);
    let _ = build_annotations_with(&mut g, &m, &s, true, PLAIN, false);
    let n_after_first = g.painted_len();
    let _ = build_annotations_with(&mut g, &m, &s, true, PLAIN, false);
    let n_after_second = g.painted_len();
    assert_eq!(n_after_first, n_after_second);
    assert_eq!(n_after_first, 1);
}

#[test]
fn forget_painted_drops_tracking_without_writing() {
    let mut g = PaintGate::new();
    let mut m = EchoMatcher::new();
    m.apply_input(InputEvent::Lints {
        issues: vec![issue(0, 3, "teh")],
        buffer_chars: 4,
        buffer_text: "teh ".into(),
        buffer_cursor: 0,
    });
    feed_history(&mut m, 0, 0, "teh ");
    let _ = build_annotations_with(&mut g, &m, &screen_with_cursor(80, 24, 0, 4), true, PLAIN, false);
    assert_eq!(g.painted_len(), 1);
    g.forget_painted();
    assert_eq!(g.painted_len(), 0);
}

#[test]
fn stale_span_carried_forward_when_grid_missing_cells() {
    let mut m = EchoMatcher::new();
    m.apply_input(InputEvent::Lints {
        issues: vec![issue(0, 3, "teh")],
        buffer_chars: 4,
        buffer_text: "teh ".into(),
        buffer_cursor: 0,
    });
    feed_history(&mut m, 0, 0, "teh ");
    let mut g = PaintGate::new();
    let _ = build_annotations_with(&mut g, &m, &screen_with_cursor(80, 24, 0, 4), true, PLAIN, false);
    assert_eq!(g.painted_len(), 1);

    // Lint goes away AND the grid loses the relevant cells (mimics
    // the mid-fix window where backspace echoes have erased grid
    // entries but the replacement chars haven't echoed back yet).
    m.apply_input(InputEvent::Lints {
        issues: vec![],
        buffer_chars: 0,
        buffer_text: String::new(),
        buffer_cursor: 0,
    });
    m.clear_screen();

    let out = build_annotations_with(&mut g, &m, &screen_with_cursor(80, 24, 0, 4), true, PLAIN, false);
    // No bytes are emitted (grid empty → no chars to rewrite), but
    // the span is RETAINED in tracking so the next paint cycle can
    // retry once the grid fills in.
    assert!(out.is_empty(), "should emit nothing when grid is empty: {out:?}");
    assert_eq!(g.painted_len(), 1, "stale span carried forward for retry");

    // Refill the grid (simulates the replacement chars echoing back).
    feed_history(&mut m, 0, 0, "the ");
    let out2 = build_annotations_with(&mut g, &m, &screen_with_cursor(80, 24, 0, 4), true, PLAIN, false);
    let st = String::from_utf8_lossy(&out2);
    assert!(
        st.contains("\x1b[24m"),
        "second pass should emit the deferred clear: {st:?}"
    );
    assert_eq!(g.painted_len(), 0, "carry-forward should clear once grid is whole");
}

#[test]
fn stale_span_partial_clear_emits_present_run_only() {
    // Span covers cols 0..6. Only cols 0..3 are in the grid; cols
    // 3..6 are missing. The clear pass should emit a `\x1b[24m` +
    // first-3-chars run and skip the missing tail. The span is
    // carried forward so the missing tail gets retried next tick.
    let mut m = EchoMatcher::new();
    m.apply_input(InputEvent::Lints {
        issues: vec![issue(0, 6, "abcdef")],
        buffer_chars: 7,
        buffer_text: "abcdef ".into(),
        buffer_cursor: 0,
    });
    feed_history(&mut m, 0, 0, "abcdef ");
    let mut g = PaintGate::new();
    let _ = build_annotations_with(&mut g, &m, &screen_with_cursor(80, 24, 0, 7), true, PLAIN, false);
    assert_eq!(g.painted_len(), 1);

    // Lint goes away and only the first half of the span is still
    // in the grid — simulate by erasing cols 3..6.
    m.apply_input(InputEvent::Lints {
        issues: vec![],
        buffer_chars: 7,
        buffer_text: "abcdef ".into(),
        buffer_cursor: 0,
    });
    m.erase_cells(0, 3, 7);

    let out = build_annotations_with(&mut g, &m, &screen_with_cursor(80, 24, 0, 7), true, PLAIN, false);
    let st = String::from_utf8_lossy(&out);
    // First run "abc" should have been cleared.
    assert!(
        st.contains("\x1b[24mabc"),
        "partial clear should emit the present run: {st:?}"
    );
    // Span carries forward because cols 3..6 were missing.
    assert_eq!(g.painted_len(), 1, "incomplete clear carries forward");
}

#[test]
fn pause_gate_blocks_immediately_after_keystroke() {
    let mut g = PaintGate::new();
    g.mark_keystroke(at_ms(1_000));
    let now = at_ms(1_000);
    assert!(!g.should_paint(now), "should not paint right after keystroke");
}

#[test]
fn pause_gate_fires_after_pause_window() {
    let mut g = PaintGate::new();
    g.mark_keystroke(at_ms(1_000));
    // An instant past the pause.
    let future = at_ms(1_000 + PAUSE_MS + 10);
    assert!(g.should_paint(future));
}

#[test]
fn pause_gate_skips_when_not_dirty() {
    let mut g = PaintGate::new();
    g.record_paint(0);
    // No keystroke, no dirty change.
    assert!(!g.should_paint(at_ms(11_000)));
}

#[test]
fn record_paint_clears_dirty_flag() {
    let mut g = PaintGate::new();
    g.mark_keystroke(at_ms(1_000));
    // After the pause window, paint should fire once...
    let future = at_ms(1_000 + PAUSE_MS + 10);
    assert!(g.should_paint(future));
    g.record_paint(123);
    // ...and not again until something marks dirty.
    assert!(!g.should_paint(at_ms(1_000 + PAUSE_MS + 10 + 10_000)));
}

#[test]
fn paint_again_after_new_keystroke() {
    let mut g = PaintGate::new();
    g.mark_keystroke(at_ms(1_000));
    let t1 = at_ms(1_000 + PAUSE_MS + 10);
    assert!(g.should_paint(t1));
    g.record_paint(1);
    g.mark_keystroke(t1);
    let t2 = at_ms(1_000 + 2 * (PAUSE_MS + 10));
    assert!(g.should_paint(t2), "new keystroke should re-arm painting");
}

#[test]
fn paint_anchors_on_last_line_for_multi_line_buffer() {
    let mut m = EchoMatcher::new();
    m.apply_input(InputEvent::Lints {
        issues: vec![issue(13, 16, "teh")],
        buffer_chars: 21,
        buffer_text: "line one\nfix teh now ".into(),
        buffer_cursor: 21,
    });
    // Host renders line 1 on row 3 col 0, line 2 on row 4 col 0.
    feed_history(&mut m, 3, 0, "line one");
    feed_history(&mut m, 4, 0, "fix teh now ");
    let out = paint_plain(&m, &screen_with_cursor(80, 24, 4, 12));
    let st = String::from_utf8_lossy(&out);
    // Anchor at row 4, col 0. "teh" lives at local cols 4..7.
    // Cursor at col 12 → leading move is left-by-(12-4)=8.
    assert!(
        st.contains("\x1b[4mteh\x1b[24m"),
        "should paint teh on the trailing line: {st:?}"
    );
    assert!(
        st.starts_with("\x1b[8D"),
        "leading move should land at local col 4 of the trailing line: {st:?}"
    );
}

#[test]
fn paint_handles_a_wrapping_earlier_line() {
    let mut m = EchoMatcher::new();
    m.apply_input(InputEvent::Lints {
        issues: vec![issue(13, 16, "teh")],
        buffer_chars: 25,
        buffer_text: "abcdefghijkl teh\ntrailing".into(),
        buffer_cursor: 25,
    });
    // Grid layout per the wrapped rendering.
    feed_history(&mut m, 0, 0, "abcdefghijkl t");
    feed_history(&mut m, 1, 0, "eh");
    feed_history(&mut m, 2, 0, "trailing");
    let out = paint_plain(&m, &screen_with_cursor(14, 24, 2, 8));
    let st = String::from_utf8_lossy(&out);
    // The cross-wrap "teh" is skipped (would paint at wrong row).
    // The trailing line has no lints (none defined). So no paint
    // bytes should be emitted at all.
    assert!(
        !st.contains("\x1b[4m"),
        "cross-wrap lint must not paint: {st:?}"
    );
}

#[test]
fn paint_paints_lints_on_every_buffer_line() {
    let mut m = EchoMatcher::new();
    m.apply_input(InputEvent::Lints {
        issues: vec![issue(0, 3, "teh"), issue(15, 18, "teh")],
        buffer_chars: 23,
        buffer_text: "teh fix me\nfix teh now ".into(),
        buffer_cursor: 23,
    });
    feed_history(&mut m, 3, 0, "teh fix me");
    feed_history(&mut m, 4, 0, "fix teh now ");
    let out = paint_plain(&m, &screen_with_cursor(80, 24, 4, 12));
    let st = String::from_utf8_lossy(&out);
    let paints = st.matches("\x1b[4mteh\x1b[24m").count();
    assert_eq!(paints, 2, "both lines' lints must be painted: {st:?}");
    // The leading move targets one of the two lints. The line-0
    // lint is at (row 3, col 0); the line-1 lint at (row 4, col 4).
    // Either is fine — the assertion that matters is that BOTH are
    // emitted as separate `\x1b[4mteh\x1b[24m` runs above.
    assert!(
        st.contains("\x1b[1A") || st.contains("\x1b[1B"),
        "should make at least one vertical move between rows: {st:?}"
    );
}

#[test]
fn paint_soft_wrapped_single_line_underlines_first_row() {
    // User types a long prompt that soft-wraps in a 20-col terminal.
    // Text starts at col 2 (after a prompt marker). line_width = 18.
    // Buffer: "I'm setting up teh new thing " (29 chars).
    // Row 5 cols 2..19: "I'm setting up teh" (18 chars)
    // Row 6 cols 2..12: " new thing "       (11 chars)
    // "teh" is at chars 16..19 → local offset 16 → wrap-row 0,
    // col_start = 2 + 16 = 18, col_end = 2 + 19 = 21... wait that
    // exceeds 20 cols. Let me adjust.
    //
    // Actually: text starts at col 2, line_width = 18. "teh" at
    // local chars 16..19 crosses the wrap boundary (16/18=0 but
    // 18/18=1). The painter skips lints that cross a wrap row.
    // Use a shorter prefix so "teh" fits fully on row 5.
    //
    // Buffer: "type teh thngs here and keep going on " (38 chars)
    // Row 5 cols 2..19: "type teh thngs her" (18 chars, 0..18)
    // Row 6 cols 2..19: "e and keep going o" (18 chars, 18..36)
    // Row 7 cols 2..3:  "n "                 (2 chars, 36..38)
    //
    // "teh" = chars 5..8 → wrap-row 0, col 2+5=7 to 2+8=10
    // "thngs" = chars 9..14 → wrap-row 0, col 2+9=11 to 2+14=16
    // Both on row 5. Cursor at row 7 col 4.
    let mut m = EchoMatcher::new();
    let buf = "type teh thngs here and keep going on ";
    m.apply_input(InputEvent::Lints {
        issues: vec![issue(5, 8, "teh"), issue(9, 14, "thngs")],
        buffer_chars: buf.chars().count(),
        buffer_text: buf.into(),
        buffer_cursor: buf.chars().count(),
    });
    feed_history(&mut m, 5, 2, "type teh thngs her");
    feed_history(&mut m, 6, 2, "e and keep going o");
    feed_history(&mut m, 7, 2, "n ");
    let s = screen_with_cursor(20, 24, 7, 4);
    let out = paint_plain(&m, &s);
    let st = String::from_utf8_lossy(&out);
    assert!(
        st.contains("\x1b[4mteh\x1b[24m"),
        "should underline teh on the first wrapped row: {st:?}"
    );
    assert!(
        st.contains("\x1b[4mthngs\x1b[24m"),
        "should underline thngs on the first wrapped row: {st:?}"
    );
}

#[test]
fn paint_soft_wrapped_lint_on_second_row() {
    // Lint lives on the SECOND wrap-row (not the anchor row).
    // Character-level wrapping: rows are fully filled.
    // Buffer: "this is correct but teh end " (28 chars)
    // 14-col screen, text at col 2 → 12 chars per row.
    let mut m = EchoMatcher::new();
    let buf = "this is correct but teh end ";
    m.apply_input(InputEvent::Lints {
        issues: vec![issue(20, 23, "teh")],
        buffer_chars: buf.chars().count(),
        buffer_text: buf.into(),
        buffer_cursor: buf.chars().count(),
    });
    feed_history(&mut m, 5, 2, "this is corr");
    feed_history(&mut m, 6, 2, "ect but teh ");
    feed_history(&mut m, 7, 2, "end ");
    let s = screen_with_cursor(14, 24, 7, 6);
    let out = paint_plain(&m, &s);
    let st = String::from_utf8_lossy(&out);
    assert!(
        st.contains("\x1b[4mteh\x1b[24m"),
        "should underline teh on the second wrap-row: {st:?}"
    );
}

#[test]
fn paint_word_wrapped_lint_on_second_row() {
    let mut m = EchoMatcher::new();
    let buf = "hello world teh end ";
    m.apply_input(InputEvent::Lints {
        issues: vec![issue(12, 15, "teh")],
        buffer_chars: buf.chars().count(),
        buffer_text: buf.into(),
        buffer_cursor: buf.chars().count(),
    });
    // Row 5: "hello world" — space at col 7 cursor-skipped
    for &(col, ch) in &[
        (2u16, 'h'), (3, 'e'), (4, 'l'), (5, 'l'), (6, 'o'),
        (8, 'w'), (9, 'o'), (10, 'r'), (11, 'l'), (12, 'd'),
    ] {
        m.apply_print(&PrintEvent {
            ch,
            at: CursorPos { row: 5, col },
        });
    }
    // Row 6: "teh end " — space at col 5 cursor-skipped
    for &(col, ch) in &[
        (2u16, 't'), (3, 'e'), (4, 'h'),
        (6, 'e'), (7, 'n'), (8, 'd'),
    ] {
        m.apply_print(&PrintEvent {
            ch,
            at: CursorPos { row: 6, col },
        });
    }
    let s = screen_with_cursor(16, 24, 6, 10);
    let out = paint_plain(&m, &s);
    let st = String::from_utf8_lossy(&out);
    assert!(
        st.contains("\x1b[4mteh\x1b[24m"),
        "word-wrapped lint on second row must paint: {st:?}"
    );
}

#[test]
fn signature_changes_when_state_changes() {
    let mut m = EchoMatcher::new();
    m.apply_input(InputEvent::Lints {
        issues: vec![issue(0, 3, "teh")],
        buffer_chars: 3,
        buffer_text: "teh".into(),
        buffer_cursor: 0,
    });
    let s1 = paint_signature(&m, &screen(80, 24));
    m.apply_input(InputEvent::Lints {
        issues: vec![issue(0, 3, "teh"), issue(4, 9, "abcde")],
        buffer_chars: 9,
        buffer_text: "teh abcde".into(),
        buffer_cursor: 0,
    });
    let s2 = paint_signature(&m, &screen(80, 24));
    assert_ne!(s1, s2);
}
