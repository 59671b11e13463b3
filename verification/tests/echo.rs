use tuipo::echo::{EchoMatcher, GRID_CAP};
use tuipo::event::{EraseEvent, InputEvent, PrintEvent, ScreenEvent};
use tuipo::screen::CursorPos;
use tuipo::spell::{IssueCategory, SpellIssue};

fn pos(row: u16, col: u16) -> CursorPos {
    CursorPos { row, col }
}

#[test]
fn empty_matcher_returns_no_positions() {
    let m = EchoMatcher::new();
    assert_eq!(m.position_of(0), None);
    assert!(m.lints().is_empty());
}

#[test]
fn paired_user_then_print_records_position() {
    let mut m = EchoMatcher::new();
    m.apply_input(InputEvent::UserChar { ch: 'h', char_offset: 0 });
    m.apply_print(&PrintEvent { ch: 'h', at: pos(0, 5) });
    assert_eq!(m.position_of(0), Some(pos(0, 5)));
    assert_eq!(m.pending_len(), 0);
}

#[test]
fn multiple_chars_pair_in_order() {
    let mut m = EchoMatcher::new();
    m.apply_input(InputEvent::UserChar { ch: 'h', char_offset: 0 });
    m.apply_input(InputEvent::UserChar { ch: 'i', char_offset: 1 });
    m.apply_print(&PrintEvent { ch: 'h', at: pos(0, 5) });
    m.apply_print(&PrintEvent { ch: 'i', at: pos(0, 6) });
    assert_eq!(m.position_of(0), Some(pos(0, 5)));
    assert_eq!(m.position_of(1), Some(pos(0, 6)));
}

#[test]
fn print_with_no_pending_is_ignored() {
    let mut m = EchoMatcher::new();
    m.apply_print(&PrintEvent { ch: 'x', at: pos(0, 0) });
    // No user char was waiting — this is chrome, not echo. Ignored.
    assert_eq!(m.known_positions(), 0);
}

#[test]
fn chrome_print_between_user_chars_is_skipped_not_mismatched() {
    let mut m = EchoMatcher::new();
    m.apply_input(InputEvent::UserChar { ch: 'h', char_offset: 0 });
    // Chrome character — does not match 'h', should leave pending alone.
    m.apply_print(&PrintEvent { ch: '>', at: pos(0, 0) });
    assert_eq!(m.pending_len(), 1, "mismatched print should not drain pending");
    m.apply_print(&PrintEvent { ch: 'h', at: pos(0, 2) });
    assert_eq!(m.position_of(0), Some(pos(0, 2)));
}

#[test]
fn boundary_preserves_state_for_trailing_echoes() {
    // Buffered scenarios (e.g. line-buffered cat) deliver all input
    // events before any echoes. If Boundary wiped pending, the trailing
    // echoes would have nothing to match. Boundary stays "soft" — it
    // marks the end of input but keeps pending/positions alive.
    let mut m = EchoMatcher::new();
    m.apply_input(InputEvent::UserChar { ch: 'h', char_offset: 0 });
    m.apply_print(&PrintEvent { ch: 'h', at: pos(0, 5) });
    m.apply_input(InputEvent::Boundary);
    assert_eq!(
        m.position_of(0),
        Some(pos(0, 5)),
        "position survives Boundary so trailing echoes can finish"
    );
}

#[test]
fn next_user_char_after_boundary_clears_old_session() {
    let mut m = EchoMatcher::new();
    m.apply_input(InputEvent::UserChar { ch: 'h', char_offset: 0 });
    m.apply_print(&PrintEvent { ch: 'h', at: pos(0, 5) });
    m.apply_input(InputEvent::Boundary);
    // New session begins:
    m.apply_input(InputEvent::UserChar { ch: 'a', char_offset: 0 });
    assert_eq!(m.position_of(0), None, "old session cleared on new input");
    assert_eq!(m.pending_len(), 1);
}

#[test]
fn explicit_reset_clears_everything() {
    let mut m = EchoMatcher::new();
    m.apply_input(InputEvent::UserChar { ch: 'h', char_offset: 0 });
    m.apply_print(&PrintEvent { ch: 'h', at: pos(0, 5) });
    m.reset();
    assert_eq!(m.position_of(0), None);
    assert_eq!(m.pending_len(), 0);
}

#[test]
fn pipe_test_scenario_all_inputs_then_all_prints() {
    let mut m = EchoMatcher::new();
    for (i, ch) in "hi teh".chars().enumerate() {
        m.apply_input(InputEvent::UserChar { ch, char_offset: i });
    }
    m.apply_input(InputEvent::Boundary);
    // Now the echoes finally arrive:
    for (i, ch) in "hi teh".chars().enumerate() {
        m.apply_print(&PrintEvent { ch, at: pos(0, i as u16) });
    }
    // All six positions should have been mapped despite the Boundary in
    // between.
    for i in 0..6 {
        assert!(m.position_of(i).is_some(), "missing position for offset {i}");
    }
}

#[test]
fn lints_event_stores_snapshot() {
    let mut m = EchoMatcher::new();
    let issues = vec![SpellIssue {
        byte_start: 0,
        byte_end: 3,
        char_start: 0,
        char_end: 3,
        word: "teh".into(),
        message: "spelling".into(),
        suggestions: vec!["the".into()],
        category: IssueCategory::Spelling,
        priority: 50,
    }];
    m.apply_input(InputEvent::Lints { issues: issues.clone(), buffer_chars: 3, buffer_text: "teh".into(), buffer_cursor: 0 });
    assert_eq!(m.lints().len(), 1);
    assert_eq!(m.lints()[0].word, "teh");
    assert_eq!(m.buffer_chars(), 3);
}

#[test]
fn boundary_clears_lints_immediately() {
    let mut m = EchoMatcher::new();
    let issues = vec![SpellIssue {
        byte_start: 0,
        byte_end: 3,
        char_start: 0,
        char_end: 3,
        word: "teh".into(),
        message: "spelling".into(),
        suggestions: vec!["the".into()],
        category: IssueCategory::Spelling,
        priority: 50,
    }];
    m.apply_input(InputEvent::Lints { issues, buffer_chars: 3, buffer_text: "teh".into(), buffer_cursor: 0 });
    m.apply_input(InputEvent::Boundary);
    assert!(m.lints().is_empty(), "lints clear on Boundary (UI ignores old prompt)");
}

#[test]
fn typing_faster_than_echo_keeps_pending() {
    let mut m = EchoMatcher::new();
    for (i, ch) in "hello".chars().enumerate() {
        m.apply_input(InputEvent::UserChar { ch, char_offset: i });
    }
    assert_eq!(m.pending_len(), 5);
    // Now the child catches up:
    for (i, ch) in "hello".chars().enumerate() {
        m.apply_print(&PrintEvent { ch, at: pos(0, i as u16) });
    }
    assert_eq!(m.pending_len(), 0);
    assert_eq!(m.position_of(2), Some(pos(0, 2)));
}

fn feed_prints(m: &mut EchoMatcher, row: u16, start_col: u16, text: &str) {
    for (i, ch) in text.chars().enumerate() {
        m.apply_print(&PrintEvent {
            ch,
            at: pos(row, start_col + i as u16),
        });
    }
}

#[test]
fn anchor_finds_buffer_text_on_input_row() {
    let mut m = EchoMatcher::new();
    m.apply_input(InputEvent::Lints {
        issues: vec![],
        buffer_chars: 5,
        buffer_text: "hello".into(),
        buffer_cursor: 0,
    });
    feed_prints(&mut m, 7, 12, "hello");
    assert_eq!(m.find_input_anchor(80), Some(pos(7, 12)));
}

#[test]
fn anchor_prefers_latest_occurrence() {
    // Same text rendered twice (e.g., preview + input). The later one
    // is the input row — the one the user is reading.
    let mut m = EchoMatcher::new();
    m.apply_input(InputEvent::Lints {
        issues: vec![],
        buffer_chars: 3,
        buffer_text: "teh".into(),
        buffer_cursor: 0,
    });
    feed_prints(&mut m, 2, 4, "teh"); // earlier (preview)
    feed_prints(&mut m, 9, 6, "teh"); // later (actual input)
    assert_eq!(m.find_input_anchor(80), Some(pos(9, 6)));
}

#[test]
fn anchor_rejects_non_contiguous_match() {
    let mut m = EchoMatcher::new();
    m.apply_input(InputEvent::Lints {
        issues: vec![],
        buffer_chars: 3,
        buffer_text: "abc".into(),
        buffer_cursor: 0,
    });
    // 'a' at col 5, then a gap, then 'b' at col 7, 'c' at col 8.
    m.apply_print(&PrintEvent { ch: 'a', at: pos(3, 5) });
    m.apply_print(&PrintEvent { ch: 'b', at: pos(3, 7) });
    m.apply_print(&PrintEvent { ch: 'c', at: pos(3, 8) });
    assert_eq!(m.find_input_anchor(80), None);
}

#[test]
fn anchor_matches_terminal_wrap_to_col_zero() {
    // Standard terminal wrapping: text starts at col 79 (after a
    // prompt), fills to col 79, and the next character wraps to
    // col 0 of the next row. The col-0 fallback handles this.
    let mut m = EchoMatcher::new();
    m.apply_input(InputEvent::Lints {
        issues: vec![],
        buffer_chars: 3,
        buffer_text: "abc".into(),
        buffer_cursor: 0,
    });
    m.apply_print(&PrintEvent { ch: 'a', at: pos(3, 79) });
    m.apply_print(&PrintEvent { ch: 'b', at: pos(4, 0) });
    m.apply_print(&PrintEvent { ch: 'c', at: pos(4, 1) });
    assert_eq!(
        m.find_input_anchor(80),
        Some(pos(3, 79)),
        "terminal wrap-to-col-0 must match via col-0 fallback"
    );
}

#[test]
fn anchor_with_prompt_chrome() {
    let mut m = EchoMatcher::new();
    m.apply_input(InputEvent::Lints {
        issues: vec![],
        buffer_chars: 5,
        buffer_text: "hello".into(),
        buffer_cursor: 0,
    });
    feed_prints(&mut m, 5, 2, "> hello");
    assert_eq!(m.find_input_anchor(80), Some(pos(5, 4)));
}

#[test]
fn anchor_empty_buffer_returns_none() {
    let m = EchoMatcher::new();
    assert_eq!(m.find_input_anchor(80), None);
}

#[test]
fn anchor_text_missing_from_history_returns_none() {
    let mut m = EchoMatcher::new();
    m.apply_input(InputEvent::Lints {
        issues: vec![],
        buffer_chars: 5,
        buffer_text: "hello".into(),
        buffer_cursor: 0,
    });
    feed_prints(&mut m, 0, 0, "world");
    assert_eq!(m.find_input_anchor(80), None);
}

#[test]
fn boundary_clears_grid() {
    let mut m = EchoMatcher::new();
    feed_prints(&mut m, 0, 0, "anything");
    assert!(m.grid_len() > 0);
    m.apply_input(InputEvent::Boundary);
    assert_eq!(m.grid_len(), 0);
}

#[test]
fn grid_size_is_bounded() {
    let mut m = EchoMatcher::new();
    // Push many distinct cells; with the LRU eviction the grid must
    // stay at or under GRID_CAP.
    let total = GRID_CAP * 2;
    for i in 0..total {
        let row = (i / 200) as u16;
        let col = (i % 200) as u16;
        m.apply_print(&PrintEvent {
            ch: 'x',
            at: pos(row, col),
        });
    }
    assert!(m.grid_len() <= GRID_CAP, "grid grew past cap: {}", m.grid_len());
}

#[test]
fn anchor_works_when_chrome_writes_interleave_with_input_cells() {
    let mut m = EchoMatcher::new();
    m.apply_input(InputEvent::Lints {
        issues: vec![],
        buffer_chars: 5,
        buffer_text: "Write".into(),
        buffer_cursor: 0,
    });
    m.apply_print(&PrintEvent { ch: 'W', at: pos(5, 2) });
    feed_prints(&mut m, 1, 0, "banner row chunk");
    m.apply_print(&PrintEvent { ch: 'r', at: pos(5, 3) });
    feed_prints(&mut m, 8, 0, "footer row chunk");
    m.apply_print(&PrintEvent { ch: 'i', at: pos(5, 4) });
    m.apply_print(&PrintEvent { ch: 't', at: pos(5, 5) });
    m.apply_print(&PrintEvent { ch: 'e', at: pos(5, 6) });
    assert_eq!(m.find_input_anchor(80), Some(pos(5, 2)));
}

#[test]
fn anchor_uses_latest_match_when_cell_overwritten() {
    // Buffer "abc". An old "abc" was at (3, 5), then those cells got
    // overwritten with "xyz". A new "abc" appears at (7, 10). Anchor
    // must pick (7, 10).
    let mut m = EchoMatcher::new();
    m.apply_input(InputEvent::Lints {
        issues: vec![],
        buffer_chars: 3,
        buffer_text: "abc".into(),
        buffer_cursor: 0,
    });
    feed_prints(&mut m, 3, 5, "abc");
    feed_prints(&mut m, 3, 5, "xyz"); // overwrite
    feed_prints(&mut m, 7, 10, "abc");
    assert_eq!(m.find_input_anchor(80), Some(pos(7, 10)));
}

#[test]
fn clear_screen_drops_grid_but_keeps_lints() {
    let mut m = EchoMatcher::new();
    m.apply_input(InputEvent::Lints {
        issues: vec![SpellIssue {
            byte_start: 0,
            byte_end: 3,
            char_start: 0,
            char_end: 3,
            word: "teh".into(),
            message: "x".into(),
            suggestions: vec!["the".into()],
            category: IssueCategory::Spelling,
            priority: 50,
        }],
        buffer_chars: 3,
        buffer_text: "teh".into(),
        buffer_cursor: 0,
    });
    feed_prints(&mut m, 5, 10, "teh");
    m.clear_screen();
    assert_eq!(m.grid_len(), 0, "grid should be empty after clear_screen");
    assert_eq!(m.lints().len(), 1, "lints survive clear_screen");
    assert_eq!(m.buffer_text(), "teh", "buffer text survives clear_screen");
    // No grid → no anchor → safe (painter will paint nothing).
    assert_eq!(m.find_input_anchor(80), None);
}

#[test]
fn erase_cells_removes_only_requested_range() {
    let mut m = EchoMatcher::new();
    feed_prints(&mut m, 4, 10, "abcdef");
    // Erase cols 12..15 → "ab" at 10..12 and "ef" at 15..16 remain.
    m.erase_cells(4, 12, 15);
    m.apply_input(InputEvent::Lints {
        issues: vec![],
        buffer_chars: 2,
        buffer_text: "ab".into(),
        buffer_cursor: 0,
    });
    assert_eq!(m.find_input_anchor(80), Some(pos(4, 10)));
    // Erased cells should not anchor.
    m.apply_input(InputEvent::Lints {
        issues: vec![],
        buffer_chars: 3,
        buffer_text: "cde".into(),
        buffer_cursor: 0,
    });
    assert_eq!(m.find_input_anchor(80), None, "erased range must not anchor");
}

#[test]
fn resize_then_redraw_reanchors_correctly() {
    // Simulate the full sequence the render loop sees on a resize:
    // 1. User typing fills the grid at the OLD position.
    // 2. Resize event clears the grid.
    // 3. Child's redraw refills at the NEW position.
    // 4. find_input_anchor must point at the NEW position.
    let mut m = EchoMatcher::new();
    m.apply_input(InputEvent::Lints {
        issues: vec![],
        buffer_chars: 3,
        buffer_text: "teh".into(),
        buffer_cursor: 0,
    });
    // Old render: "teh" at (row=20, col=4) — typical pre-resize position.
    feed_prints(&mut m, 20, 4, "teh");
    assert_eq!(m.find_input_anchor(80), Some(pos(20, 4)));

    // Resize handler clears the grid. (This is exactly what
    // `RenderEvent::Resize` does in the render loop.)
    m.clear_screen();
    assert_eq!(m.find_input_anchor(80), None, "no anchor while grid empty");

    // Child's post-resize redraw: "teh" lands at a NEW position
    // because the layout reflowed for the new size.
    feed_prints(&mut m, 12, 6, "teh");
    assert_eq!(
        m.find_input_anchor(80),
        Some(pos(12, 6)),
        "must reanchor at new render position after resize",
    );
}

#[test]
fn ed_full_screen_via_apply_screen_event_clears_grid() {
    // Mirrors what the render loop does when the child emits `\x1b[2J`
    // (CSI J mode 2): the observer emits one EraseEvent per row, and
    // the matcher drops the cells. After processing, any grid-anchor
    // search must come up empty until the child re-prints.
    let mut m = EchoMatcher::new();
    feed_prints(&mut m, 5, 0, "hello world");
    assert!(m.grid_len() > 0);
    // 10-row screen — observer would emit 10 erase events.
    for row in 0..10u16 {
        m.apply_screen_event(&ScreenEvent::Erase(EraseEvent {
            row,
            col_start: 0,
            col_end: 80,
        }));
    }
    m.apply_input(InputEvent::Lints {
        issues: vec![],
        buffer_chars: 5,
        buffer_text: "hello".into(),
        buffer_cursor: 0,
    });
    assert_eq!(m.find_input_anchor(80), None, "ED 2 must wipe the grid");
}

#[test]
fn anchor_tolerates_cursor_skipped_space_cells() {
    let mut m = EchoMatcher::new();
    m.apply_input(InputEvent::Lints {
        issues: vec![],
        buffer_chars: 9,
        buffer_text: "write teh".into(),
        buffer_cursor: 0,
    });
    // Place only the letter cells; col 9 (the space) is intentionally
    // skipped — no PrintEvent.
    for &(col, ch) in &[
        (4u16, 'w'), (5, 'r'), (6, 'i'), (7, 't'), (8, 'e'),
        (10, 't'), (11, 'e'), (12, 'h'),
    ] {
        m.apply_print(&PrintEvent {
            ch,
            at: pos(5, col),
        });
    }
    assert_eq!(m.find_input_anchor(80), Some(pos(5, 4)));
}

#[test]
fn anchor_treats_nbsp_as_equivalent_to_ascii_space() {
    let mut m = EchoMatcher::new();
    m.apply_input(InputEvent::Lints {
        issues: vec![],
        buffer_chars: 5,
        buffer_text: "a b c".into(),
        buffer_cursor: 0,
    });
    for &(col, ch) in &[
        (4u16, 'a'),
        (5, '\u{a0}'),
        (6, 'b'),
        (7, '\u{a0}'),
        (8, 'c'),
    ] {
        m.apply_print(&PrintEvent { ch, at: pos(3, col) });
    }
    assert_eq!(m.find_input_anchor(80), Some(pos(3, 4)));
}

#[test]
fn anchor_still_matches_when_spaces_are_printed_explicitly() {
    // Hosts that DO print spaces (most shells) must still work — the
    // matcher accepts both cursor-skip and explicit-space rendering.
    let mut m = EchoMatcher::new();
    m.apply_input(InputEvent::Lints {
        issues: vec![],
        buffer_chars: 9,
        buffer_text: "write teh".into(),
        buffer_cursor: 0,
    });
    feed_prints(&mut m, 5, 4, "write teh"); // all 9 chars including the space
    assert_eq!(m.find_input_anchor(80), Some(pos(5, 4)));
}

#[test]
fn apply_screen_event_dispatches_to_print_and_erase() {
    let mut m = EchoMatcher::new();
    for (i, ch) in "hello".chars().enumerate() {
        m.apply_screen_event(&ScreenEvent::Print(PrintEvent {
            ch,
            at: pos(0, i as u16),
        }));
    }
    assert_eq!(m.grid_len(), 5);
    m.apply_screen_event(&ScreenEvent::Erase(EraseEvent {
        row: 0,
        col_start: 1,
        col_end: 4,
    }));
    assert_eq!(m.grid_len(), 2, "erase should drop 3 cells");
}

#[test]
fn last_line_char_offset_is_zero_for_single_line_buffer() {
    let mut m = EchoMatcher::new();
    m.apply_input(InputEvent::Lints {
        issues: vec![],
        buffer_chars: 5,
        buffer_text: "hello".into(),
        buffer_cursor: 5,
    });
    assert_eq!(m.last_line_char_offset(), 0);
}

#[test]
fn last_line_char_offset_points_after_last_newline() {
    // Buffer "abc\ndef\nghi": last \n is byte 7, char 7. last_line
    // starts at char 8 ("ghi"). The offset is exactly that.
    let mut m = EchoMatcher::new();
    m.apply_input(InputEvent::Lints {
        issues: vec![],
        buffer_chars: 11,
        buffer_text: "abc\ndef\nghi".into(),
        buffer_cursor: 11,
    });
    assert_eq!(m.last_line_char_offset(), 8);
}

#[test]
fn find_input_anchor_picks_last_line_for_multi_line_buffer() {
    // Buffer "abc\ndef" — anchor must search for "def" only,
    // not the full multi-line text (which would never match
    // a single grid row).
    let mut m = EchoMatcher::new();
    m.apply_input(InputEvent::Lints {
        issues: vec![],
        buffer_chars: 7,
        buffer_text: "abc\ndef".into(),
        buffer_cursor: 7,
    });
    // "abc" rendered on row 3 starting at col 0; "def" on row 4
    // starting at col 0 (the host's view of the multi-line input).
    feed_prints(&mut m, 3, 0, "abc");
    feed_prints(&mut m, 4, 0, "def");
    assert_eq!(
        m.find_input_anchor(80),
        Some(pos(4, 0)),
        "anchor must point at the last line, not the first"
    );
}

#[test]
fn find_input_anchor_falls_back_to_last_non_empty_line() {
    // Buffer "abc\n": trailing line is empty. The anchor falls
    // back to the previous non-empty line ("abc") so that any
    // lints in `abc` can still be painted — important for the
    // paste-content underline case where a pasted block may end
    // with a newline and the user's cursor sits on an empty line.
    let mut m = EchoMatcher::new();
    m.apply_input(InputEvent::Lints {
        issues: vec![],
        buffer_chars: 4,
        buffer_text: "abc\n".into(),
        buffer_cursor: 4,
    });
    feed_prints(&mut m, 3, 0, "abc");
    assert_eq!(m.find_input_anchor(80), Some(pos(3, 0)));
}

#[test]
fn find_input_anchor_returns_none_when_all_lines_empty() {
    // Truly empty buffer (or all `\n`) has no non-empty line to
    // anchor on. Painter does nothing in this case.
    let mut m = EchoMatcher::new();
    m.apply_input(InputEvent::Lints {
        issues: vec![],
        buffer_chars: 3,
        buffer_text: "\n\n\n".into(),
        buffer_cursor: 3,
    });
    assert_eq!(m.find_input_anchor(80), None);
}

#[test]
fn anchor_matches_char_wrapped_input_across_rows() {
    // Buffer text fills a 20-col row completely (character-level
    // wrap). The right-edge-wrap path fires when col reaches cols.
    let mut m = EchoMatcher::new();
    let text = "abcdefghijklmnopqrstuvwxyz";
    m.apply_input(InputEvent::Lints {
        issues: vec![],
        buffer_chars: text.chars().count(),
        buffer_text: text.into(),
        buffer_cursor: text.chars().count(),
    });
    // 20-col screen, text starts at col 2 → 18 chars per row.
    feed_prints(&mut m, 5, 2, "abcdefghijklmnopqr");
    feed_prints(&mut m, 6, 2, "stuvwxyz");

    assert_eq!(
        m.find_input_anchor(20),
        Some(pos(5, 2)),
        "character-wrapped text across rows must anchor correctly"
    );
}

#[test]
fn anchor_matches_word_wrapped_input_across_rows() {
    let mut m = EchoMatcher::new();
    let text = "hello world foo";
    m.apply_input(InputEvent::Lints {
        issues: vec![],
        buffer_chars: text.chars().count(),
        buffer_text: text.into(),
        buffer_cursor: text.chars().count(),
    });
    // Row 5: "hello world" at cols 2..12 (space at 7 cursor-skipped)
    // Row 6: "foo" at cols 2..4
    for &(row, col, ch) in &[
        (5u16, 2u16, 'h'), (5, 3, 'e'), (5, 4, 'l'), (5, 5, 'l'), (5, 6, 'o'),
        (5, 8, 'w'), (5, 9, 'o'), (5, 10, 'r'), (5, 11, 'l'), (5, 12, 'd'),
        (6, 2, 'f'), (6, 3, 'o'), (6, 4, 'o'),
    ] {
        m.apply_print(&PrintEvent { ch, at: pos(row, col) });
    }
    assert_eq!(
        m.find_input_anchor(16),
        Some(pos(5, 2)),
        "word-wrapped text with gap at row end must anchor correctly"
    );
}

#[test]
fn anchor_cross_row_rejects_arbitrary_continuation_column() {
    // Continuation at a column that's neither base_col nor 0.
    // The search only tries these two; anything else must NOT match.
    let mut m = EchoMatcher::new();
    m.apply_input(InputEvent::Lints {
        issues: vec![],
        buffer_chars: 3,
        buffer_text: "abc".into(),
        buffer_cursor: 3,
    });
    // 'a' at col 10, gap, 'b','c' at col 5,6 of next row —
    // neither base_col (10) nor col 0.
    m.apply_print(&PrintEvent { ch: 'a', at: pos(3, 10) });
    m.apply_print(&PrintEvent { ch: 'b', at: pos(4, 5) });
    m.apply_print(&PrintEvent { ch: 'c', at: pos(4, 6) });
    assert_eq!(
        m.find_input_anchor(80),
        None,
        "continuation at arbitrary column must not match"
    );
}

#[test]
fn anchor_cross_row_rejects_wrong_char_not_gap() {
    // A WRONG character (Some with different char) is a genuine
    // mismatch — don't jump rows on that, only on missing cells.
    let mut m = EchoMatcher::new();
    m.apply_input(InputEvent::Lints {
        issues: vec![],
        buffer_chars: 3,
        buffer_text: "abc".into(),
        buffer_cursor: 3,
    });
    // 'a' at (3, 5), 'X' at (3, 6) — wrong char, not a gap.
    // Even if 'b' exists on the next row, we must NOT jump.
    m.apply_print(&PrintEvent { ch: 'a', at: pos(3, 5) });
    m.apply_print(&PrintEvent { ch: 'X', at: pos(3, 6) });
    m.apply_print(&PrintEvent { ch: 'b', at: pos(4, 5) });
    m.apply_print(&PrintEvent { ch: 'c', at: pos(4, 6) });
    assert_eq!(
        m.find_input_anchor(80),
        None,
        "wrong char at current position must not trigger row jump"
    );
}

#[test]
fn anchor_cross_row_with_spaces_tolerates_missing_cells() {
    // Soft-wrapped text with cursor-skipped spaces spanning 3 rows.
    let mut m = EchoMatcher::new();
    let text = "hello world foo bar baz qux";
    m.apply_input(InputEvent::Lints {
        issues: vec![],
        buffer_chars: text.chars().count(),
        buffer_text: text.into(),
        buffer_cursor: text.chars().count(),
    });
    // 14-col screen, text at col 2. Spaces are cursor-skipped.
    for &(row, col, ch) in &[
        (5u16, 2u16, 'h'), (5, 3, 'e'), (5, 4, 'l'), (5, 5, 'l'), (5, 6, 'o'),
        (5, 8, 'w'), (5, 9, 'o'), (5, 10, 'r'), (5, 11, 'l'), (5, 12, 'd'),
        (6, 2, 'f'), (6, 3, 'o'), (6, 4, 'o'),
        (6, 6, 'b'), (6, 7, 'a'), (6, 8, 'r'),
        (6, 10, 'b'), (6, 11, 'a'), (6, 12, 'z'),
        (7, 2, 'q'), (7, 3, 'u'), (7, 4, 'x'),
    ] {
        m.apply_print(&PrintEvent { ch, at: pos(row, col) });
    }
    assert_eq!(
        m.find_input_anchor(14),
        Some(pos(5, 2)),
        "cross-row search must tolerate cursor-skipped spaces"
    );
}

#[test]
fn anchor_host_newline_shorter_first_row() {
    let mut m = EchoMatcher::new();
    let text = "hello.world";
    m.apply_input(InputEvent::Lints {
        issues: vec![],
        buffer_chars: text.chars().count(),
        buffer_text: text.into(),
        buffer_cursor: text.chars().count(),
    });
    feed_prints(&mut m, 5, 2, "hello.");
    feed_prints(&mut m, 6, 2, "world");
    assert_eq!(
        m.find_input_anchor(80),
        Some(pos(5, 2)),
        "host-newline with short first row must anchor correctly"
    );
}

#[test]
fn anchor_line_char_offset_points_at_last_non_empty_line() {
    // Buffer "abc\ndef\n": chars 0..3 = "abc", 4..7 = "def",
    // 8 = "" (empty trailing line). Anchor falls back to "def"
    // which starts at char 4.
    let mut m = EchoMatcher::new();
    m.apply_input(InputEvent::Lints {
        issues: vec![],
        buffer_chars: 8,
        buffer_text: "abc\ndef\n".into(),
        buffer_cursor: 8,
    });
    assert_eq!(m.anchor_line_char_offset(), 4);
}
