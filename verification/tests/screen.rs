use tuipo::event::{EraseEvent, PrintEvent, ScreenEvent};
use tuipo::screen::{CursorPos, ScreenObserver};

fn obs() -> ScreenObserver {
    ScreenObserver::new(80, 24)
}

fn feed(o: &mut ScreenObserver, bytes: &[u8]) {
    o.observe(bytes);
}

fn feed_events(o: &mut ScreenObserver, bytes: &[u8]) -> Vec<ScreenEvent> {
    let mut ev = Vec::new();
    o.observe_with_events(bytes, &mut ev);
    ev
}

fn prints(events: &[ScreenEvent]) -> Vec<PrintEvent> {
    events
        .iter()
        .filter_map(|e| match e {
            ScreenEvent::Print(p) => Some(*p),
            ScreenEvent::Erase(_) => None,
        })
        .collect()
}

fn erases(events: &[ScreenEvent]) -> Vec<EraseEvent> {
    events
        .iter()
        .filter_map(|e| match e {
            ScreenEvent::Erase(er) => Some(*er),
            ScreenEvent::Print(_) => None,
        })
        .collect()
}

#[test]
fn initial_state_is_origin() {
    let o = obs();
    assert_eq!(o.state().cursor, CursorPos { row: 0, col: 0 });
    assert!(!o.state().alt_screen);
}

#[test]
fn printing_advances_cursor_column() {
    let mut o = obs();
    feed(&mut o, b"hi");
    assert_eq!(o.state().cursor, CursorPos { row: 0, col: 2 });
}

#[test]
fn cr_returns_to_column_zero() {
    let mut o = obs();
    feed(&mut o, b"hi\r");
    assert_eq!(o.state().cursor, CursorPos { row: 0, col: 0 });
}

#[test]
fn lf_advances_row_keeping_column() {
    let mut o = obs();
    feed(&mut o, b"hi\n");
    // LF in raw-mode terminals does NOT reset col (no implicit CR).
    assert_eq!(o.state().cursor, CursorPos { row: 1, col: 2 });
}

#[test]
fn crlf_goes_to_next_line_col_zero() {
    let mut o = obs();
    feed(&mut o, b"hi\r\n");
    assert_eq!(o.state().cursor, CursorPos { row: 1, col: 0 });
}

#[test]
fn backspace_moves_cursor_left() {
    let mut o = obs();
    feed(&mut o, b"abc\x08");
    assert_eq!(o.state().cursor, CursorPos { row: 0, col: 2 });
}

#[test]
fn backspace_at_col_zero_is_clamped() {
    let mut o = obs();
    feed(&mut o, b"\x08");
    assert_eq!(o.state().cursor, CursorPos { row: 0, col: 0 });
}

#[test]
fn cup_sets_cursor_position_1_indexed() {
    let mut o = obs();
    feed(&mut o, b"\x1b[5;10H");
    assert_eq!(o.state().cursor, CursorPos { row: 4, col: 9 });
}

#[test]
fn cup_with_no_params_goes_to_origin() {
    let mut o = obs();
    feed(&mut o, b"\x1b[10;10H\x1b[H");
    assert_eq!(o.state().cursor, CursorPos { row: 0, col: 0 });
}

#[test]
fn cup_clamps_to_screen_bounds() {
    let mut o = ScreenObserver::new(10, 5);
    feed(&mut o, b"\x1b[100;100H");
    assert_eq!(o.state().cursor, CursorPos { row: 4, col: 9 });
}

#[test]
fn cursor_up_csi_a() {
    let mut o = obs();
    feed(&mut o, b"\x1b[5;5H\x1b[2A");
    assert_eq!(o.state().cursor.row, 2);
    assert_eq!(o.state().cursor.col, 4);
}

#[test]
fn cursor_down_csi_b() {
    let mut o = obs();
    feed(&mut o, b"\x1b[3B");
    assert_eq!(o.state().cursor.row, 3);
}

#[test]
fn cursor_forward_csi_c() {
    let mut o = obs();
    feed(&mut o, b"\x1b[7C");
    assert_eq!(o.state().cursor.col, 7);
}

#[test]
fn cursor_back_csi_d() {
    let mut o = obs();
    feed(&mut o, b"\x1b[10C\x1b[3D");
    assert_eq!(o.state().cursor.col, 7);
}

#[test]
fn cursor_horizontal_absolute_csi_g() {
    let mut o = obs();
    feed(&mut o, b"\x1b[5;5H\x1b[20G");
    assert_eq!(o.state().cursor, CursorPos { row: 4, col: 19 });
}

#[test]
fn cursor_vertical_absolute_csi_d_lowercase() {
    let mut o = obs();
    feed(&mut o, b"\x1b[5;5H\x1b[10d");
    assert_eq!(o.state().cursor, CursorPos { row: 9, col: 4 });
}

#[test]
fn save_and_restore_via_csi_su() {
    let mut o = obs();
    feed(&mut o, b"\x1b[3;7H\x1b[s\x1b[10;10H\x1b[u");
    assert_eq!(o.state().cursor, CursorPos { row: 2, col: 6 });
}

#[test]
fn save_and_restore_via_esc_7_8() {
    let mut o = obs();
    feed(&mut o, b"\x1b[3;7H\x1b7\x1b[10;10H\x1b8");
    assert_eq!(o.state().cursor, CursorPos { row: 2, col: 6 });
}

#[test]
fn alt_screen_1049_toggles() {
    let mut o = obs();
    assert!(!o.state().alt_screen);
    feed(&mut o, b"\x1b[?1049h");
    assert!(o.state().alt_screen);
    feed(&mut o, b"\x1b[?1049l");
    assert!(!o.state().alt_screen);
}

#[test]
fn alt_screen_47_and_1047_recognised() {
    let mut o = obs();
    feed(&mut o, b"\x1b[?47h");
    assert!(o.state().alt_screen);
    feed(&mut o, b"\x1b[?47l");
    assert!(!o.state().alt_screen);
    feed(&mut o, b"\x1b[?1047h");
    assert!(o.state().alt_screen);
}

#[test]
fn non_alt_private_modes_dont_toggle_alt_flag() {
    let mut o = obs();
    // ?25 is cursor visibility, ?7 is autowrap, ?2004 is bracketed paste.
    feed(&mut o, b"\x1b[?25h\x1b[?7h\x1b[?2004h");
    assert!(!o.state().alt_screen);
}

#[test]
fn erase_display_does_not_move_cursor() {
    let mut o = obs();
    feed(&mut o, b"\x1b[5;5H\x1b[2J");
    assert_eq!(o.state().cursor, CursorPos { row: 4, col: 4 });
}

#[test]
fn resize_clamps_cursor() {
    let mut o = ScreenObserver::new(80, 24);
    feed(&mut o, b"\x1b[20;70H");
    o.resize(50, 10);
    assert!(o.state().cursor.row < 10);
    assert!(o.state().cursor.col < 50);
}

#[test]
fn version_increments_only_on_meaningful_change() {
    let mut o = obs();
    let v0 = o.state().version;
    // Receive a benign ED — no cursor move.
    feed(&mut o, b"\x1b[2J");
    assert_eq!(o.state().version, v0, "ED shouldn't bump version");
    feed(&mut o, b"a");
    assert!(o.state().version > v0);
}

#[test]
fn print_wraps_at_right_edge() {
    // xterm-style deferred wrap: after printing 5 chars on a 5-wide row,
    // cursor stays at the last column with `pending_wrap` set. The wrap
    // doesn't fire until the next print.
    let mut o = ScreenObserver::new(5, 10);
    feed(&mut o, b"abcde");
    assert_eq!(o.state().cursor, CursorPos { row: 0, col: 4 });
    assert!(o.state().pending_wrap);
    feed(&mut o, b"f");
    // 'f' is drawn at (1, 0), then cursor advances to (1, 1).
    assert_eq!(o.state().cursor, CursorPos { row: 1, col: 1 });
    assert!(!o.state().pending_wrap);
}

#[test]
fn cr_clears_pending_wrap() {
    let mut o = ScreenObserver::new(5, 10);
    feed(&mut o, b"abcde");
    assert!(o.state().pending_wrap);
    feed(&mut o, b"\r");
    assert!(!o.state().pending_wrap);
    feed(&mut o, b"x");
    // x was printed at (0,0), cursor advances to (0,1).
    assert_eq!(o.state().cursor, CursorPos { row: 0, col: 1 });
}

#[test]
fn ansi_color_codes_dont_disturb_position() {
    let mut o = obs();
    feed(
        &mut o,
        b"\x1b[31mred\x1b[0m \x1b[1mbold\x1b[0m \x1b[4mund\x1b[0m",
    );
    // 'red' (3) + ' ' (1) + 'bold' (4) + ' ' (1) + 'und' (3) = 12 cells
    assert_eq!(o.state().cursor.col, 12);
}

#[test]
fn print_events_capture_chars_at_pre_print_positions() {
    let mut o = obs();
    let events = feed_events(&mut o, b"abc");
    let p = prints(&events);
    assert_eq!(p.len(), 3);
    assert_eq!(p[0], PrintEvent { ch: 'a', at: CursorPos { row: 0, col: 0 } });
    assert_eq!(p[1], PrintEvent { ch: 'b', at: CursorPos { row: 0, col: 1 } });
    assert_eq!(p[2], PrintEvent { ch: 'c', at: CursorPos { row: 0, col: 2 } });
}

#[test]
fn print_events_after_cup_use_new_position() {
    let mut o = obs();
    let events = feed_events(&mut o, b"\x1b[10;5Hx");
    let p = prints(&events);
    assert_eq!(p.len(), 1);
    assert_eq!(p[0], PrintEvent { ch: 'x', at: CursorPos { row: 9, col: 4 } });
}

#[test]
fn print_events_skip_control_chars_and_csi() {
    let mut o = obs();
    let events = feed_events(&mut o, b"a\r\n\x1b[31mb\x1b[0m");
    let chars: Vec<char> = prints(&events).iter().map(|e| e.ch).collect();
    assert_eq!(chars, vec!['a', 'b']);
}

#[test]
fn csi_k_default_emits_erase_from_cursor_to_eol() {
    // Cursor at col 5 on row 3, 80-wide screen → erase cols [5, 80).
    let mut o = obs();
    feed(&mut o, b"\x1b[4;6H"); // move to (row 3, col 5)
    let events = feed_events(&mut o, b"\x1b[K");
    let e = erases(&events);
    assert_eq!(e.len(), 1);
    assert_eq!(e[0], EraseEvent { row: 3, col_start: 5, col_end: 80 });
}

#[test]
fn csi_k_mode_2_erases_entire_line() {
    let mut o = obs();
    feed(&mut o, b"\x1b[2;3H");
    let events = feed_events(&mut o, b"\x1b[2K");
    let e = erases(&events);
    assert_eq!(e.len(), 1);
    assert_eq!(e[0], EraseEvent { row: 1, col_start: 0, col_end: 80 });
}

#[test]
fn csi_j_mode_2_erases_entire_screen() {
    // 5-row × 10-col screen → 5 erase events, one per row.
    let mut o = ScreenObserver::new(10, 5);
    let events = feed_events(&mut o, b"\x1b[2J");
    let e = erases(&events);
    assert_eq!(e.len(), 5);
    for (row, ev) in e.iter().enumerate() {
        assert_eq!(*ev, EraseEvent { row: row as u16, col_start: 0, col_end: 10 });
    }
}

#[test]
fn csi_j_default_erases_from_cursor_to_end_of_screen() {
    // 5×10 screen. Cursor at (row=2, col=3). Default ED clears:
    //   row 2, cols 3..10
    //   row 3, cols 0..10
    //   row 4, cols 0..10
    let mut o = ScreenObserver::new(10, 5);
    feed(&mut o, b"\x1b[3;4H");
    let events = feed_events(&mut o, b"\x1b[J");
    let e = erases(&events);
    assert_eq!(e.len(), 3);
    assert_eq!(e[0], EraseEvent { row: 2, col_start: 3, col_end: 10 });
    assert_eq!(e[1], EraseEvent { row: 3, col_start: 0, col_end: 10 });
    assert_eq!(e[2], EraseEvent { row: 4, col_start: 0, col_end: 10 });
}

#[test]
fn osc_window_title_is_silently_consumed() {
    let mut o = obs();
    feed(&mut o, b"hello\x1b]0;Window Title\x07world");
    // OSC consumed; cursor advanced for "hello" + "world" = 10 chars.
    assert_eq!(o.state().cursor.col, 10);
}

#[test]
fn typical_startup_sequence_does_not_panic() {
    // Enter the alternate screen, clear, position the cursor, draw, toggle
    // private modes.
    let mut o = obs();
    feed(
        &mut o,
        b"\x1b[?1049h\x1b[2J\x1b[H\x1b[?25l\
          \x1b[1;1HSome Program\r\n\
          \x1b[3;1H> \x1b[?25h\x1b[?2004h",
    );
    assert!(o.state().alt_screen);
    assert_eq!(o.state().cursor, CursorPos { row: 2, col: 2 });
}
