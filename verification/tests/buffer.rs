use tuipo::buffer::{FeedOutcome, InputBuffer};

fn buf_with(input: &[u8]) -> InputBuffer {
    let mut b = InputBuffer::new();
    b.feed_bytes(input);
    b
}

#[test]
fn ascii_typing_builds_text() {
    let b = buf_with(b"hello");
    assert_eq!(b.text(), "hello");
    assert_eq!(b.cursor(), 5);
}

#[test]
fn backspace_removes_last_char() {
    let mut b = buf_with(b"hello");
    b.feed(0x08);
    assert_eq!(b.text(), "hell");
    assert_eq!(b.cursor(), 4);
}

#[test]
fn del_byte_also_removes_last_char() {
    let mut b = buf_with(b"hi");
    b.feed(0x7F);
    assert_eq!(b.text(), "h");
    assert_eq!(b.cursor(), 1);
}

#[test]
fn backspace_on_empty_is_noop() {
    let mut b = InputBuffer::new();
    let out = b.feed(0x08);
    assert_eq!(out, FeedOutcome::NoChange);
    assert_eq!(b.text(), "");
    assert_eq!(b.cursor(), 0);
}

#[test]
fn enter_resets_buffer() {
    let mut b = buf_with(b"hello world");
    let out = b.feed(0x0D);
    assert_eq!(out, FeedOutcome::Boundary);
    assert!(b.is_empty());
    assert_eq!(b.cursor(), 0);
}

#[test]
fn newline_also_resets_buffer() {
    let mut b = buf_with(b"hello world");
    let out = b.feed(0x0A);
    assert_eq!(out, FeedOutcome::Boundary);
    assert!(b.is_empty());
}

#[test]
fn ctrl_c_resets_buffer() {
    let mut b = buf_with(b"partial");
    let out = b.feed(0x03);
    assert_eq!(out, FeedOutcome::Boundary);
    assert!(b.is_empty());
}

#[test]
fn ctrl_d_resets_buffer() {
    let mut b = buf_with(b"partial");
    let out = b.feed(0x04);
    assert_eq!(out, FeedOutcome::Boundary);
    assert!(b.is_empty());
}

#[test]
fn bare_esc_resets_buffer() {
    let mut b = buf_with(b"partial");
    let out = b.feed_bytes(&[0x1B, b'q']);
    assert_eq!(out, FeedOutcome::Boundary);
    assert!(b.is_empty());
}

#[test]
fn tab_is_swallowed() {
    let mut b = buf_with(b"go");
    let out = b.feed(0x09);
    assert_eq!(out, FeedOutcome::NoChange);
    assert_eq!(b.text(), "go");
}

#[test]
fn utf8_two_byte_char_assembled() {
    // 'é' = 0xC3 0xA9
    let b = buf_with(b"caf\xC3\xA9");
    assert_eq!(b.text(), "café");
    assert_eq!(b.cursor(), "café".len());
}

#[test]
fn utf8_three_byte_char_assembled() {
    // '日' = 0xE6 0x97 0xA5
    let b = buf_with(b"\xE6\x97\xA5");
    assert_eq!(b.text(), "日");
}

#[test]
fn utf8_four_byte_char_assembled() {
    // '🦀' = 0xF0 0x9F 0xA6 0x80
    let b = buf_with(b"\xF0\x9F\xA6\x80");
    assert_eq!(b.text(), "🦀");
}

#[test]
fn partial_utf8_keeps_buffer_valid() {
    let mut b = InputBuffer::new();
    b.feed(b'\xC3'); // start of 'é', missing continuation
    assert_eq!(b.text(), "");
    // Now finish it
    b.feed(b'\xA9');
    assert_eq!(b.text(), "é");
}

#[test]
fn utf8_backspace_removes_full_codepoint() {
    let mut b = buf_with("café".as_bytes());
    b.feed(0x08);
    assert_eq!(b.text(), "caf");
    assert_eq!(b.cursor(), 3);
}

#[test]
fn utf8_backspace_removes_emoji() {
    let mut b = buf_with("hi 🦀".as_bytes());
    b.feed(0x08);
    assert_eq!(b.text(), "hi ");
    assert_eq!(b.cursor(), 3);
}

#[test]
fn left_arrow_moves_cursor() {
    let mut b = buf_with(b"abc");
    let out = b.feed_bytes(&[0x1B, b'[', b'D']);
    assert_eq!(out, FeedOutcome::Updated);
    assert_eq!(b.cursor(), 2);
    assert_eq!(b.text(), "abc");
}

#[test]
fn right_arrow_moves_cursor() {
    let mut b = buf_with(b"abc");
    b.feed_bytes(&[0x1B, b'[', b'D']);
    b.feed_bytes(&[0x1B, b'[', b'D']);
    assert_eq!(b.cursor(), 1);
    b.feed_bytes(&[0x1B, b'[', b'C']);
    assert_eq!(b.cursor(), 2);
}

#[test]
fn home_jumps_cursor_to_start() {
    let mut b = buf_with(b"abc");
    b.feed_bytes(&[0x1B, b'[', b'H']);
    assert_eq!(b.cursor(), 0);
}

#[test]
fn end_jumps_cursor_to_end() {
    let mut b = buf_with(b"abc");
    b.feed_bytes(&[0x1B, b'[', b'H']);
    b.feed_bytes(&[0x1B, b'[', b'F']);
    assert_eq!(b.cursor(), 3);
}

#[test]
fn delete_key_removes_char_at_cursor() {
    let mut b = buf_with(b"abc");
    // Cursor at end; move left, then Delete
    b.feed_bytes(&[0x1B, b'[', b'D']);
    b.feed_bytes(&[0x1B, b'[', b'3', b'~']);
    assert_eq!(b.text(), "ab");
}

#[test]
fn ctrl_a_goes_to_start_ctrl_e_to_end() {
    let mut b = buf_with(b"abcdef");
    b.feed(0x01);
    assert_eq!(b.cursor(), 0);
    b.feed(0x05);
    assert_eq!(b.cursor(), 6);
}

#[test]
fn ctrl_u_kills_to_start() {
    let mut b = buf_with(b"hello world");
    // cursor at end; nothing after cursor → drains everything
    b.feed(0x15);
    assert_eq!(b.text(), "");
    assert_eq!(b.cursor(), 0);
}

#[test]
fn ctrl_u_only_kills_before_cursor() {
    let mut b = buf_with(b"hello world");
    // move cursor left twice with left arrow
    b.feed_bytes(&[0x1B, b'[', b'D']);
    b.feed_bytes(&[0x1B, b'[', b'D']);
    // cursor at byte 9 ("hello wor|ld"). Ctrl-U kills "hello wor"
    b.feed(0x15);
    assert_eq!(b.text(), "ld");
    assert_eq!(b.cursor(), 0);
}

#[test]
fn ctrl_w_deletes_word_back() {
    let mut b = buf_with(b"hello world");
    b.feed(0x17);
    assert_eq!(b.text(), "hello ");
}

#[test]
fn ctrl_w_strips_trailing_whitespace_first() {
    let mut b = buf_with(b"hello world  ");
    b.feed(0x17);
    assert_eq!(b.text(), "hello ");
}

#[test]
fn ctrl_w_at_start_is_noop() {
    let mut b = InputBuffer::new();
    let out = b.feed(0x17);
    assert_eq!(out, FeedOutcome::NoChange);
}

#[test]
fn ss3_arrows_also_move_cursor() {
    let mut b = buf_with(b"abc");
    // ESC O D (application-mode left arrow)
    b.feed_bytes(&[0x1B, b'O', b'D']);
    assert_eq!(b.cursor(), 2);
    b.feed_bytes(&[0x1B, b'O', b'C']);
    assert_eq!(b.cursor(), 3);
}

#[test]
fn osc_sequence_is_silently_consumed() {
    let mut b = buf_with(b"foo");
    // ESC ] 0;title BEL
    let osc: Vec<u8> = [0x1B, b']', b'0', b';', b't', b'i', b't', b'l', b'e', 0x07].to_vec();
    b.feed_bytes(&osc);
    assert_eq!(b.text(), "foo");
    // Followed by typing should still work:
    b.feed_bytes(b"!");
    assert_eq!(b.text(), "foo!");
}

#[test]
fn bracketed_paste_flag_toggles() {
    let mut b = InputBuffer::new();
    b.feed_bytes(b"x");
    assert!(!b.in_paste());
    b.feed_bytes(&[0x1B, b'[', b'2', b'0', b'0', b'~']);
    assert!(b.in_paste());
    b.feed_bytes(b"pasted text");
    assert!(b.in_paste());
    assert_eq!(b.text(), "xpasted text");
    b.feed_bytes(&[0x1B, b'[', b'2', b'0', b'1', b'~']);
    assert!(!b.in_paste());
}

#[test]
fn unknown_csi_doesnt_break_subsequent_typing() {
    let mut b = buf_with(b"a");
    // Mouse-y looking CSI: ESC [ < 35;1;1 M (a mouse event)
    let mouse: Vec<u8> = [0x1B, b'[', b'<', b'3', b'5', b';', b'1', b';', b'1', b'M'].to_vec();
    b.feed_bytes(&mouse);
    b.feed_bytes(b"bc");
    assert_eq!(b.text(), "abc");
}

#[test]
fn version_increments_on_change() {
    let mut b = InputBuffer::new();
    let v0 = b.version();
    b.feed(b'a');
    assert!(b.version() > v0);
    let v1 = b.version();
    b.feed_bytes(&[0x1B, b'[', b'D']); // left arrow when cursor=1; updates
    assert!(b.version() > v1);
}

#[test]
fn version_does_not_change_on_noop_feed() {
    let mut b = InputBuffer::new();
    b.feed(b'a');
    let v = b.version();
    b.feed(0x09); // tab — swallowed
    assert_eq!(b.version(), v);
}

#[test]
fn cursor_is_always_on_char_boundary() {
    // After many UTF-8 edits, cursor should never split a codepoint.
    let mut b = buf_with("café 🦀 日本".as_bytes());
    // Move cursor around; each step should keep the invariant.
    for _ in 0..30 {
        b.feed_bytes(&[0x1B, b'[', b'D']);
        assert!(b.text().is_char_boundary(b.cursor()));
    }
    for _ in 0..30 {
        b.feed_bytes(&[0x1B, b'[', b'C']);
        assert!(b.text().is_char_boundary(b.cursor()));
    }
}

#[test]
fn typing_after_left_arrow_inserts_at_cursor() {
    let mut b = buf_with(b"helo");
    b.feed_bytes(&[0x1B, b'[', b'D']);
    b.feed_bytes(&[0x1B, b'[', b'D']);
    // cursor at "he|lo"
    b.feed(b'l');
    assert_eq!(b.text(), "hello");
}

#[test]
fn input_boundary_clears_paste_flag() {
    let mut b = InputBuffer::new();
    b.feed_bytes(&[0x1B, b'[', b'2', b'0', b'0', b'~']);
    assert!(b.in_paste());
    // Outside the bracketed-paste flag-toggle context: a real Enter
    // by the user. (Inside paste, see `paste_preserves_newlines_as_content`.)
    b.feed_bytes(&[0x1B, b'[', b'2', b'0', b'1', b'~']);
    assert!(!b.in_paste());
    b.feed(0x0D);
    assert!(!b.in_paste());
}

#[test]
fn paste_preserves_newlines_as_content() {
    let mut b = InputBuffer::new();
    b.feed_bytes(&[0x1B, b'[', b'2', b'0', b'0', b'~']);
    let mut had_boundary = false;
    for &byte in b"line one\nline two\nline three".iter() {
        let out = b.feed(byte);
        if out == FeedOutcome::Boundary {
            had_boundary = true;
        }
    }
    b.feed_bytes(&[0x1B, b'[', b'2', b'0', b'1', b'~']);
    assert!(!had_boundary, "no Boundary should fire during paste");
    assert_eq!(
        b.text(),
        "line one\nline two\nline three",
        "buffer must retain pasted newlines as content"
    );
}

#[test]
fn paste_canonicalises_cr_to_lf() {
    // Windows-style CRLF in paste content shouldn't double up
    // separators or surprise the painter's last-line offset
    // computation, which keys on `\n` only.
    let mut b = InputBuffer::new();
    b.feed_bytes(&[0x1B, b'[', b'2', b'0', b'0', b'~']);
    // "a\r\nb" — both CR and LF should land as a single \n.
    b.feed_bytes(b"a\r\nb");
    b.feed_bytes(&[0x1B, b'[', b'2', b'0', b'1', b'~']);
    assert_eq!(
        b.text(),
        "a\n\nb",
        "each of CR and LF inserts one \\n in paste-mode (no special CRLF folding)"
    );
}

#[test]
fn newline_outside_paste_still_boundaries() {
    // The guard must only apply inside `\x1b[200~ ... \x1b[201~`.
    // Outside, Enter / Shift-Enter still need to clear the buffer
    // so the next prompt starts from a clean state.
    let mut b = buf_with(b"some text");
    let out = b.feed(0x0A);
    assert_eq!(out, FeedOutcome::Boundary);
    assert!(b.is_empty());
}

#[test]
fn chunk_paste_flag_suppresses_newline_boundary() {
    let mut b = InputBuffer::new();
    b.set_chunk_paste(true);
    let mut had_boundary = false;
    for &byte in b"first line\nsecond line\nthird".iter() {
        if b.feed(byte) == FeedOutcome::Boundary {
            had_boundary = true;
        }
    }
    b.set_chunk_paste(false);
    assert!(!had_boundary, "no Boundary should fire while chunk_paste is set");
    assert_eq!(
        b.text(),
        "first line\nsecond line\nthird",
        "buffer must accumulate the multi-line paste content"
    );
}

#[test]
fn chunk_paste_does_not_persist_after_clearing() {
    // Once the pump clears `chunk_paste` at the end of the chunk,
    // a subsequent real Enter must still boundary. Otherwise the
    // chunk-paste flag would silently disable Enter forever.
    let mut b = InputBuffer::new();
    b.set_chunk_paste(true);
    b.feed_bytes(b"pasted\nline");
    b.set_chunk_paste(false);
    // Now user presses Enter — this is a single-byte chunk.
    let out = b.feed(b'\n');
    assert_eq!(out, FeedOutcome::Boundary);
    assert!(b.is_empty());
}
