use tuipo::pty::{chunk_looks_like_paste, MIN_PASTE_CHUNK_SIZE, MIN_PASTE_NOLINE_SIZE};

#[test]
fn single_byte_typing_is_not_paste() {
    assert!(!chunk_looks_like_paste(b"a"));
    assert!(!chunk_looks_like_paste(b"\r"));
    assert!(!chunk_looks_like_paste(b"\n"));
}

#[test]
fn enter_at_end_of_typing_burst_is_not_paste() {
    // User typed "hello" then Enter, coalesced by the OS into a
    // single read. The trailing CR/LF strips off; the body "hello"
    // has no internal newline. Must NOT be flagged as paste,
    // otherwise the boundary wouldn't fire and the user's input
    // would never get submitted.
    assert!(!chunk_looks_like_paste(b"hello\r"));
    assert!(!chunk_looks_like_paste(b"hello\n"));
    assert!(!chunk_looks_like_paste(b"hello\r\n"));
}

#[test]
fn empty_enter_alone_is_not_paste() {
    assert!(!chunk_looks_like_paste(b"\r"));
    assert!(!chunk_looks_like_paste(b"\n"));
    assert!(!chunk_looks_like_paste(b"\r\n"));
}

#[test]
fn multi_line_paste_is_paste() {
    // Two pasted lines: content after the inner newline survives
    // the trailing trim and trips the inner-newline check.
    assert!(chunk_looks_like_paste(b"line one\nline two"));
    assert!(chunk_looks_like_paste(b"abc\ndef\nghi"));
}

#[test]
fn pasted_line_with_trailing_newline_is_paste() {
    // Multi-line paste that happens to end with a newline still
    // qualifies: trimming the trailing newline leaves "abc\ndef",
    // which has an inner newline.
    assert!(chunk_looks_like_paste(b"abc\ndef\n"));
    assert!(chunk_looks_like_paste(b"abc\r\ndef\r\n"));
}

#[test]
fn typing_without_newline_is_not_paste() {
    // No newline at all → never a paste signal, regardless of how
    // many bytes coalesced (e.g. fast-typed escape sequence).
    assert!(!chunk_looks_like_paste(b""));
    assert!(!chunk_looks_like_paste(b"\x1b[A"));
    assert!(!chunk_looks_like_paste(b"hello world"));
}

#[test]
fn line_by_line_paste_via_multiplexer_is_paste() {
    // cmux / tmux / iTerm in some configs deliver paste content
    // one line per read — each chunk ends with `\n` and has no
    // interior `\n`. Signal 1 misses these; signal 2 (CR/LF-ended
    // chunk >= MIN_PASTE_CHUNK_SIZE) catches them. The constant
    // MIN_PASTE_CHUNK_SIZE = 16 sits comfortably above any
    // plausible single-keystroke burst (rarely above 10 bytes)
    // and well below realistic paste-line lengths.
    let line1 = b"I'm setting up the new docker environment.\n";
    assert!(line1.len() >= MIN_PASTE_CHUNK_SIZE);
    assert!(chunk_looks_like_paste(line1));

    // CRLF variant.
    let line2 = b"For all intensive purposes, we need to nip\r\n";
    assert!(chunk_looks_like_paste(line2));
}

#[test]
fn short_typed_line_then_enter_is_not_paste() {
    // Just below the threshold: 6-15 byte chunks ending in CR/LF
    // are still classified as typing. A typist hitting Enter after
    // a few words wouldn't reach 16 bytes per read.
    assert!(!chunk_looks_like_paste(b"hi there\r"));    // 9 bytes
    assert!(!chunk_looks_like_paste(b"go on\r\n"));     // 7 bytes
    assert!(!chunk_looks_like_paste(b"abcdefghijklmn\r")); // 15 bytes
}

#[test]
fn long_single_line_paste_with_no_newline_is_paste() {
    let line = b"the quick brown fox jumps over the lazy dog and then keeps running";
    assert!(line.len() >= MIN_PASTE_NOLINE_SIZE);
    assert!(chunk_looks_like_paste(line));
}

#[test]
fn moderate_no_newline_chunk_is_not_paste() {
    // Below the no-newline threshold, a chunk without any CR/LF is
    // still treated as typing — escape sequences and short bursts
    // must not be misclassified.
    assert!(!chunk_looks_like_paste(b"hello world")); // 11 bytes
    assert!(!chunk_looks_like_paste(b"\x1b[A"));       // arrow key
    let mouse = b"\x1b[<35;120;30M"; // SGR mouse report, ~13 bytes
    assert!(!chunk_looks_like_paste(mouse));
}
