use tuipo::clock::Instant;
use tuipo::config::{Config, EnvOverrides, Settings};
use tuipo::event::{InputEvent, PickerSnapshot, RenderEvent, ScreenEvent};
use tuipo::render::{RenderStep, Renderer};
use tuipo::screen::CursorPos;
use tuipo::spell::{IssueCategory, SpellIssue};

fn at_ms(millis: u64) -> Instant {
    Instant { nanos: u128::from(millis) * 1_000_000 }
}

fn settings(config: Config) -> Settings {
    config.settings(&EnvOverrides::default())
}

fn plain() -> Config {
    Config { underline: tuipo::config::UnderlineMode::Plain, ..Config::default() }
}

fn issue(start: usize, end: usize, word: &str) -> SpellIssue {
    SpellIssue {
        byte_start: start,
        byte_end: end,
        char_start: start,
        char_end: end,
        word: word.into(),
        message: "test".into(),
        suggestions: vec!["the".into(), "ten".into()],
        category: IssueCategory::Spelling,
        priority: 50,
    }
}

fn lints(cursor: usize) -> RenderEvent {
    RenderEvent::Input(InputEvent::Lints {
        issues: vec![issue(0, 3, "teh")],
        buffer_chars: 7,
        buffer_text: "teh cat".into(),
        buffer_cursor: cursor,
    })
}

fn typed(ch: char, char_offset: usize) -> RenderEvent {
    RenderEvent::Input(InputEvent::UserChar { ch, char_offset })
}

fn output(bytes: &[u8]) -> RenderEvent {
    RenderEvent::PtyBytes(bytes.to_vec())
}

fn text(step: &RenderStep) -> String {
    String::from_utf8(step.bytes.clone()).unwrap()
}

#[test]
fn output_reaches_the_terminal_unchanged() {
    let s = settings(plain());
    let mut r = Renderer::new(80, 24, &s);
    let bytes = b"\x1b[31mred\x1b[0m \xff\x00\r\n";
    let step = r.handle(output(bytes), at_ms(0), &s);
    assert_eq!(step.bytes, bytes);
    assert!(!step.done);
    assert_eq!(r.screen().cursor, CursorPos { row: 1, col: 0 });
    assert!(matches!(step.events[0], ScreenEvent::Print(p) if p.ch == 'r'));
}

#[test]
fn underline_waits_for_the_pause_and_comes_back_on_every_tick() {
    let s = settings(plain());
    let mut r = Renderer::new(80, 24, &s);
    r.handle(typed('t', 6), at_ms(1_000), &s);
    r.handle(lints(7), at_ms(1_000), &s);
    r.handle(output(b"teh cat"), at_ms(1_000), &s);

    let early = r.handle(RenderEvent::Tick, at_ms(1_149), &s);
    assert!(early.bytes.is_empty());
    assert!(!early.painted);

    let due = r.handle(RenderEvent::Tick, at_ms(1_150), &s);
    assert!(due.painted);
    assert_eq!(text(&due), "\x1b[7D\x1b[4mteh\x1b[24m\x1b[4C".repeat(2));

    let again = r.handle(RenderEvent::Tick, at_ms(1_200), &s);
    assert!(!again.painted);
    assert_eq!(text(&again), "\x1b[7D\x1b[4mteh\x1b[24m\x1b[4C");
}

#[test]
fn configured_pause_is_kept() {
    let s = settings(Config { pause_ms: 500, ..plain() });
    let mut r = Renderer::new(80, 24, &s);
    r.handle(typed('t', 6), at_ms(0), &s);
    r.handle(lints(7), at_ms(0), &s);
    r.handle(output(b"teh cat"), at_ms(0), &s);
    assert!(r.handle(RenderEvent::Tick, at_ms(499), &s).bytes.is_empty());
    assert!(!r.handle(RenderEvent::Tick, at_ms(500), &s).bytes.is_empty());
}

#[test]
fn forced_paint_does_not_wait() {
    let s = settings(plain());
    let mut r = Renderer::new(80, 24, &s);
    r.handle(typed('t', 6), at_ms(0), &s);
    r.handle(lints(7), at_ms(0), &s);
    r.handle(output(b"teh cat"), at_ms(0), &s);
    let step = r.handle(RenderEvent::ForcePaint, at_ms(0), &s);
    assert_eq!(text(&step), "\x1b[7D\x1b[4mteh\x1b[24m\x1b[4C");
}

#[test]
fn boundary_and_resize_forget_the_underlines() {
    let s = settings(plain());
    let mut r = Renderer::new(80, 24, &s);
    r.handle(lints(7), at_ms(0), &s);
    r.handle(output(b"teh cat"), at_ms(0), &s);
    r.handle(RenderEvent::ForcePaint, at_ms(0), &s);
    r.handle(RenderEvent::Input(InputEvent::Boundary), at_ms(0), &s);
    assert!(r.handle(RenderEvent::Tick, at_ms(1_000), &s).bytes.is_empty());
    assert_eq!(r.matcher().grid_len(), 0);

    r.handle(output(b"\r"), at_ms(1_000), &s);
    r.handle(lints(7), at_ms(1_000), &s);
    r.handle(output(b"teh cat"), at_ms(1_000), &s);
    r.handle(RenderEvent::Resize { cols: 5, rows: 3 }, at_ms(1_000), &s);
    assert_eq!(r.screen().cursor, CursorPos { row: 0, col: 4 });
    assert!(r.handle(RenderEvent::Tick, at_ms(2_000), &s).bytes.is_empty());
}

#[test]
fn tooltip_appears_and_its_cells_are_given_back() {
    let s = settings(Config { picker: true, ..plain() });
    let mut r = Renderer::new(80, 24, &s);
    r.handle(output(b"teh cat"), at_ms(0), &s);
    r.handle(lints(2), at_ms(0), &s);
    let quiet = text(&r.handle(RenderEvent::Tick, at_ms(249), &s));
    assert!(!quiet.contains("tab to pick"));
    let shown = text(&r.handle(RenderEvent::Tick, at_ms(250), &s));
    assert!(shown.contains(" [the] ten  (tab to pick) "), "got {shown:?}");
    r.handle(lints(7), at_ms(300), &s);
    let gone = text(&r.handle(RenderEvent::Tick, at_ms(350), &s));
    assert!(gone.contains("\x1b[mcat"), "got {gone:?}");
}

#[test]
fn open_picker_is_drawn_with_its_selection() {
    let s = settings(Config { picker: true, ..plain() });
    let mut r = Renderer::new(80, 24, &s);
    r.handle(output(b"teh cat"), at_ms(0), &s);
    r.handle(lints(2), at_ms(0), &s);
    let snap = PickerSnapshot {
        target: "teh".into(),
        suggestions: vec!["the".into(), "ten".into()],
        selected: 1,
    };
    r.handle(RenderEvent::Input(InputEvent::PickerState(Some(snap))), at_ms(0), &s);
    let drawn = text(&r.handle(RenderEvent::ForcePaint, at_ms(0), &s));
    assert!(drawn.contains("\x1b[2;36m the \x1b[7m[ten]\x1b[27m  (tab/←→ · enter · esc) \x1b[0m"));
}

#[test]
fn everything_is_silent_with_painting_off() {
    let s = settings(Config {
        paint: false,
        picker: true,
        tab_fix: true,
        status_row: true,
        ..plain()
    });
    assert!(!s.picker && !s.tab_fix);
    let mut r = Renderer::new(80, 24, &s);
    r.handle(output(b"teh cat"), at_ms(0), &s);
    r.handle(lints(2), at_ms(0), &s);
    assert!(r.handle(RenderEvent::Tick, at_ms(5_000), &s).bytes.is_empty());
    assert!(r.handle(RenderEvent::ForcePaint, at_ms(5_000), &s).bytes.is_empty());
}

#[test]
fn status_row_is_drawn_on_ticks() {
    let s = settings(Config { status_row: true, ..plain() });
    let mut r = Renderer::new(10, 24, &s);
    r.handle(lints(7), at_ms(0), &s);
    let step = r.handle(RenderEvent::Tick, at_ms(0), &s);
    assert_eq!(text(&step), "\x1b7\x1b[24;1H\x1b[2K\x1b[2;36mtuipo · 1 \x1b[0m\x1b8");
}

#[test]
fn end_of_output_ends_the_loop() {
    let s = settings(plain());
    let mut r = Renderer::new(80, 24, &s);
    let step = r.handle(RenderEvent::PtyEof, at_ms(0), &s);
    assert!(step.done);
    assert!(step.bytes.is_empty());
}
