use harper_core::linting::{LintKind, Suggestion};
use tuipo::buffer::{FeedOutcome, InputBuffer};
use tuipo::clock::{Duration, Instant};
use tuipo::config::{Config, EnvOverrides, UnderlineMode};
use tuipo::debug::format_issues;
use tuipo::dict::CustomDict;
use tuipo::echo::EchoMatcher;
use tuipo::event::{EraseEvent, InputEvent, PrintEvent, ScreenEvent};
use tuipo::fix::{build_fix, top_suggestions, try_tab_fix};
use tuipo::init::{detect_shell, run_init, strip_old_hook, zsh_bash_hook, InitPlan, ShellHook};
use tuipo::input::InputState;
use tuipo::paint::{build_annotations_with, chars_equiv, PaintGate, FANCY, PLAIN};
use tuipo::picker::{build_restore, engage_for, OverlayRegion};
use tuipo::screen::{CursorPos, ScreenObserver, ScreenState};
use tuipo::spell::{issues_from_lints, IssueCategory, RawLint, SpellChecker, SpellIssue};
use tuipo::status::{format_count, truncate_to_width};

fn issue(start: usize, end: usize, word: &str, suggestions: &[&str]) -> SpellIssue {
    SpellIssue {
        byte_start: start,
        byte_end: end,
        char_start: start,
        char_end: end,
        word: word.into(),
        message: "test".into(),
        suggestions: suggestions.iter().map(|s| (*s).into()).collect(),
        category: IssueCategory::Spelling,
        priority: 50,
    }
}

fn raw(start: usize, end: usize, kind: LintKind) -> RawLint {
    RawLint {
        start,
        end,
        kind,
        suggestions: vec![
            Suggestion::ReplaceWith("the".chars().collect()),
            Suggestion::Remove,
            Suggestion::InsertAfter("s".chars().collect()),
        ],
        message: "m".into(),
        priority: 7,
    }
}

// The buffer.

#[test]
fn backspace_takes_back_any_character() {
    for c in ['a', 'é', '€', '🦀'] {
        let mut b = InputBuffer::new();
        b.feed_bytes(b"xy\x1b[D");
        let mut utf8 = [0u8; 4];
        assert_eq!(b.feed_bytes(c.encode_utf8(&mut utf8).as_bytes()), FeedOutcome::Updated);
        assert_eq!(b.text(), format!("x{c}y"));
        b.feed(0x08);
        assert_eq!(b.text(), "xy");
        assert_eq!(b.char_cursor(), 1);
    }
}

#[test]
fn feeding_in_parts_is_feeding_at_once() {
    let bytes = b"he\x1b[Dl\xc3\xa9\x17ok\r";
    for cut in 0..bytes.len() {
        let mut whole = InputBuffer::new();
        whole.feed_bytes(bytes);
        let mut parts = InputBuffer::new();
        parts.feed_bytes(&bytes[..cut]);
        parts.feed_bytes(&bytes[cut..]);
        assert_eq!(whole.text(), parts.text());
        assert_eq!(whole.cursor(), parts.cursor());
        assert_eq!(whole.version(), parts.version());
    }
}

#[test]
fn overlong_and_broken_characters_are_dropped() {
    let mut b = InputBuffer::new();
    assert_eq!(b.feed_bytes(&[0xC0, 0x80]), FeedOutcome::NoChange);
    assert_eq!(b.feed_bytes(&[0xED, 0xA0, 0x80]), FeedOutcome::NoChange);
    assert_eq!(b.feed_bytes(&[0xC3, b'a']), FeedOutcome::NoChange);
    assert!(b.is_empty());
    assert_eq!(b.version(), 0);
}

#[test]
fn word_deletion_goes_by_unicode_spaces() {
    let mut b = InputBuffer::new();
    b.feed_bytes("one\u{2003}two\u{a0}".as_bytes());
    b.feed(0x17);
    assert_eq!(b.text(), "one\u{2003}");
}

// The dictionary.

#[test]
fn words_are_compared_by_unicode_case() {
    let d = CustomDict::from_text("ÉCOLE\r\n  # no word\n");
    assert!(d.contains("école"));
    assert!(!d.contains("ecole"));
    assert_eq!(d.len(), 1);
}

#[test]
fn bundled_list_is_extended_by_the_users() {
    let bundled = CustomDict::bundled(None);
    let own = CustomDict::bundled(Some("zzyzx\ngrep\n"));
    assert_eq!(own.len(), bundled.len() + 1);
    assert!(own.contains("zzyzx") && own.contains("grep"));
    assert!(CustomDict::default().is_empty());
}

// The spell engine.

#[test]
fn findings_become_issues() {
    let text = "caf\u{e9} teh `foo` Rust API x2";
    let lints = vec![
        raw(5, 8, LintKind::Spelling),
        raw(10, 13, LintKind::Spelling),
        raw(15, 19, LintKind::Typo),
        raw(20, 23, LintKind::Spelling),
        raw(24, 26, LintKind::Spelling),
        raw(5, 99, LintKind::Spelling),
        raw(8, 5, LintKind::Spelling),
        raw(0, 8, LintKind::Agreement),
    ];
    let dict = CustomDict::from_text("rust\n");
    let issues = issues_from_lints(&lints, text, &dict);
    assert_eq!(issues.len(), 2);
    let teh = &issues[0];
    assert_eq!((teh.char_start, teh.char_end), (5, 8));
    assert_eq!((teh.byte_start, teh.byte_end), (6, 9));
    assert_eq!(teh.word, "teh");
    assert_eq!(teh.suggestions, vec!["the", "s"]);
    assert_eq!(teh.category, IssueCategory::Spelling);
    assert_eq!(teh.priority, 7);
    assert_eq!(teh.message, "m");
    assert_eq!(issues[1].category, IssueCategory::Grammar);
    assert_eq!(issues[1].word, "caf\u{e9} teh");
}

fn dictionary_words_are_not_flagged() {
    let text = "frobnicatify teh thing";
    let mut plain = SpellChecker::with_custom(CustomDict::empty());
    let flagged = plain.check(text);
    assert!(flagged.iter().any(|i| i.word == "frobnicatify"));
    assert!(flagged.iter().any(|i| i.word == "teh"));
    let mut custom = SpellChecker::with_custom(CustomDict::from_text("Frobnicatify"));
    let left = custom.check(text);
    assert!(!left.iter().any(|i| i.word == "frobnicatify"));
    assert!(left.iter().any(|i| i.word == "teh"));
}

fn spelling_issues_come_with_suggestions() {
    let issues = SpellChecker::default().check("the paragprah is short");
    let found = issues.iter().find(|i| i.word == "paragprah").expect("flagged");
    assert_eq!(found.category, IssueCategory::Spelling);
    assert!(found.suggestions.iter().any(|s| s == "paragraph"), "{:?}", found.suggestions);
}

// Input and issues together.

fn text_after_a_boundary_in_one_burst_is_checked() {
    let mut s = InputState::new();
    s.feed_bytes_deferred(b"wrogn\x03teh");
    assert_eq!(s.buffer().text(), "teh");
    assert!(s.issues().is_empty());
    s.refresh();
    assert!(s.issues().iter().any(|i| i.word == "teh"));
    assert!(!s.issues().iter().any(|i| i.word == "wrogn"));
    s.feed_bytes(b"\x04");
    assert!(s.issues().is_empty());
}

// Fixes.

fn fix_keeps_the_trailing_space() {
    let mut s = InputState::new();
    s.feed_bytes(b"teh ");
    let top = s.issues()[0].suggestions[0].clone();
    let fix = try_tab_fix(&s).expect("fixable");
    assert_eq!(fix.issue_word, "teh");
    assert_eq!(fix.backspaces, 4);
    assert_eq!(fix.replacement_text, format!("{top} "));
    assert_eq!((fix.left_moves, fix.right_moves), (0, 0));
}

fn tab_fixes_misspellings_only() {
    let mut s = InputState::new();
    s.feed_bytes(b"a paragprah about the the cat");
    let other = s.issues().iter().find(|i| i.category != IssueCategory::Spelling);
    let other = other.expect("a doubled word is an issue, and no misspelling");
    assert!(!other.suggestions.is_empty());
    let fix = try_tab_fix(&s).expect("fixable");
    assert_eq!(fix.issue_word, "paragprah");
    s.feed_bytes(b"\x15the the cat");
    assert!(s.issues().iter().any(|i| i.category != IssueCategory::Spelling));
    assert!(try_tab_fix(&s).is_none());
}

fn stale_issues_are_not_fixed() {
    let mut s = InputState::new();
    s.feed_bytes(b"ab");
    assert!(build_fix(&s, &issue(0, 3, "teh", &["the"]), "the").is_none());
}

#[test]
fn top_suggestions_are_distinct() {
    let i = issue(0, 3, "teh", &["the", "", "teh", "ten", "the", "tech"]);
    assert_eq!(top_suggestions(&i, 2), vec!["the", "ten"]);
    assert_eq!(top_suggestions(&i, 9), vec!["the", "ten", "tech"]);
}

// The screen.

fn parser_keeps_its_state_between_chunks() {
    let mut o = ScreenObserver::new(80, 24);
    for chunk in [&b"\x1b[5"[..], b";10", b"H\xe2\x82", b"\xac"] {
        o.observe(chunk);
    }
    assert_eq!(o.state().cursor, CursorPos { row: 4, col: 10 });
    let mut events = Vec::new();
    o.observe_with_events(b"\x1b[4:3mz", &mut events);
    assert_eq!(
        events,
        vec![ScreenEvent::Print(PrintEvent { ch: 'z', at: CursorPos { row: 4, col: 10 } })]
    );
}

fn explicit_moves_cancel_a_pending_wrap() {
    let mut o = ScreenObserver::new(5, 2);
    o.observe(b"abcde\x1b[A");
    assert!(!o.state().pending_wrap);
    o.observe(b"\x1b[2;1Habcde\n");
    assert!(!o.state().pending_wrap);
    assert_eq!(o.state().cursor, CursorPos { row: 1, col: 4 });
}

fn saving_the_cursor_is_a_change() {
    let mut o = ScreenObserver::new(5, 2);
    o.observe(b"a");
    let v = o.state().version;
    o.observe(b"\x1b7");
    assert_eq!(o.state().version, v + 1);
    o.observe(b"\x1b7");
    assert_eq!(o.state().version, v + 1);
}

fn huge_moves_stop_at_the_edge() {
    let mut o = ScreenObserver::new(65535, 65535);
    o.observe(b"\x1b[65535;65535H\x1b[65535B\x1b[65535C\t");
    assert_eq!(o.state().cursor, CursorPos { row: 65534, col: 65534 });
    o.observe(b"\x1b[65535A\x1b[65535D");
    assert_eq!(o.state().cursor, CursorPos { row: 0, col: 0 });
}

fn erase_up_to_the_cursor_takes_its_cell_too() {
    let mut o = ScreenObserver::new(10, 5);
    o.observe(b"\x1b[2;4H");
    let mut events = Vec::new();
    o.observe_with_events(b"\x1b[1J\x1b[1K", &mut events);
    let erase = |row, col_end| ScreenEvent::Erase(EraseEvent { row, col_start: 0, col_end });
    assert_eq!(events, vec![erase(0, 10), erase(1, 4), erase(1, 4)]);
}

// The echo tracker.

#[test]
fn a_full_grid_loses_its_oldest_quarter() {
    let mut m = EchoMatcher::new();
    for i in 0..tuipo::echo::GRID_CAP as u32 + 1 {
        let at = CursorPos { row: (i / 1000) as u16, col: (i % 1000) as u16 };
        m.apply_print(&PrintEvent { ch: 'x', at });
    }
    let full = tuipo::echo::GRID_CAP + 1;
    assert_eq!(m.grid_len(), full - full / 4);
    assert_eq!(m.cell_at(0, 0), None);
    assert_eq!(m.cell_at((full / 4 / 1000) as u16, (full / 4 % 1000) as u16), Some('x'));
    assert_eq!(m.cell_at(16, 384), Some('x'));
}

#[test]
fn any_text_can_be_looked_for() {
    let mut m = EchoMatcher::new();
    for (i, ch) in "one two".chars().enumerate() {
        m.apply_print(&PrintEvent { ch, at: CursorPos { row: 3, col: 2 + i as u16 } });
    }
    assert_eq!(m.find_text_anchor("two", 80), Some(CursorPos { row: 3, col: 6 }));
    assert_eq!(m.find_text_anchor("three", 80), None);
    assert_eq!(m.find_text_anchor("", 80), None);
    m.erase_cells(3, 7, 8);
    assert_eq!(m.find_text_anchor("two", 80), None);
    assert_eq!(m.cell_at(3, 6), Some('t'));
}

// The painter.

#[test]
fn case_of_the_first_letter_does_not_matter() {
    assert!(chars_equiv('T', 't'));
    assert!(chars_equiv('\u{c9}', '\u{e9}'));
    assert!(chars_equiv('\u{a0}', ' '));
    assert!(!chars_equiv('t', 'd'));
}

fn painting_brings_the_cursor_back() {
    for style in [PLAIN, FANCY] {
        let mut m = EchoMatcher::new();
        m.apply_input(InputEvent::Lints {
            issues: vec![issue(0, 3, "teh", &["the"]), issue(8, 11, "teh", &["the"])],
            buffer_chars: 14,
            buffer_text: "teh cat teh ok".into(),
            buffer_cursor: 14,
        });
        let mut o = ScreenObserver::new(40, 10);
        let mut events = Vec::new();
        o.observe_with_events(b"\x1b[4;6Hteh cat teh ok\x1b[9;30H", &mut events);
        for e in &events {
            m.apply_screen_event(e);
        }
        let before = o.state().cursor;
        let mut gate = PaintGate::new();
        let bytes = build_annotations_with(&mut gate, &m, o.state(), true, style, false);
        assert!(!bytes.is_empty());
        o.observe(&bytes);
        assert_eq!(o.state().cursor, before);
        assert_eq!(gate.painted_len(), 2);
    }
}

fn restored_cells_bring_the_cursor_back() {
    let m = EchoMatcher::new();
    let mut o = ScreenObserver::new(40, 10);
    o.observe(b"\x1b[2;3H");
    let region = OverlayRegion { row: 6, col_start: 4, col_end: 9 };
    let bytes = build_restore(Some(region), &m, o.state());
    assert_eq!(bytes, b"\x1b[5B\x1b[2C\x1b[m     \x1b[5A\x1b[7D");
    o.observe(&bytes);
    assert_eq!(o.state().cursor, CursorPos { row: 1, col: 2 });
    assert!(build_restore(None, &m, o.state()).is_empty());
}

#[test]
fn selection_goes_around() {
    let mut e = engage_for(&issue(0, 3, "teh", &["a", "b", "c"])).unwrap();
    e.nav(-4);
    assert_eq!(e.selected_suggestion(), "c");
    e.nav(4);
    assert_eq!(e.selected_suggestion(), "a");
    e.nav(isize::MIN);
    e.nav(isize::MAX);
    e.nav(1);
    assert_eq!(e.selected_suggestion(), "a");
}

// Settings.

fn variables_win_over_the_file() {
    let c = Config { underline: UnderlineMode::Fancy, ..Config::default() };
    let mut env = EnvOverrides::default();
    assert_eq!(c.underline_style(&env), FANCY);
    env.fancy_underline = true;
    env.plain_underline = true;
    assert_eq!(c.underline_style(&env), PLAIN);
    env.paint_off = true;
    env.tab_fix = Some("1".into());
    env.status = Some("off".into());
    assert!(!c.paint_enabled(&env));
    assert!(c.tab_fix_enabled(&env));
    assert!(!c.status_row_enabled(&env));
    let s = c.settings(&env);
    assert!(!s.paint && !s.tab_fix && !s.picker);
}

fn automatic_underline_goes_by_the_terminal() {
    let c = Config::default();
    let apple = EnvOverrides {
        term_program: Some("Apple_Terminal".into()),
        ..EnvOverrides::default()
    };
    assert_eq!(c.underline_style(&apple), PLAIN);
    assert_eq!(c.underline_style(&EnvOverrides::default()), FANCY);
    assert_eq!(c.clone().pause_duration(), Duration::from_millis(150));
    assert_eq!(c.hover_duration(), Duration { nanos: 250_000_000 });
}

fn settings_are_written_line_by_line() {
    let c = Config { dict_path: Some("a\"b\\c".into()), ..Config::default() };
    let expected = "# Generated by `tuipo config`. Hand-edits are preserved on next\n\
        # save, but unknown keys will fail to parse (see\n\
        # `deny_unknown_fields` in src/config.rs).\n\n\
        paint = true\nunderline = \"auto\"\ntab_fix = false\npicker = false\n\
        status_row = false\ngrammar = false\npause_ms = 150\nhover_ms = 250\n\
        dict_path = \"a\\\"b\\\\c\"\n";
    assert_eq!(c.to_toml_string(), expected);
}

#[test]
fn time_does_not_run_backwards() {
    let a = Instant { nanos: 5 };
    let b = Instant { nanos: 9 };
    assert_eq!(b.duration_since(a), Duration { nanos: 4 });
    assert_eq!(a.duration_since(b), Duration { nanos: 0 });
}

// The status row and the log.

#[test]
fn status_counts_distinct_shown_words() {
    let mut m = EchoMatcher::new();
    let mut grammar = issue(0, 3, "go", &["goes"]);
    grammar.category = IssueCategory::Grammar;
    m.apply_input(InputEvent::Lints {
        issues: vec![issue(0, 3, "teh", &[]), issue(4, 7, "teh", &[]), grammar],
        buffer_chars: 7,
        buffer_text: "teh teh".into(),
        buffer_cursor: 0,
    });
    assert_eq!(format_count(&m, false), "tuipo · 1 issue · Tab to fix");
    assert_eq!(format_count(&m, true), "tuipo · 2 issues · Tab to fix");
    assert_eq!(truncate_to_width("tuipo · 1", 7), "tuipo ·");
    assert_eq!(truncate_to_width("ab", 7), "ab");
}

#[test]
fn issues_are_logged_with_their_best_suggestion() {
    assert_eq!(format_issues(&[]), "[]");
    let list = [issue(0, 3, "teh", &["the", "ten"]), issue(4, 6, "x\"", &[])];
    assert_eq!(format_issues(&list), "[teh@0..3→\"the\", x\"@4..6→\"-\"]");
    let quoted = [issue(0, 1, "a", &["b\"c\n"])];
    assert_eq!(format_issues(&quoted), "[a@0..1→\"b\\\"c\\n\"]");
}

// The shell hook.

fn hook() -> Option<ShellHook> {
    detect_shell("/bin/zsh", "/home/u", "/opt/tuipo", false)
}

fn hook_goes_to_the_file_of_the_shell() {
    assert_eq!(hook().unwrap().rc_path, "/home/u/.zshrc");
    let bash = |home, profile| detect_shell("bash", home, "/opt/tuipo", profile).unwrap().rc_path;
    assert_eq!(bash("/home/u/", false), "/home/u/.bashrc");
    assert_eq!(bash("/home/u", true), "/home/u/.bash_profile");
    assert_eq!(bash("", true), ".bash_profile");
    assert!(detect_shell("/bin/notzsh", "/home/u", "/opt/tuipo", false).is_none());
}

fn installing_twice_changes_nothing() {
    let hook = hook();
    let first = match run_init(&[], &hook, "alias a=b\r\n\n\n") {
        InitPlan::Install(content) => content,
        other => panic!("expected an installation, got {other:?}"),
    };
    assert_eq!(
        first,
        format!("alias a=b\n\n{}\n{}\n", tuipo::init::MARKER, zsh_bash_hook("/opt/tuipo"))
    );
    assert!(matches!(run_init(&[], &hook, &first), InitPlan::AlreadyInstalled));
    let forced = run_init(&["--force".to_string()], &hook, &first);
    assert!(matches!(forced, InitPlan::Install(again) if again == first));
    let dry = run_init(&["--dry-run".to_string()], &hook, "");
    assert!(matches!(dry, InitPlan::DryRun));
    assert!(matches!(run_init(&[], &None, ""), InitPlan::UnknownShell));
    assert_eq!(strip_old_hook(&first), "alias a=b");
}

fn a_marker_without_its_hook_is_dropped_alone() {
    let rc = format!("a\n{}\nb\n", tuipo::init::MARKER);
    assert_eq!(strip_old_hook(&rc), "a\nb");
    assert_eq!(strip_old_hook("\n \n"), "");
}

fn screen_sizes_of_zero_count_as_one() {
    let mut s = ScreenState::new(0, 0);
    assert_eq!((s.cols, s.rows), (1, 1));
    s.resize(3, 0);
    assert_eq!((s.cols, s.rows), (3, 1));
}

fn painting_up_to_the_last_column_brings_the_cursor_back() {
    // The word ends in the last column, and the cursor stands there or in
    // the row below.
    for (row, col) in [(4, 12), (5, 1), (4, 1)] {
        let mut m = EchoMatcher::new();
        m.apply_input(InputEvent::Lints {
            issues: vec![issue(4, 7, "teh", &["the"])],
            buffer_chars: 10,
            buffer_text: "cat teh\nok".into(),
            buffer_cursor: 10,
        });
        let mut o = ScreenObserver::new(12, 10);
        let mut events = Vec::new();
        let bytes = format!("\x1b[4;6Hcat teh\x1b[5;6Hok\x1b[{row};{col}H");
        o.observe_with_events(bytes.as_bytes(), &mut events);
        for e in &events {
            m.apply_screen_event(e);
        }
        let before = o.state().cursor;
        let mut gate = PaintGate::new();
        let bytes = build_annotations_with(&mut gate, &m, o.state(), true, PLAIN, false);
        assert!(!bytes.is_empty());
        o.observe(&bytes);
        assert_eq!(o.state().cursor, before);
        assert!(!o.state().pending_wrap);
    }
}

fn cells_in_the_last_column_are_given_back_there() {
    let m = EchoMatcher::new();
    for text in ["\x1b[2;9H", "\x1b[2;10H", "\x1b[2;10Hx"] {
        let mut o = ScreenObserver::new(10, 5);
        o.observe(text.as_bytes());
        let before = o.state().cursor;
        let region = OverlayRegion { row: 1, col_start: 9, col_end: 10 };
        let bytes = build_restore(Some(region), &m, o.state());
        let mut events = Vec::new();
        o.observe_with_events(&bytes, &mut events);
        assert_eq!(o.state().cursor, before);
        assert!(!o.state().pending_wrap);
        assert!(
            matches!(&events[..], [ScreenEvent::Print(p)] if p.at == CursorPos { row: 1, col: 9 }),
            "{events:?}"
        );
    }
}

#[test]
fn a_copied_dictionary_has_the_same_words() {
    let dict = CustomDict::bundled(Some("frobnicate\n"));
    let copy = dict.clone();
    assert!(copy.contains("Frobnicate"));
    assert!(!copy.contains("teh"));
}

fn the_text_tells_all_settings() {
    let all = [
        Config::default(),
        Config { paint: false, ..Config::default() },
        Config { underline: UnderlineMode::Plain, ..Config::default() },
        Config { underline: UnderlineMode::Fancy, ..Config::default() },
        Config { tab_fix: true, ..Config::default() },
        Config { picker: true, ..Config::default() },
        Config { status_row: true, ..Config::default() },
        Config { grammar: true, ..Config::default() },
        Config { pause_ms: 15, ..Config::default() },
        Config { hover_ms: u64::MAX, ..Config::default() },
        Config { dict_path: Some(String::new()), ..Config::default() },
        Config { dict_path: Some("a\nb".into()), ..Config::default() },
    ];
    for (i, a) in all.iter().enumerate() {
        let text = a.to_toml_string();
        assert_eq!(text.contains("dict_path"), a.dict_path.is_some());
        for b in &all[..i] {
            assert_ne!(text, b.to_toml_string());
        }
    }
}

#[test]
fn drawn_characters_are_shown_whatever_came_before() {
    let mut m = EchoMatcher::new();
    let print = |m: &mut EchoMatcher, ch: char, row: u16, col: u16| {
        m.apply_print(&PrintEvent { ch, at: CursorPos { row, col } });
        assert_eq!(m.cell_at(row, col), Some(ch));
    };
    for i in 0..20_000u32 {
        print(&mut m, 'a', (i / 200) as u16, (i % 200) as u16);
    }
    m.apply_input(InputEvent::Boundary);
    print(&mut m, 'b', 1, 1);
    m.apply_screen_event(&ScreenEvent::Erase(EraseEvent { row: 1, col_start: 0, col_end: 9 }));
    print(&mut m, 'c', 1, 1);
    m.clear_screen();
    print(&mut m, 'd', 1, 1);
    m.reset();
    print(&mut m, 'e', 1, 1);
}

#[test]
fn issues_of_a_text() {
    dictionary_words_are_not_flagged();
    spelling_issues_come_with_suggestions();
    text_after_a_boundary_in_one_burst_is_checked();
}

#[test]
fn fixes_of_a_text() {
    fix_keeps_the_trailing_space();
    tab_fixes_misspellings_only();
    stale_issues_are_not_fixed();
}

#[test]
fn screen_follows_the_child() {
    parser_keeps_its_state_between_chunks();
    explicit_moves_cancel_a_pending_wrap();
    saving_the_cursor_is_a_change();
    huge_moves_stop_at_the_edge();
    erase_up_to_the_cursor_takes_its_cell_too();
    screen_sizes_of_zero_count_as_one();
}

#[test]
fn hook_is_installed_once() {
    hook_goes_to_the_file_of_the_shell();
    installing_twice_changes_nothing();
    a_marker_without_its_hook_is_dropped_alone();
}

#[test]
fn drawing_brings_the_cursor_back() {
    painting_brings_the_cursor_back();
    painting_up_to_the_last_column_brings_the_cursor_back();
    restored_cells_bring_the_cursor_back();
    cells_in_the_last_column_are_given_back_there();
}

#[test]
fn settings_are_resolved_and_written() {
    variables_win_over_the_file();
    automatic_underline_goes_by_the_terminal();
    settings_are_written_line_by_line();
    the_text_tells_all_settings();
}
