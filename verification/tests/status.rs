use tuipo::config::{Config, EnvOverrides};
use tuipo::echo::EchoMatcher;
use tuipo::event::InputEvent;
use tuipo::screen::ScreenState;
use tuipo::spell::{IssueCategory, SpellIssue};
use tuipo::status::build_status;

fn issue(word: &str) -> SpellIssue {
    SpellIssue {
        byte_start: 0,
        byte_end: word.len(),
        char_start: 0,
        char_end: word.chars().count(),
        word: word.into(),
        message: "test".into(),
        suggestions: vec![format!("{word}-fixed")],
        category: IssueCategory::Spelling,
        priority: 50,
    }
}

fn term(cols: u16, rows: u16) -> ScreenState {
    ScreenState::new(cols, rows)
}

#[test]
fn no_idle_status_by_default() {
    let settings = Config::default().settings(&EnvOverrides::default());
    // The default UX is "show paint underlines, not a chrome status
    // row" — most hosts redraw their bottom row and would fight us.
    let mut m = EchoMatcher::new();
    m.apply_input(InputEvent::Lints {
        issues: vec![issue("teh")],
        buffer_chars: 3,
        buffer_text: "teh".into(),
        buffer_cursor: 0,
    });
    assert!(build_status(&m, &term(80, 24), &settings).is_empty());
}

#[test]
fn no_status_when_no_issues() {
    let settings = Config::default().settings(&EnvOverrides::default());
    let m = EchoMatcher::new();
    assert!(build_status(&m, &term(80, 24), &settings).is_empty());
}

#[test]
fn opt_in_status_shows_count() {
    let env = EnvOverrides { status: Some("on".into()), ..EnvOverrides::default() };
    let settings = Config::default().settings(&env);
    let mut m = EchoMatcher::new();
    m.apply_input(InputEvent::Lints {
        issues: vec![issue("teh"), issue("paragprah")],
        buffer_chars: 13,
        buffer_text: "teh paragprah".into(),
        buffer_cursor: 0,
    });
    let bytes = build_status(&m, &term(80, 24), &settings);
    let s = String::from_utf8_lossy(&bytes);
    assert!(s.contains("2 issues"), "expected `2 issues`, got: {s:?}");
}
