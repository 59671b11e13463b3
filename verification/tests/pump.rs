use tuipo::config::{Config, EnvOverrides, Settings};
use tuipo::event::{InputEvent, RenderEvent};
use tuipo::input::InputState;
use tuipo::pty::{
    end_chunk, finish_paste, handle_byte, handle_chunk_part, handle_paste_chunk, PickerCtx, PumpAction,
};

fn settings(tab_fix: bool, picker: bool) -> Settings {
    let config = Config { tab_fix, picker, ..Config::default() };
    config.settings(&EnvOverrides::default())
}

struct Pump {
    state: InputState,
    picker: PickerCtx,
    settings: Settings,
}

impl Pump {
    fn new(settings: Settings) -> Self {
        Pump { state: InputState::new(), picker: PickerCtx::new(), settings }
    }

    fn typed(&mut self, bytes: &[u8]) -> Vec<PumpAction> {
        let mut all = Vec::new();
        for &b in bytes {
            all.extend(handle_byte(b, &mut self.state, &mut self.picker, &self.settings));
        }
        all
    }

    fn text(&self) -> &str {
        self.state.buffer().text()
    }
}

fn child_bytes(actions: &[PumpAction]) -> Vec<u8> {
    actions
        .iter()
        .filter_map(|a| match a {
            PumpAction::ToChild(bytes) => Some(bytes.clone()),
            _ => None,
        })
        .flatten()
        .collect()
}

fn events(actions: &[PumpAction]) -> Vec<&RenderEvent> {
    actions
        .iter()
        .filter_map(|a| match a {
            PumpAction::Emit(e) => Some(e),
            _ => None,
        })
        .collect()
}

fn closes_picker(event: &RenderEvent) -> bool {
    matches!(event, RenderEvent::Input(InputEvent::PickerState(None)))
}

fn typed_bytes_reach_the_child_unchanged() {
    let mut p = Pump::new(settings(false, false));
    let input = "hi\tthere \u{e9}\x1b[D\x7f\r".as_bytes();
    let actions = p.typed(input);
    assert_eq!(child_bytes(&actions), input);
    assert_eq!(p.text(), "");
}

fn each_typed_character_is_reported_before_it_is_passed_on() {
    let mut p = Pump::new(settings(false, false));
    let actions = p.typed(b"a");
    assert_eq!(actions.len(), 3);
    assert!(matches!(
        actions[0],
        PumpAction::Emit(RenderEvent::Input(InputEvent::UserChar { ch: 'a', char_offset: 0 }))
    ));
    assert!(matches!(
        &actions[1],
        PumpAction::Emit(RenderEvent::Input(InputEvent::Lints {
            buffer_chars: 1,
            buffer_cursor: 1,
            buffer_text,
            ..
        })) if buffer_text == "a"
    ));
    assert!(matches!(&actions[2], PumpAction::ToChild(b) if b == b"a"));
}

fn arrow_keys_are_no_typed_characters() {
    let mut p = Pump::new(settings(false, false));
    p.typed(b"ab\x1b[D\x1b[D");
    let actions = p.typed(b"\x1b[C");
    assert!(!events(&actions)
        .iter()
        .any(|e| matches!(e, RenderEvent::Input(InputEvent::UserChar { .. }))));
    assert_eq!(p.state.buffer().cursor(), 1);
}

fn enter_reports_a_boundary() {
    let mut p = Pump::new(settings(false, false));
    p.typed(b"abc");
    let actions = p.typed(b"\r");
    assert_eq!(actions.len(), 2);
    assert!(matches!(
        actions[0],
        PumpAction::Emit(RenderEvent::Input(InputEvent::Boundary))
    ));
    assert!(p.state.buffer().is_empty());
}

fn tab_types_the_top_suggestion() {
    let mut p = Pump::new(settings(true, false));
    p.typed(b"teh cat");
    let top = p.state.issues()[0].suggestions[0].clone();
    assert_eq!(p.state.issues()[0].word, "teh");
    let actions = p.typed(b"\t");
    assert_eq!(p.text(), format!("{top} cat"));
    let mut expected = vec![0x08; 7];
    expected.extend_from_slice(format!("{top} cat").as_bytes());
    assert_eq!(child_bytes(&actions), expected);
    assert!(matches!(actions.last(), Some(PumpAction::Flush)));
    assert!(matches!(actions[0], PumpAction::Fixing(_)));
}

fn tab_passes_through_without_a_misspelling() {
    let mut p = Pump::new(settings(true, false));
    p.typed(b"hello");
    assert_eq!(child_bytes(&p.typed(b"\t")), b"\t");
}

fn tab_stays_with_the_child_while_typing_forward() {
    let mut p = Pump::new(settings(false, true));
    p.typed(b"teh");
    let actions = p.typed(b"\t");
    assert_eq!(child_bytes(&actions), b"\t");
    assert!(!p.picker.is_engaged());
}

fn picker_opens_moves_and_applies() {
    let mut p = Pump::new(settings(false, true));
    p.typed(b"teh cat\x1b[D\x1b[D\x1b[D\x1b[D\x1b[D");
    let suggestions = p.state.issues()[0].suggestions.clone();
    assert!(suggestions.len() >= 2);

    let opened = p.typed(b"\t");
    assert!(p.picker.is_engaged());
    assert!(child_bytes(&opened).is_empty());
    match events(&opened)[0] {
        RenderEvent::Input(InputEvent::PickerState(Some(snap))) => {
            assert_eq!(snap.target, "teh");
            assert_eq!(snap.selected, 0);
            assert_eq!(snap.suggestions, suggestions);
        }
        other => panic!("expected the picker to open, got {other:?}"),
    }

    // Right, Tab and Left: one step on in all.
    let moved = p.typed(b"\x1b[C\t\x1b[D");
    assert!(child_bytes(&moved).is_empty());
    assert_eq!(p.text(), "teh cat");

    let applied = p.typed(b"\r");
    assert_eq!(p.text(), format!("{} cat", suggestions[1]));
    assert!(!p.picker.is_engaged());
    let mut expected = b"\x1b[C".to_vec();
    expected.extend_from_slice(&[0x08; 3]);
    expected.extend_from_slice(suggestions[1].as_bytes());
    assert_eq!(child_bytes(&applied), expected);
    assert!(events(&applied).iter().any(|e| closes_picker(e)));
}

fn bare_escape_closes_the_picker_at_the_end_of_a_chunk() {
    let mut p = Pump::new(settings(false, true));
    p.typed(b"teh cat\x1b[D\x1b[D\x1b[D\x1b[D\x1b[D\t");
    assert!(p.picker.is_engaged());
    assert!(p.typed(b"\x1b").is_empty());
    let actions = end_chunk(&mut p.picker);
    assert!(!p.picker.is_engaged());
    assert!(closes_picker(events(&actions)[0]));
    assert!(matches!(actions.last(), Some(PumpAction::Flush)));
    assert_eq!(p.text(), "teh cat");
}

fn another_sequence_closes_the_picker_and_reaches_the_child() {
    let mut p = Pump::new(settings(false, true));
    p.typed(b"teh cat\x1b[D\x1b[D\x1b[D\x1b[D\x1b[D\t");
    let actions = p.typed(b"\x1b[H");
    assert!(!p.picker.is_engaged());
    assert_eq!(child_bytes(&actions), b"\x1b[H");
}

fn typing_closes_the_picker_and_is_taken_in() {
    let mut p = Pump::new(settings(false, true));
    p.typed(b"teh cat\x1b[D\x1b[D\x1b[D\x1b[D\x1b[D\t");
    let actions = p.typed(b"x");
    assert!(!p.picker.is_engaged());
    assert!(closes_picker(events(&actions)[0]));
    assert_eq!(child_bytes(&actions), b"x");
    assert_eq!(p.text(), "texh cat");
}

fn picker_opens_at_the_end_after_a_deletion() {
    let mut p = Pump::new(settings(false, true));
    p.typed(b"teh \x7f");
    assert_eq!(p.text(), "teh");
    p.typed(b"\t");
    assert!(p.picker.is_engaged());
}

fn fix_counts_as_a_change_of_length() {
    let mut p = Pump::new(settings(false, true));
    p.typed(b"teh \x7f\t");
    assert!(p.picker.is_engaged());
    let fixed = p.state.issues()[0].suggestions[0].chars().count();
    p.typed(b"\r");
    assert_eq!(p.text().chars().count(), fixed);
    p.typed(b" x");
    assert!(!p.picker.is_engaged());
    p.typed(b"\t");
    assert!(!p.picker.is_engaged(), "typing forward again");
}

fn pasted_lines_arrive_whole_and_before_the_check() {
    let mut p = Pump::new(settings(false, false));
    let chunk = b"first line\nsecond teh line\n";
    let first = handle_paste_chunk(chunk, &mut p.state);
    assert_eq!(child_bytes(&first), chunk);
    assert_eq!(p.text(), "first line\nsecond teh line\n");
    assert!(p.state.issues().is_empty());
    let then = finish_paste(&mut p.state, &mut p.picker);
    assert!(p.state.issues().iter().any(|i| i.word == "teh"));
    match events(&then)[0] {
        RenderEvent::Input(InputEvent::Lints { buffer_chars, issues, .. }) => {
            assert_eq!(*buffer_chars, 27);
            assert_eq!(issues.len(), p.state.issues().len());
        }
        other => panic!("expected a report, got {other:?}"),
    }
    p.typed(b"\r");
    assert_eq!(p.text(), "", "Enter after the paste still submits");
}

fn issues_follow_the_text_byte_by_byte() {
    let mut p = Pump::new(settings(false, false));
    p.typed(b"teh cat");
    assert!(p.state.issues().iter().any(|i| i.word == "teh"));
    p.typed(b"\x15");
    assert!(p.state.issues().is_empty());
    assert_eq!(p.text(), "");
}

fn a_chunk_is_handled_part_by_part() {
    for chunk in [&b"teh"[..], b"", b"first\nsecond"] {
        let mut p = Pump::new(settings(false, false));
        let mut all = Vec::new();
        let mut part = 0;
        while let Some(actions) =
            handle_chunk_part(chunk, part, &mut p.state, &mut p.picker, &p.settings)
        {
            all.extend(actions);
            part += 1;
        }
        assert_eq!(child_bytes(&all), chunk);
        assert_eq!(p.text().as_bytes(), chunk);
        assert!(all.iter().any(|a| matches!(a, PumpAction::Flush)));
        assert_eq!(part, if chunk.contains(&b'\n') { 2 } else { chunk.len() + 1 });
    }
}

#[test]
fn typing_reaches_the_child() {
    typed_bytes_reach_the_child_unchanged();
    each_typed_character_is_reported_before_it_is_passed_on();
    arrow_keys_are_no_typed_characters();
    enter_reports_a_boundary();
    issues_follow_the_text_byte_by_byte();
}

#[test]
fn tab_fixes_or_passes_through() {
    tab_types_the_top_suggestion();
    tab_passes_through_without_a_misspelling();
    tab_stays_with_the_child_while_typing_forward();
    fix_counts_as_a_change_of_length();
}

#[test]
fn picker_keys_work_the_picker() {
    picker_opens_moves_and_applies();
    bare_escape_closes_the_picker_at_the_end_of_a_chunk();
    another_sequence_closes_the_picker_and_reaches_the_child();
    typing_closes_the_picker_and_is_taken_in();
    picker_opens_at_the_end_after_a_deletion();
}

#[test]
fn chunks_are_told_apart() {
    pasted_lines_arrive_whole_and_before_the_check();
    a_chunk_is_handled_part_by_part();
}
