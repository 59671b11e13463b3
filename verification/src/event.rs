//! Events that cross between the input side and the rendering side.
//!
//! The input side reports what the user did as `InputEvent`s; the rendering
//! side keeps its echo tracking up to date with them. Only snapshots of the
//! issues cross over, never the linter itself.

use crate::screen::CursorPos;
use crate::spell::{clone_strings, issues_view, texts, IssueView, SpellIssue};
use vstd::prelude::*;

verus! {

#[derive(Debug)]
pub enum InputEvent {
    /// The user typed a printable ASCII character, which now stands at
    /// `char_offset` of the buffer.
    UserChar { ch: char, char_offset: usize },
    /// Input boundary: Enter, Esc, Ctrl-C or Ctrl-D.
    Boundary,
    /// The issues of the buffer with its length in characters, its text and
    /// its cursor in characters.
    Lints {
        issues: Vec<SpellIssue>,
        buffer_chars: usize,
        buffer_text: String,
        buffer_cursor: usize,
    },
    /// The picker was opened or changed, or closed with `None`.
    PickerState(Option<PickerSnapshot>),
}

/// What the suggestion picker shows.
#[derive(Debug)]
pub struct PickerSnapshot {
    /// The misspelling that is offered a fix.
    pub target: String,
    /// Top suggestions, best first.
    pub suggestions: Vec<String>,
    /// Index of the highlighted suggestion.
    pub selected: usize,
}

/// A printable character the child drew. `at` is the cell where it is
/// visible.
#[derive(Debug, Clone, Copy, PartialEq, Eq, Structural)]
pub struct PrintEvent {
    pub ch: char,
    pub at: CursorPos,
}

/// The child cleared the cells `col_start..col_end` of `row`. Erases that
/// span rows come as one event per row.
#[derive(Debug, Clone, Copy, PartialEq, Eq, Structural)]
pub struct EraseEvent {
    pub row: u16,
    pub col_start: u16,
    pub col_end: u16,
}

/// A cell-level change of the screen. Prints and erases share one type so
/// that they stay in byte order.
#[derive(Debug, Clone, Copy, PartialEq, Eq, Structural)]
pub enum ScreenEvent {
    Print(PrintEvent),
    Erase(EraseEvent),
}

/// What the render loop takes in, from all sides through one channel.
#[derive(Debug)]
pub enum RenderEvent {
    /// Bytes the child wrote to its terminal.
    PtyBytes(Vec<u8>),
    /// Activity of the user.
    Input(InputEvent),
    /// Periodic wake-up.
    Tick,
    /// The terminal has a new size. Comes before the child's redraw for it.
    Resize { cols: u16, rows: u16 },
    /// Paint at once, without waiting for the next tick.
    ForcePaint,
    /// The child is gone.
    PtyEof,
}

/// What a `PickerSnapshot` holds.
#[verifier::ext_equal]
pub struct SnapshotView {
    pub target: Seq<char>,
    pub suggestions: Seq<Seq<char>>,
    pub selected: int,
}

/// What an `InputEvent` holds.
pub enum InputEventView {
    UserChar { ch: char, char_offset: int },
    Boundary,
    Lints {
        issues: Seq<IssueView>,
        buffer_chars: int,
        buffer_text: Seq<char>,
        buffer_cursor: int,
    },
    PickerState(Option<SnapshotView>),
}

/// What a `RenderEvent` holds.
pub enum RenderEventView {
    PtyBytes(Seq<u8>),
    Input(InputEventView),
    Tick,
    Resize { cols: u16, rows: u16 },
    ForcePaint,
    PtyEof,
}

impl View for PickerSnapshot {
    type V = SnapshotView;

    open spec fn view(&self) -> SnapshotView {
        SnapshotView {
            target: self.target@,
            suggestions: texts(self.suggestions@),
            selected: self.selected as int,
        }
    }
}

pub open spec fn snapshot_view(snapshot: Option<PickerSnapshot>) -> Option<SnapshotView> {
    match snapshot {
        Some(s) => Some(s@),
        None => None,
    }
}

impl View for InputEvent {
    type V = InputEventView;

    open spec fn view(&self) -> InputEventView {
        match *self {
            InputEvent::UserChar { ch, char_offset } => InputEventView::UserChar {
                ch,
                char_offset: char_offset as int,
            },
            InputEvent::Boundary => InputEventView::Boundary,
            InputEvent::Lints { issues, buffer_chars, buffer_text, buffer_cursor } => {
                InputEventView::Lints {
                    issues: issues_view(issues@),
                    buffer_chars: buffer_chars as int,
                    buffer_text: buffer_text@,
                    buffer_cursor: buffer_cursor as int,
                }
            },
            InputEvent::PickerState(snapshot) => InputEventView::PickerState(
                snapshot_view(snapshot),
            ),
        }
    }
}

impl View for RenderEvent {
    type V = RenderEventView;

    open spec fn view(&self) -> RenderEventView {
        match *self {
            RenderEvent::PtyBytes(bytes) => RenderEventView::PtyBytes(bytes@),
            RenderEvent::Input(event) => RenderEventView::Input(event@),
            RenderEvent::Tick => RenderEventView::Tick,
            RenderEvent::Resize { cols, rows } => RenderEventView::Resize { cols, rows },
            RenderEvent::ForcePaint => RenderEventView::ForcePaint,
            RenderEvent::PtyEof => RenderEventView::PtyEof,
        }
    }
}

impl Clone for PickerSnapshot {
    fn clone(&self) -> (r: Self)
        ensures
            r@ == self@,
    {
        PickerSnapshot {
            target: self.target.clone(),
            suggestions: clone_strings(&self.suggestions),
            selected: self.selected,
        }
    }
}

impl Clone for InputEvent {
    fn clone(&self) -> (r: Self)
        ensures
            r@ == self@,
    {
        match self {
            InputEvent::UserChar { ch, char_offset } => InputEvent::UserChar {
                ch: *ch,
                char_offset: *char_offset,
            },
            InputEvent::Boundary => InputEvent::Boundary,
            InputEvent::Lints { issues, buffer_chars, buffer_text, buffer_cursor } => {
                InputEvent::Lints {
                    issues: crate::spell::clone_issues(issues.as_slice()),
                    buffer_chars: *buffer_chars,
                    buffer_text: buffer_text.clone(),
                    buffer_cursor: *buffer_cursor,
                }
            },
            InputEvent::PickerState(snapshot) => match snapshot {
                Some(s) => InputEvent::PickerState(Some(s.clone())),
                None => InputEvent::PickerState(None),
            },
        }
    }
}

} // verus!
