//! Suggestion picker.
//!
//! Off by default. When on, a tooltip appears beside a flagged word once the
//! cursor has rested on it for a while, without capturing any key. Tab on
//! such a word engages the picker: arrows move the selection, Enter applies
//! it, Esc dismisses it, and none of these keys reaches the child.
//!
//! The overlay is drawn to the right of the word, or above it where there is
//! no room. The child does not know about it, so the cells it covered are
//! rewritten from the screen grid when it goes.

use crate::ansi::{approach, approach_tokens, drawn, drawn_from, finish, pen_after, pos};
use crate::ansi::{push_text, rest_at, resting_col, run_all, run_all_concat, same_screen_at};
use crate::ansi::stroke_fits;
use crate::ansi::{tokens_bytes, tokens_bytes_concat, tokens_bytes_one, Pos, Stroke, Token};
use crate::clock::{Duration, Instant};
use crate::config::Settings;
use crate::echo::{hovered, is_hovered, is_on, EchoMatcher, EchoModel};
use crate::event::{snapshot_view, PickerSnapshot, SnapshotView};
use crate::grid::{glyph, Cell};
use crate::paint::{home, paintable};
use crate::screen::{CursorPos, ScreenState};
use crate::spell::{clone_strings, is_actionable_category, issues_view, texts, IssueView, SpellIssue};
use crate::text::same_text;
use vstd::prelude::*;

verus! {

/// An open picker: while there is one, arrows, Enter, Esc and Tab belong to
/// it.
#[derive(Debug)]
pub struct Engaged {
    pub target_char_start: usize,
    pub target_char_end: usize,
    pub target_word: String,
    pub suggestions: Vec<String>,
    pub selected: usize,
}

/// What an `Engaged` holds.
#[verifier::ext_equal]
pub struct EngagedView {
    pub target_char_start: int,
    pub target_char_end: int,
    pub target_word: Seq<char>,
    pub suggestions: Seq<Seq<char>>,
    pub selected: int,
}

impl View for Engaged {
    type V = EngagedView;

    open spec fn view(&self) -> EngagedView {
        EngagedView {
            target_char_start: self.target_char_start as int,
            target_char_end: self.target_char_end as int,
            target_word: self.target_word@,
            suggestions: texts(self.suggestions@),
            selected: self.selected as int,
        }
    }
}

impl EngagedView {
    /// One of the suggestions is selected.
    pub open spec fn wf(self) -> bool {
        0 <= self.selected < self.suggestions.len()
    }

    /// The selection moved by `delta`, past either end to the other.
    pub open spec fn moved(self, delta: int) -> EngagedView {
        if self.suggestions.len() == 0 {
            self
        } else {
            EngagedView {
                selected: (self.selected + delta) % (self.suggestions.len() as int),
                ..self
            }
        }
    }

    pub open spec fn snapshot(self) -> SnapshotView {
        SnapshotView {
            target: self.target_word,
            suggestions: self.suggestions,
            selected: self.selected,
        }
    }
}

impl Clone for Engaged {
    fn clone(&self) -> (r: Self)
        ensures
            r@ == self@,
    {
        Engaged {
            target_char_start: self.target_char_start,
            target_char_end: self.target_char_end,
            target_word: self.target_word.clone(),
            suggestions: clone_strings(&self.suggestions),
            selected: self.selected,
        }
    }
}

impl Engaged {
    pub fn snapshot(&self) -> (r: PickerSnapshot)
        ensures
            r@ == self@.snapshot(),
    {
        PickerSnapshot {
            target: self.target_word.clone(),
            suggestions: clone_strings(&self.suggestions),
            selected: self.selected,
        }
    }

    /// Moves the selection by `delta`, past either end to the other.
    pub fn nav(&mut self, delta: isize)
        ensures
            final(self)@ == old(self)@.moved(delta as int),
    {
        if self.suggestions.len() == 0 {
            return;
        }
        let len: u128 = self.suggestions.len() as u128;
        let here: u128 = self.selected as u128;
        let next: u128 = if delta >= 0 {
            (here + delta as u128) % len
        } else {
            let back: u128 = (-(delta as i128)) as u128 % len;
            let there: u128 = here + len - back;
            proof {
                let d = -(delta as int);
                let l = len as int;
                vstd::arithmetic::div_mod::lemma_fundamental_div_mod(d, l);
                assert(here + l - d % l == here + delta + l * (1 + d / l)) by (nonlinear_arith)
                    requires
                        d == l * (d / l) + d % l,
                        d == -(delta as int),
                ;
                vstd::arithmetic::div_mod::lemma_mod_multiples_vanish(1 + d / l, here + delta, l);
            }
            there % len
        };
        self.selected = next as usize;
        proof {
            assert(self.suggestions@ == old(self).suggestions@);
        }
    }

    pub fn selected_suggestion(&self) -> (r: &str)
        requires
            self@.wf(),
        ensures
            r@ == self@.suggestions[self@.selected],
    {
        self.suggestions[self.selected].as_str()
    }
}

/// The picker for an issue, with the first suggestion selected. None for an
/// issue without suggestions.
pub open spec fn engaged_for(issue: IssueView) -> Option<EngagedView> {
    if issue.suggestions.len() == 0 {
        None
    } else {
        Some(
            EngagedView {
                target_char_start: issue.char_start,
                target_char_end: issue.char_end,
                target_word: issue.word,
                suggestions: issue.suggestions,
                selected: 0,
            },
        )
    }
}

pub open spec fn engaged_view(engaged: Option<Engaged>) -> Option<EngagedView> {
    match engaged {
        Some(e) => Some(e@),
        None => None,
    }
}

pub fn engage_for(issue: &SpellIssue) -> (r: Option<Engaged>)
    ensures
        engaged_view(r) == engaged_for(issue@),
{
    if issue.suggestions.len() == 0 {
        return None;
    }
    Some(
        Engaged {
            target_char_start: issue.char_start,
            target_char_end: issue.char_end,
            target_word: issue.word.clone(),
            suggestions: clone_strings(&issue.suggestions),
            selected: 0,
        },
    )
}

/// The cells that the picker covers.
#[derive(Debug, Clone, Copy, PartialEq, Eq, Structural)]
pub struct OverlayRegion {
    pub row: u16,
    pub col_start: u16,
    pub col_end: u16,
}

/// The rendering side of the picker: what the input side opened, and whether
/// the cursor rests on an issue.
#[derive(Debug)]
pub struct OverlayGate {
    /// What the engaged picker shows. Takes precedence over hovering.
    pub engaged_snapshot: Option<PickerSnapshot>,
    /// Where the picker was drawn last.
    pub region: Option<OverlayRegion>,
    /// When the buffer cursor moved last.
    pub cursor_changed_at: Option<Instant>,
    /// The buffer cursor as it was seen last.
    pub last_cursor: Option<usize>,
    /// The length of the buffer as it was seen last.
    pub last_buffer_chars: Option<usize>,
    /// The last change made the buffer shorter.
    pub buffer_shrank: bool,
    /// The issue that the tooltip is shown for, by its index.
    pub hover_lint: Option<usize>,
}

/// What an `OverlayGate` holds.
#[verifier::ext_equal]
pub struct OverlayModel {
    pub engaged_snapshot: Option<SnapshotView>,
    pub region: Option<OverlayRegion>,
    pub cursor_changed_at: Option<Instant>,
    pub last_cursor: Option<usize>,
    pub last_buffer_chars: Option<usize>,
    pub buffer_shrank: bool,
    pub hover_lint: Option<usize>,
}

impl View for OverlayGate {
    type V = OverlayModel;

    open spec fn view(&self) -> OverlayModel {
        OverlayModel {
            engaged_snapshot: snapshot_view(self.engaged_snapshot),
            region: self.region,
            cursor_changed_at: self.cursor_changed_at,
            last_cursor: self.last_cursor,
            last_buffer_chars: self.last_buffer_chars,
            buffer_shrank: self.buffer_shrank,
            hover_lint: self.hover_lint,
        }
    }
}

/// Whether a length is below the one seen before it.
pub open spec fn shrank(last: Option<usize>, chars: usize) -> bool {
    last matches Some(prev) && chars < prev
}

impl OverlayModel {
    pub open spec fn init() -> OverlayModel {
        OverlayModel {
            engaged_snapshot: None,
            region: None,
            cursor_changed_at: None,
            last_cursor: None,
            last_buffer_chars: None,
            buffer_shrank: false,
            hover_lint: None,
        }
    }

    pub open spec fn noted(self, cursor: usize, chars: usize, now: Instant) -> OverlayModel {
        let counted = OverlayModel {
            buffer_shrank: shrank(self.last_buffer_chars, chars),
            last_buffer_chars: Some(chars),
            ..self
        };
        if self.last_cursor == Some(cursor) {
            counted
        } else {
            OverlayModel {
                last_cursor: Some(cursor),
                cursor_changed_at: Some(now),
                hover_lint: None,
                ..counted
            }
        }
    }

    pub open spec fn untracked(self) -> OverlayModel {
        OverlayModel {
            last_buffer_chars: None,
            buffer_shrank: false,
            last_cursor: None,
            cursor_changed_at: None,
            hover_lint: None,
            ..self
        }
    }

    /// Whether the cursor has rested for the hover window.
    pub open spec fn rested(self, now: Instant, window: Duration) -> bool {
        self.cursor_changed_at matches Some(t) && (now.nanos - t.nanos >= window.nanos
            || window.nanos == 0)
    }

    /// The issue that the tooltip should be shown for.
    pub open spec fn hover_target(
        self,
        m: EchoModel,
        now: Instant,
        window: Duration,
        settings: Settings,
    ) -> Option<int> {
        if !settings.picker || self.engaged_snapshot is Some || types_forward(
            m.buffer_cursor,
            m.buffer_chars,
            self.buffer_shrank,
        ) || !self.rested(now, window) {
            None
        } else {
            hovered(m.lints, m.buffer_cursor, settings.grammar)
        }
    }
}

/// What is to be drawn: what the engaged picker shows, or the suggestions for
/// the issue that the cursor rests on.
pub struct TargetView {
    pub word: Seq<char>,
    /// Where the word is, by characters, where that is known.
    pub range: Option<(int, int)>,
    pub suggestions: Seq<Seq<char>>,
    pub selected: int,
    pub engaged: bool,
}

/// What is to be drawn.
#[derive(Debug)]
pub enum RenderTarget<'a> {
    /// The interactive picker with the user's selection.
    Engaged(&'a PickerSnapshot),
    /// The passive tooltip.
    Hover(&'a SpellIssue),
}

impl<'a> View for RenderTarget<'a> {
    type V = TargetView;

    open spec fn view(&self) -> TargetView {
        match *self {
            RenderTarget::Engaged(snap) => TargetView {
                word: snap@.target,
                range: None,
                suggestions: snap@.suggestions,
                selected: snap@.selected,
                engaged: true,
            },
            RenderTarget::Hover(lint) => TargetView {
                word: lint@.word,
                range: Some((lint@.char_start, lint@.char_end)),
                suggestions: lint@.suggestions,
                selected: 0,
                engaged: false,
            },
        }
    }
}

impl OverlayModel {
    /// What the picker draws, if anything.
    pub open spec fn target(self, lints: Seq<IssueView>) -> Option<TargetView> {
        match self.engaged_snapshot {
            Some(snap) => Some(
                TargetView {
                    word: snap.target,
                    range: None,
                    suggestions: snap.suggestions,
                    selected: snap.selected,
                    engaged: true,
                },
            ),
            None => match self.hover_lint {
                Some(i) => if i < lints.len() {
                    Some(
                        TargetView {
                            word: lints[i as int].word,
                            range: Some((lints[i as int].char_start, lints[i as int].char_end)),
                            suggestions: lints[i as int].suggestions,
                            selected: 0,
                            engaged: false,
                        },
                    )
                } else {
                    None
                },
                None => None,
            },
        }
    }
}

impl OverlayGate {
    pub fn new() -> (r: Self)
        ensures
            r@ == OverlayModel::init(),
    {
        OverlayGate {
            engaged_snapshot: None,
            region: None,
            cursor_changed_at: None,
            last_cursor: None,
            last_buffer_chars: None,
            buffer_shrank: false,
            hover_lint: None,
        }
    }

    /// Keeps track of when the cursor moved, and of whether the buffer became
    /// shorter.
    pub fn note_buffer(&mut self, cursor: usize, buffer_chars: usize, now: Instant)
        ensures
            final(self)@ == old(self)@.noted(cursor, buffer_chars, now),
    {
        self.buffer_shrank = match self.last_buffer_chars {
            Some(prev) => buffer_chars < prev,
            None => false,
        };
        self.last_buffer_chars = Some(buffer_chars);
        let same = match self.last_cursor {
            Some(last) => last == cursor,
            None => false,
        };
        if !same {
            self.last_cursor = Some(cursor);
            self.cursor_changed_at = Some(now);
            self.hover_lint = None;
        }
    }

    /// Forgets cursor and length at a boundary, so that the first keystroke of
    /// the next prompt does not count as one that shortens the buffer.
    pub fn reset_buffer_tracking(&mut self)
        ensures
            final(self)@ == old(self)@.untracked(),
    {
        self.last_buffer_chars = None;
        self.buffer_shrank = false;
        self.last_cursor = None;
        self.cursor_changed_at = None;
        self.hover_lint = None;
    }

    pub fn set_engaged(&mut self, snap: Option<PickerSnapshot>)
        ensures
            final(self)@ == (OverlayModel {
                engaged_snapshot: snapshot_view(snap),
                ..old(self)@
            }),
    {
        self.engaged_snapshot = snap;
    }

    /// What the picker draws, if anything.
    pub fn snapshot_to_render<'a>(&'a self, lints: &'a [SpellIssue]) -> (r: Option<
        RenderTarget<'a>,
    >)
        ensures
            self@.target(issues_view(lints@)) == match r {
                Some(t) => Some(t@),
                None => None,
            },
            r == match self.engaged_snapshot {
                Some(snap) => Some(RenderTarget::Engaged(&snap)),
                None => match self.hover_lint {
                    Some(i) => if i < lints@.len() {
                        Some(RenderTarget::Hover(&lints@[i as int]))
                    } else {
                        None
                    },
                    None => None,
                },
            },
    {
        if let Some(snap) = &self.engaged_snapshot {
            return Some(RenderTarget::Engaged(snap));
        }
        match self.hover_lint {
            Some(idx) => if idx < lints.len() {
                proof {
                    assert(issues_view(lints@)[idx as int] == lints@[idx as int]@);
                }
                Some(RenderTarget::Hover(&lints[idx]))
            } else {
                None
            },
            None => None,
        }
    }
}

impl Default for OverlayGate {
    fn default() -> (r: Self)
        ensures
            r@ == OverlayModel::init(),
    {
        OverlayGate::new()
    }
}

/// Whether the picker can be anchored on an issue with the cursor where it is.
pub open spec fn can_pick(lint: IssueView, cursor: int, grammar: bool) -> bool {
    paintable(lint, grammar) && lint.char_start <= cursor <= lint.char_end
}

/// Whether the issue at `i` is the one that the picker is anchored on: of
/// those possible the one that starts last, and of several such the first.
pub open spec fn is_picked(lints: Seq<IssueView>, cursor: int, grammar: bool, i: int) -> bool {
    &&& 0 <= i < lints.len()
    &&& can_pick(lints[i], cursor, grammar)
    &&& forall|j: int|
        0 <= j < lints.len() && can_pick(#[trigger] lints[j], cursor, grammar)
            ==> lints[j].char_start < lints[i].char_start || (lints[j].char_start
            == lints[i].char_start && i <= j)
}

/// The issue that the picker is anchored on, by its index.
pub open spec fn picked(lints: Seq<IssueView>, cursor: int, grammar: bool) -> Option<int> {
    if exists|i: int| is_picked(lints, cursor, grammar, i) {
        Some(choose|i: int| is_picked(lints, cursor, grammar, i))
    } else {
        None
    }
}

/// The issue to anchor the picker on: one that is shown, has suggestions and
/// has the cursor inside or right behind it. Of several, the rightmost.
pub fn pick_target(lints: &[SpellIssue], buffer_cursor: usize, grammar_enabled: bool) -> (r: Option<
    &SpellIssue,
>)
    ensures
        match r {
            Some(lint) => picked(
                issues_view(lints@),
                buffer_cursor as int,
                grammar_enabled,
            ) matches Some(i) && 0 <= i < lints@.len() && issues_view(lints@)[i] == lint@ && can_pick(
                lint@,
                buffer_cursor as int,
                grammar_enabled,
            ),
            None => picked(issues_view(lints@), buffer_cursor as int, grammar_enabled) is None,
        },
{
    let ghost all = issues_view(lints@);
    let ghost c = buffer_cursor as int;
    let mut best: Option<usize> = None;
    let mut i: usize = 0;
    while i < lints.len()
        invariant
            i <= lints@.len(),
            all == issues_view(lints@),
            c == buffer_cursor,
            match best {
                Some(b) => b < i && can_pick(all[b as int], c, grammar_enabled) && forall|j: int|
                    0 <= j < i && can_pick(#[trigger] all[j], c, grammar_enabled)
                        ==> all[j].char_start < all[b as int].char_start || (all[j].char_start
                        == all[b as int].char_start && b <= j),
                None => forall|j: int| 0 <= j < i ==> !can_pick(#[trigger] all[j], c, grammar_enabled),
            },
        decreases lints@.len() - i,
    {
        let lint = &lints[i];
        assert(lint@ == all[i as int]);
        if is_actionable_category(lint.category, grammar_enabled) && lint.suggestions.len() > 0
            && lint.char_start <= buffer_cursor && buffer_cursor <= lint.char_end {
            match best {
                Some(b) => {
                    assert(lints@[b as int]@ == all[b as int]);
                    if lints[b].char_start < lint.char_start {
                        best = Some(i);
                    }
                },
                None => {
                    best = Some(i);
                },
            }
        }
        i += 1;
    }
    match best {
        Some(b) => {
            proof {
                assert(is_picked(all, c, grammar_enabled, b as int));
                let other = choose|k: int| is_picked(all, c, grammar_enabled, k);
                assert(can_pick(all[other], c, grammar_enabled));
                assert(can_pick(all[b as int], c, grammar_enabled));
                assert(other == b as int);
            }
            Some(&lints[b])
        },
        None => None,
    }
}

/// The user types forward at the end of the buffer.
pub open spec fn types_forward(cursor: int, chars: int, buffer_shrank: bool) -> bool {
    cursor >= chars && !buffer_shrank
}

/// Whether the user types forward at the end of the buffer. Tooltip and Tab
/// then stay out of the way: that is where the child wants Tab for its own
/// completion. Moving back into a word or deleting shows the intent to edit.
pub fn typing_forward_at_end(cursor: usize, chars: usize, buffer_shrank: bool) -> (r: bool)
    ensures
        r == types_forward(cursor as int, chars as int, buffer_shrank),
{
    cursor >= chars && !buffer_shrank
}

/// The tokens of one suggestion in the overlay.
pub open spec fn item_tokens(s: Seq<char>, selected: bool, engaged: bool) -> Seq<Token> {
    if selected && engaged {
        seq![
            Token::Style("\x1b[7m"@),
            Token::Text("["@ + s + "]"@),
            Token::Style("\x1b[27m"@),
        ]
    } else if selected {
        seq![Token::Text("["@ + s + "]"@)]
    } else {
        seq![Token::Text(s)]
    }
}

/// The tokens of the first `k` suggestions, with blanks between them.
pub open spec fn items_tokens(
    suggestions: Seq<Seq<char>>,
    selected: int,
    engaged: bool,
    k: int,
) -> Seq<Token>
    decreases k,
{
    if k <= 0 {
        Seq::empty()
    } else {
        items_tokens(suggestions, selected, engaged, k - 1) + (if k > 1 {
            seq![Token::Text(" "@)]
        } else {
            Seq::empty()
        }) + item_tokens(suggestions[k - 1], k - 1 == selected, engaged)
    }
}

/// The key hint of the overlay.
pub open spec fn hint(engaged: bool) -> Seq<char> {
    if engaged {
        "(tab/←→ · enter · esc)"@
    } else {
        "(tab to pick)"@
    }
}

/// What the overlay shows: the suggestions, the selected one marked, and the
/// key hint.
pub open spec fn content_tokens(
    suggestions: Seq<Seq<char>>,
    selected: int,
    engaged: bool,
) -> Seq<Token> {
    seq![Token::Text(" "@)] + items_tokens(
        suggestions,
        selected,
        engaged,
        suggestions.len() as int,
    ) + seq![Token::Text("  "@), Token::Text(hint(engaged)), Token::Text(" "@)]
}

/// How many cells the text of tokens takes.
pub open spec fn tokens_width(tokens: Seq<Token>) -> nat
    decreases tokens.len(),
{
    if tokens.len() == 0 {
        0
    } else {
        tokens_width(tokens.drop_last()) + match tokens.last() {
            Token::Text(s) => s.len(),
            _ => 0,
        }
    }
}

pub proof fn tokens_width_concat(a: Seq<Token>, b: Seq<Token>)
    ensures
        tokens_width(a + b) == tokens_width(a) + tokens_width(b),
    decreases b.len(),
{
    if b.len() == 0 {
        assert(a + b =~= a);
    } else {
        tokens_width_concat(a, b.drop_last());
        assert((a + b).drop_last() =~= a + b.drop_last());
    }
}

/// What the overlay shows: its bytes, and the cells that it takes.
pub struct RenderedContent {
    pub bytes: Vec<u8>,
    pub visible_chars: usize,
}

/// Overlay content under construction.
struct ContentBuilder {
    bytes: Vec<u8>,
    /// The text that the terminal will show, without the styles.
    shown: String,
    tokens: Ghost<Seq<Token>>,
}

impl ContentBuilder {
    spec fn inv(&self) -> bool {
        &&& self.bytes@ == tokens_bytes(self.tokens@)
        &&& self.shown@.len() == tokens_width(self.tokens@)
    }

    fn text(&mut self, s: &str)
        requires
            old(self).inv(),
        ensures
            final(self).inv(),
            final(self).tokens@ == old(self).tokens@.push(Token::Text(s@)),
    {
        push_text(&mut self.bytes, s);
        self.shown.append(s);
        proof {
            let tokens = self.tokens@.push(Token::Text(s@));
            assert(tokens.drop_last() =~= self.tokens@);
            self.tokens@ = tokens;
        }
    }

    fn style(&mut self, s: &str)
        requires
            old(self).inv(),
        ensures
            final(self).inv(),
            final(self).tokens@ == old(self).tokens@.push(Token::Style(s@)),
    {
        push_text(&mut self.bytes, s);
        proof {
            let tokens = self.tokens@.push(Token::Style(s@));
            assert(tokens.drop_last() =~= self.tokens@);
            self.tokens@ = tokens;
        }
    }
}

/// Builds what the overlay shows.
pub fn render_content(suggestions: &[String], selected: usize, engaged: bool) -> (r: RenderedContent)
    ensures
        ({
            let tokens = content_tokens(texts(suggestions@), selected as int, engaged);
            &&& r.bytes@ == tokens_bytes(tokens)
            &&& r.visible_chars == tokens_width(tokens)
        }),
{
    let ghost all = texts(suggestions@);
    let mut b = ContentBuilder {
        bytes: Vec::new(),
        shown: String::new(),
        tokens: Ghost(Seq::empty()),
    };
    b.text(" ");
    let ghost lead = seq![Token::Text(" "@)];
    let mut i: usize = 0;
    proof {
        assert(b.tokens@ =~= lead + items_tokens(all, selected as int, engaged, 0));
    }
    while i < suggestions.len()
        invariant
            i <= suggestions@.len(),
            lead == seq![Token::Text(" "@)],
            all == texts(suggestions@),
            b.inv(),
            b.tokens@ == lead + items_tokens(all, selected as int, engaged, i as int),
        decreases suggestions@.len() - i,
    {
        if i > 0 {
            b.text(" ");
        }
        let s = suggestions[i].as_str();
        assert(all[i as int] == s@);
        if i == selected {
            let mut marked = String::new();
            marked.append("[");
            marked.append(s);
            marked.append("]");
            proof {
                assert(marked@ =~= "["@ + s@ + "]"@);
            }
            if engaged {
                b.style("\x1b[7m");
                b.text(marked.as_str());
                b.style("\x1b[27m");
            } else {
                b.text(marked.as_str());
            }
        } else {
            b.text(s);
        }
        i += 1;
        proof {
            assert(b.tokens@ =~= lead + items_tokens(all, selected as int, engaged, i as int));
        }
    }
    b.text("  ");
    if engaged {
        b.text("(tab/←→ · enter · esc)");
    } else {
        b.text("(tab to pick)");
    }
    b.text(" ");
    proof {
        assert(b.tokens@ =~= content_tokens(all, selected as int, engaged));
    }
    RenderedContent { visible_chars: b.shown.as_str().unicode_len(), bytes: b.bytes }
}

/// Whether a column of a row is covered by a region.
pub open spec fn covers(region: Option<OverlayRegion>, row: int, col: int) -> bool {
    region matches Some(k) && k.row == row && k.col_start <= col < k.col_end
}

/// First column from `col` on that a region covers, or `to`.
pub open spec fn uncovered_end(keep: Option<OverlayRegion>, row: int, col: int, to: int) -> int
    decreases to - col,
{
    if col < to && !covers(keep, row, col) {
        uncovered_end(keep, row, col + 1, to)
    } else {
        col
    }
}

/// What the screen shows in a cell; a blank where nothing is known.
pub open spec fn shown(grid: Map<u32, Cell>, row: int, col: int) -> char {
    match glyph(grid, row, col) {
        Some(c) => c,
        None => ' ',
    }
}

/// The strokes that give the cells `col..to` of a row back to the child, but
/// for those that `keep` covers.
pub open spec fn restore_strokes(
    grid: Map<u32, Cell>,
    row: int,
    col: int,
    to: int,
    keep: Option<OverlayRegion>,
) -> Seq<Stroke>
    decreases to - col,
{
    let end = uncovered_end(keep, row, col, to);
    if col >= to {
        Seq::empty()
    } else if covers(keep, row, col) {
        if keep->0.col_end >= to {
            Seq::empty()
        } else {
            restore_strokes(grid, row, keep->0.col_end as int, to, keep)
        }
    } else if end <= col || end > to {
        Seq::empty()
    } else {
        seq![
            Stroke {
                row,
                col,
                open: "\x1b[m"@,
                text: Seq::new((end - col) as nat, |i: int| shown(grid, row, col + i)),
                close: Seq::empty(),
                end_col: end,
            },
        ] + restore_strokes(grid, row, end, to, keep)
    }
}

/// The strokes that give a region back to the child.
pub open spec fn region_strokes(
    grid: Map<u32, Cell>,
    region: OverlayRegion,
    keep: Option<OverlayRegion>,
) -> Seq<Stroke> {
    restore_strokes(
        grid,
        region.row as int,
        region.col_start as int,
        region.col_end as int,
        keep,
    )
}

/// The bytes that give a region back to the child.
pub open spec fn restore_bytes(
    region: Option<OverlayRegion>,
    m: EchoModel,
    screen: ScreenState,
) -> Seq<u8> {
    match region {
        Some(r) => tokens_bytes(
            drawn_from(screen.cols as int, home(screen), region_strokes(m.grid, r, None)),
        ),
        None => Seq::empty(),
    }
}

fn cursor_home(screen: &ScreenState) -> (r: CursorPos)
    ensures
        pos(r) == home(*screen),
{
    let row_max: u16 = screen.rows.saturating_sub(1);
    let col_max: u16 = screen.cols.saturating_sub(1);
    CursorPos {
        row: if screen.cursor.row < row_max { screen.cursor.row } else { row_max },
        col: if screen.cursor.col < col_max { screen.cursor.col } else { col_max },
    }
}

fn is_covered(keep: Option<OverlayRegion>, row: u16, col: u16) -> (r: bool)
    ensures
        r == covers(keep, row as int, col as int),
{
    match keep {
        Some(k) => k.row == row && k.col_start <= col && col < k.col_end,
        None => false,
    }
}

/// Gives a region back to the child from the grid, with all styles reset.
/// Returns the pen, and whether anything was written.
fn restore_cells_into(
    out: &mut Vec<u8>,
    pen0: CursorPos,
    region: OverlayRegion,
    matcher: &EchoMatcher,
    keep: Option<OverlayRegion>,
    cols: u16,
    Ghost(home): Ghost<Pos>,
) -> (r: (CursorPos, bool))
    requires
        old(out)@ == tokens_bytes(drawn(cols as int, home, Seq::empty())),
        pos(pen0) == home,
    ensures
        ({
            let strokes = region_strokes(matcher@.grid, region, keep);
            &&& final(out)@ == tokens_bytes(drawn(cols as int, home, strokes))
            &&& pos(r.0) == pen_after(cols as int, home, strokes)
            &&& r.1 == (strokes.len() > 0)
        }),
{
    let ghost g = matcher@.grid;
    let ghost row = region.row as int;
    let ghost to = region.col_end as int;
    let ghost whole = region_strokes(g, region, keep);
    let ghost mut done = Seq::<Stroke>::empty();
    let mut pen = pen0;
    let mut wrote = false;
    let mut col: u16 = region.col_start;
    proof {
        assert(done + restore_strokes(g, row, col as int, to, keep) =~= whole);
    }
    while col < region.col_end
        invariant
            g == matcher@.grid,
            row == region.row,
            to == region.col_end,
            out@ == tokens_bytes(drawn(cols as int, home, done)),
            pos(pen) == pen_after(cols as int, home, done),
            wrote == (done.len() > 0),
            done + restore_strokes(g, row, col as int, to, keep) == whole,
        decreases region.col_end - col,
    {
        if is_covered(keep, region.row, col) {
            if let Some(k) = keep {
                if k.col_end >= region.col_end {
                    proof {
                        assert(restore_strokes(g, row, region.col_end as int, to, keep)
                            =~= Seq::<Stroke>::empty());
                    }
                    col = region.col_end;
                } else {
                    col = k.col_end;
                }
            }
        } else {
            let run_start: u16 = col;
            let mut text = String::new();
            while col < region.col_end && !is_covered(keep, region.row, col)
                invariant
                    g == matcher@.grid,
                    row == region.row,
                    to == region.col_end,
                    run_start <= col <= region.col_end,
                    uncovered_end(keep, row, run_start as int, to) == uncovered_end(
                        keep,
                        row,
                        col as int,
                        to,
                    ),
                    text@ == Seq::new(
                        (col - run_start) as nat,
                        |i: int| shown(g, row, run_start + i),
                    ),
                decreases region.col_end - col,
            {
                let ch = match matcher.cell_at(region.row, col) {
                    Some(c) => c,
                    None => ' ',
                };
                text.push(ch);
                col += 1;
                proof {
                    assert(text@ =~= Seq::new(
                        (col - run_start) as nat,
                        |i: int| shown(g, row, run_start + i),
                    ));
                }
            }
            let at = CursorPos { row: region.row, col: run_start };
            crate::ansi::draw(
                out,
                cols,
                pen,
                at,
                "\x1b[m",
                text.as_str(),
                "",
                Ghost(done),
                Ghost(home),
                Ghost(col as int),
            );
            pen = rest_at(region.row, col, cols);
            wrote = true;
            proof {
                reveal_strlit("");
                assert(""@ =~= Seq::<char>::empty());
                let stroke = Stroke {
                    row,
                    col: run_start as int,
                    open: "\x1b[m"@,
                    text: text@,
                    close: Seq::empty(),
                    end_col: col as int,
                };
                assert(restore_strokes(g, row, run_start as int, to, keep) =~= seq![stroke]
                    + restore_strokes(g, row, col as int, to, keep));
                done = done.push(stroke);
                assert(done + restore_strokes(g, row, col as int, to, keep) =~= whole);
            }
        }
    }
    proof {
        assert(done =~= whole);
    }
    (pen, wrote)
}

/// The bytes that give a region back to the child when the picker goes.
pub fn build_restore(
    region: Option<OverlayRegion>,
    matcher: &EchoMatcher,
    screen: &ScreenState,
) -> (r: Vec<u8>)
    ensures
        r@ == restore_bytes(region, matcher@, *screen),
{
    let region = match region {
        Some(region) => region,
        None => return Vec::new(),
    };
    let cur = cursor_home(screen);
    let mut out: Vec<u8> = Vec::new();
    proof {
        assert(out@ =~= tokens_bytes(drawn(screen.cols as int, home(*screen), Seq::empty())));
    }
    let (pen, wrote) = restore_cells_into(
        &mut out,
        cur,
        region,
        matcher,
        None,
        screen.cols,
        Ghost(home(*screen)),
    );
    finish(
        &mut out,
        screen.cols,
        pen,
        cur,
        wrote,
        Ghost(region_strokes(matcher@.grid, region, None)),
    );
    out
}

/// Whether an issue has this word, and the cursor is on it where it has to be.
pub open spec fn is_word_here(lint: IssueView, word: Seq<char>, cursor: Option<int>) -> bool {
    &&& lint.word == word
    &&& cursor matches Some(c) ==> lint.char_start <= c <= lint.char_end
}

/// Index of the first issue with this word, or -1. With a cursor, only issues
/// count that it is on.
pub open spec fn first_with_word(lints: Seq<IssueView>, word: Seq<char>, cursor: Option<int>) -> int
    decreases lints.len(),
{
    if lints.len() == 0 {
        -1
    } else {
        let before = first_with_word(lints.drop_last(), word, cursor);
        if before >= 0 {
            before
        } else if is_word_here(lints.last(), word, cursor) {
            lints.len() - 1
        } else {
            -1
        }
    }
}

/// The range that the overlay belongs to: its own where it is known, else that
/// of the issue with the word that the cursor is on, else that of the first
/// issue with the word, else that of the first issue, else the length of the
/// word.
pub open spec fn target_range(t: TargetView, lints: Seq<IssueView>, cursor: int) -> (int, int) {
    let here = first_with_word(lints, t.word, Some(cursor));
    let i = first_with_word(lints, t.word, None);
    match t.range {
        Some(range) => range,
        None => if here >= 0 {
            (lints[here].char_start, lints[here].char_end)
        } else if i >= 0 {
            (lints[i].char_start, lints[i].char_end)
        } else if lints.len() > 0 {
            (lints[0].char_start, lints[0].char_end)
        } else {
            (0, t.word.len() as int)
        },
    }
}

/// How wide the overlay is.
pub open spec fn content_width(t: TargetView) -> int {
    tokens_width(content_tokens(t.suggestions, t.selected, t.engaged)) as int
}

/// Where the overlay goes: right of the word with a blank between, else above
/// the start of the word. None where there is nothing to show, the screen does
/// not show the buffer, the word is not on the anchor line, or neither place
/// has room.
pub open spec fn placement(t: TargetView, m: EchoModel, screen: ScreenState) -> Option<
    OverlayRegion,
> {
    let range = target_range(t, m.lints, m.buffer_cursor as int);
    let offset = crate::echo::anchor_start(m.buffer_text);
    let width = content_width(t);
    match m.anchor(screen.cols) {
        Some(at) => {
            let word_start = at.col + (range.0 - offset);
            let inline = at.col + crate::screen::at_least_zero(range.1 - offset) + 1;
            if t.suggestions.len() == 0 || range.0 < offset {
                None
            } else if inline + width <= screen.cols && at.row < screen.rows {
                Some(
                    OverlayRegion {
                        row: at.row,
                        col_start: inline as u16,
                        col_end: (inline + width) as u16,
                    },
                )
            } else if at.row > 0 && word_start + width <= screen.cols {
                Some(
                    OverlayRegion {
                        row: (at.row - 1) as u16,
                        col_start: word_start as u16,
                        col_end: (word_start + width) as u16,
                    },
                )
            } else {
                None
            }
        },
        None => None,
    }
}

/// What is given back to the child when the overlay goes to a region.
pub open spec fn freed_strokes(
    m: EchoModel,
    prior: Option<OverlayRegion>,
    region: OverlayRegion,
) -> Seq<Stroke> {
    match prior {
        Some(p) => if p == region {
            Seq::empty()
        } else {
            region_strokes(m.grid, p, Some(region))
        },
        None => Seq::empty(),
    }
}

/// The overlay itself, with the pen at `pen` before and at `back` after.
pub open spec fn overlay_body(
    t: TargetView,
    cols: int,
    region: OverlayRegion,
    pen: Pos,
    back: Pos,
) -> Seq<Token> {
    let row = region.row as int;
    approach_tokens(cols, pen, Pos { row, col: region.col_start as int }) + seq![
        Token::Style("\x1b[2;36m"@),
    ] + content_tokens(t.suggestions, t.selected, t.engaged) + seq![Token::Style("\x1b[0m"@)]
        + approach_tokens(
        cols,
        Pos { row, col: resting_col(region.col_end as int, cols) },
        back,
    )
}

/// The tokens that draw the overlay at a region.
pub open spec fn overlay_tokens(
    t: TargetView,
    m: EchoModel,
    screen: ScreenState,
    prior: Option<OverlayRegion>,
    region: OverlayRegion,
) -> Seq<Token> {
    let cols = screen.cols as int;
    let strokes = freed_strokes(m, prior, region);
    drawn(cols, home(screen), strokes) + overlay_body(
        t,
        cols,
        region,
        pen_after(cols, home(screen), strokes),
        home(screen),
    )
}

/// The bytes that draw the overlay, or that take away the last one where
/// there is no place for it.
pub open spec fn overlay_bytes(
    t: TargetView,
    m: EchoModel,
    screen: ScreenState,
    prior: Option<OverlayRegion>,
) -> Seq<u8> {
    match placement(t, m, screen) {
        Some(region) => tokens_bytes(overlay_tokens(t, m, screen, prior, region)),
        None => restore_bytes(prior, m, screen),
    }
}

/// Finds the first issue with a word; with a cursor, the first that it is on.
fn find_word(lints: &[SpellIssue], word: &str, cursor: Option<usize>) -> (r: Option<usize>)
    ensures
        ({
            let c = match cursor {
                Some(c) => Some(c as int),
                None => None,
            };
            let i = first_with_word(issues_view(lints@), word@, c);
            match r {
                Some(k) => k == i && k < lints@.len(),
                None => i == -1,
            }
        }),
{
    let ghost all = issues_view(lints@);
    let ghost c: Option<int> = match cursor {
        Some(c) => Some(c as int),
        None => None,
    };
    let mut i: usize = 0;
    proof {
        assert(all.take(0) =~= Seq::<IssueView>::empty());
    }
    while i < lints.len()
        invariant
            i <= lints@.len(),
            all == issues_view(lints@),
            c == match cursor {
                Some(c) => Some(c as int),
                None => None,
            },
            first_with_word(all.take(i as int), word@, c) == -1,
        decreases lints@.len() - i,
    {
        proof {
            assert(all.take(i + 1).drop_last() =~= all.take(i as int));
            assert(all.take(i + 1).last() == lints@[i as int]@);
        }
        let here = match cursor {
            Some(c) => lints[i].char_start <= c && c <= lints[i].char_end,
            None => true,
        };
        if here && same_text(lints[i].word.as_str(), word) {
            proof {
                first_with_word_prefix(all, i + 1, word@, c);
            }
            return Some(i);
        }
        i += 1;
    }
    proof {
        assert(all.take(i as int) =~= all);
    }
    None
}

proof fn first_with_word_prefix(
    lints: Seq<IssueView>,
    k: int,
    word: Seq<char>,
    cursor: Option<int>,
)
    requires
        0 <= k <= lints.len(),
        first_with_word(lints.take(k), word, cursor) >= 0,
    ensures
        first_with_word(lints, word, cursor) == first_with_word(lints.take(k), word, cursor),
    decreases lints.len() - k,
{
    if k == lints.len() {
        assert(lints.take(k) =~= lints);
    } else {
        assert(lints.take(k + 1).drop_last() =~= lints.take(k));
        first_with_word_prefix(lints, k + 1, word, cursor);
    }
}

fn find_target(target: &RenderTarget<'_>, lints: &[SpellIssue], cursor: usize) -> (r: (
    usize,
    usize,
))
    ensures
        target_range(target@, issues_view(lints@), cursor as int) == (r.0 as int, r.1 as int),
{
    let word: &str = match target {
        RenderTarget::Engaged(snap) => snap.target.as_str(),
        RenderTarget::Hover(lint) => return (lint.char_start, lint.char_end),
    };
    let found = match find_word(lints, word, Some(cursor)) {
        Some(i) => Some(i),
        None => find_word(lints, word, None),
    };
    if let Some(i) = found {
        assert(issues_view(lints@)[i as int] == lints@[i as int]@);
        (lints[i].char_start, lints[i].char_end)
    } else if lints.len() > 0 {
        assert(issues_view(lints@)[0] == lints@[0]@);
        (lints[0].char_start, lints[0].char_end)
    } else {
        (0, word.unicode_len())
    }
}

/// Finds a place for the overlay.
fn place(
    target: &RenderTarget<'_>,
    width: usize,
    matcher: &EchoMatcher,
    screen: &ScreenState,
) -> (r: Option<OverlayRegion>)
    requires
        target@.suggestions.len() > 0,
        width == content_width(target@),
    ensures
        r == placement(target@, matcher@, *screen),
{
    let at = match matcher.find_input_anchor(screen.cols) {
        Some(at) => at,
        None => return None,
    };
    let (start, end) = find_target(target, matcher.lints(), matcher.buffer_cursor());
    let offset: usize = matcher.last_line_char_offset();
    if start < offset {
        return None;
    }
    let local_end: usize = if end < offset { 0 } else { end - offset };
    let wide: u128 = width as u128;
    let word_start: u128 = at.col as u128 + (start - offset) as u128;
    let inline: u128 = at.col as u128 + local_end as u128 + 1;
    let cols: u128 = screen.cols as u128;
    if inline + wide <= cols && at.row < screen.rows {
        Some(
            OverlayRegion {
                row: at.row,
                col_start: inline as u16,
                col_end: (inline + wide) as u16,
            },
        )
    } else if at.row > 0 && word_start + wide <= cols {
        Some(
            OverlayRegion {
                row: at.row - 1,
                col_start: word_start as u16,
                col_end: (word_start + wide) as u16,
            },
        )
    } else {
        None
    }
}

/// Builds the bytes that draw the overlay and give back to the child what the
/// last one covered beyond it, and says where the overlay is now. Where it
/// cannot be drawn, the bytes take the last one away.
pub fn build_overlay(
    target: &RenderTarget<'_>,
    matcher: &EchoMatcher,
    screen: &ScreenState,
    prior_region: Option<OverlayRegion>,
) -> (r: (Vec<u8>, Option<OverlayRegion>))
    ensures
        r.0@ == overlay_bytes(target@, matcher@, *screen, prior_region),
        r.1 == placement(target@, matcher@, *screen),
{
    let ghost t = target@;
    let ghost m = matcher@;
    let (suggestions, selected, engaged): (&[String], usize, bool) = match target {
        RenderTarget::Engaged(snap) => (snap.suggestions.as_slice(), snap.selected, true),
        RenderTarget::Hover(lint) => (lint.suggestions.as_slice(), 0, false),
    };
    assert(t.suggestions == texts(suggestions@));
    if suggestions.len() == 0 {
        return (build_restore(prior_region, matcher, screen), None);
    }
    let content = render_content(suggestions, selected, engaged);
    let region = match place(target, content.visible_chars, matcher, screen) {
        Some(region) => region,
        None => return (build_restore(prior_region, matcher, screen), None),
    };
    let cur = cursor_home(screen);
    let ghost start = home(*screen);
    let mut out: Vec<u8> = Vec::new();
    let mut pen = cur;
    let ghost strokes = freed_strokes(m, prior_region, region);
    proof {
        assert(out@ =~= tokens_bytes(drawn(screen.cols as int, start, Seq::empty())));
    }
    if let Some(prev) = prior_region {
        let same = prev.row == region.row && prev.col_start == region.col_start && prev.col_end
            == region.col_end;
        if !same {
            let (p, _) = restore_cells_into(
                &mut out,
                pen,
                prev,
                matcher,
                Some(region),
                screen.cols,
                Ghost(start),
            );
            pen = p;
        }
    }
    assert(out@ == tokens_bytes(drawn(screen.cols as int, start, strokes)));
    assert(pos(pen) == pen_after(screen.cols as int, start, strokes));
    let ghost before = out@;
    let ghost from = pos(pen);
    let at = CursorPos { row: region.row, col: region.col_start };
    approach(&mut out, screen.cols, pen, at);
    push_text(&mut out, "\x1b[2;36m");
    let mut bytes = content.bytes;
    let ghost shown_bytes = bytes@;
    out.append(&mut bytes);
    push_text(&mut out, "\x1b[0m");
    approach(&mut out, screen.cols, rest_at(region.row, region.col_end, screen.cols), cur);
    proof {
        let cols = screen.cols as int;
        let row = region.row as int;
        let a = approach_tokens(cols, from, Pos { row, col: region.col_start as int });
        let b = seq![Token::Style("\x1b[2;36m"@)];
        let c = content_tokens(t.suggestions, t.selected, t.engaged);
        let d = seq![Token::Style("\x1b[0m"@)];
        let end = Pos { row, col: resting_col(region.col_end as int, cols) };
        let e = approach_tokens(cols, end, start);
        tokens_bytes_one(Token::Style("\x1b[2;36m"@));
        tokens_bytes_one(Token::Style("\x1b[0m"@));
        tokens_bytes_concat(a, b);
        tokens_bytes_concat(a + b, c);
        tokens_bytes_concat(a + b + c, d);
        tokens_bytes_concat(a + b + c + d, e);
        tokens_bytes_concat(drawn(cols, start, strokes), a + b + c + d + e);
        assert(overlay_body(t, cols, region, from, start) == a + b + c + d + e);
        assert(out@ =~= before + (tokens_bytes(a) + tokens_bytes(b) + tokens_bytes(c)
            + tokens_bytes(d) + tokens_bytes(e)));
    }
    (out, Some(region))
}

impl OverlayModel {
    /// The bytes of the overlay under given settings.
    pub open spec fn bytes(self, m: EchoModel, screen: ScreenState, settings: Settings) -> Seq<u8> {
        match self.target(m.lints) {
            Some(t) => if settings.picker {
                overlay_bytes(t, m, screen, self.region)
            } else {
                restore_bytes(self.region, m, screen)
            },
            None => restore_bytes(self.region, m, screen),
        }
    }

    /// The state after the overlay was drawn under given settings.
    pub open spec fn drawn(self, m: EchoModel, screen: ScreenState, settings: Settings) -> OverlayModel {
        OverlayModel {
            region: match self.target(m.lints) {
                Some(t) => if settings.picker {
                    placement(t, m, screen)
                } else {
                    None
                },
                None => None,
            },
            ..self
        }
    }

    /// The state after the hover was evaluated.
    pub open spec fn hover_checked(
        self,
        m: EchoModel,
        now: Instant,
        window: Duration,
        settings: Settings,
    ) -> OverlayModel {
        OverlayModel {
            hover_lint: match self.hover_target(m, now, window, settings) {
                Some(i) => Some(i as usize),
                None => None,
            },
            ..self
        }
    }
}

/// The bytes of the overlay as it should be now. With the picker off, or with
/// nothing to show, they take the last overlay away.
pub fn paint_overlay(
    gate: &mut OverlayGate,
    matcher: &EchoMatcher,
    screen: &ScreenState,
    settings: &Settings,
) -> (r: Vec<u8>)
    ensures
        r@ == old(gate)@.bytes(matcher@, *screen, *settings),
        final(gate)@ == old(gate)@.drawn(matcher@, *screen, *settings),
{
    let (bytes, region) = if !settings.picker {
        (build_restore(gate.region, matcher, screen), None)
    } else {
        match gate.snapshot_to_render(matcher.lints()) {
            Some(target) => build_overlay(&target, matcher, screen, gate.region),
            None => (build_restore(gate.region, matcher, screen), None),
        }
    };
    gate.region = region;
    bytes
}

/// Decides which issue the tooltip is shown for, and says whether that
/// changed. There is none while the picker is off or engaged, while the user
/// types forward at the end of the buffer, and until the cursor has rested for
/// the hover window.
pub fn check_hover(
    gate: &mut OverlayGate,
    matcher: &EchoMatcher,
    now: Instant,
    hover_window: Duration,
    settings: &Settings,
) -> (r: bool)
    ensures
        final(gate)@ == old(gate)@.hover_checked(matcher@, now, hover_window, *settings),
        r == (final(gate)@.hover_lint != old(gate)@.hover_lint),
{
    let quiet = !settings.picker || gate.engaged_snapshot.is_some() || typing_forward_at_end(
        matcher.buffer_cursor(),
        matcher.buffer_chars(),
        gate.buffer_shrank,
    ) || !match gate.cursor_changed_at {
        Some(t) => now.duration_since(t).nanos >= hover_window.nanos,
        None => false,
    };
    let next: Option<usize> = if quiet {
        None
    } else {
        matcher.lint_at_cursor(settings.grammar)
    };
    let same = match (next, gate.hover_lint) {
        (Some(a), Some(b)) => a == b,
        (None, None) => true,
        _ => false,
    };
    gate.hover_lint = next;
    !same
}

/// The selection always names a suggestion, and moving it there and back, or
/// once around, changes nothing.
pub proof fn selection_moves_in_a_circle(e: EngagedView, delta: int)
    requires
        e.wf(),
    ensures
        e.moved(delta).wf(),
        e.moved(delta).moved(-delta) == e,
        e.moved(e.suggestions.len() as int) == e,
        e.selected == e.suggestions.len() - 1 ==> e.moved(1).selected == 0,
        e.selected == 0 ==> e.moved(-1).selected == e.suggestions.len() - 1,
{
    let n = e.suggestions.len() as int;
    let a = e.selected + delta;
    vstd::arithmetic::div_mod::lemma_mod_bound(a, n);
    vstd::arithmetic::div_mod::lemma_add_mod_noop(a, -delta, n);
    vstd::arithmetic::div_mod::lemma_add_mod_noop(a % n, -delta, n);
    vstd::arithmetic::div_mod::lemma_mod_twice(a, n);
    vstd::arithmetic::div_mod::lemma_small_mod(e.selected as nat, n as nat);
    vstd::arithmetic::div_mod::lemma_mod_add_multiples_vanish(e.selected, n);
    if e.selected == n - 1 {
        vstd::arithmetic::div_mod::lemma_mod_self_0(n);
    }
    if e.selected == 0 {
        vstd::arithmetic::div_mod::lemma_mod_add_multiples_vanish(-1, n);
        vstd::arithmetic::div_mod::lemma_small_mod((n - 1) as nat, n as nat);
    }
}

/// Tab engages exactly where the tooltip is shown or would be after the hover
/// window, and for the same issue, as long as every shown issue has
/// suggestions.
pub proof fn tab_engages_where_tooltip_shows(lints: Seq<IssueView>, cursor: int, grammar: bool)
    requires
        forall|i: int|
            0 <= i < lints.len() && crate::spell::actionable(
                (#[trigger] lints[i]).category,
                grammar,
            ) ==> lints[i].suggestions.len() > 0,
    ensures
        picked(lints, cursor, grammar) == hovered(lints, cursor, grammar),
{
    assert forall|i: int| 0 <= i < lints.len() implies can_pick(
        #[trigger] lints[i],
        cursor,
        grammar,
    ) == is_on(lints[i], cursor, grammar) by {}
    assert forall|i: int|
        is_picked(lints, cursor, grammar, i) == is_hovered(lints, cursor, grammar, i) by {
        if is_hovered(lints, cursor, grammar, i) {
            assert(can_pick(lints[i], cursor, grammar));
        }
        if is_picked(lints, cursor, grammar, i) {
            assert(is_on(lints[i], cursor, grammar));
        }
    }
    if exists|i: int| is_picked(lints, cursor, grammar, i) {
        let a = choose|i: int| is_picked(lints, cursor, grammar, i);
        let b = choose|i: int| is_hovered(lints, cursor, grammar, i);
        assert(is_hovered(lints, cursor, grammar, a));
        assert(is_picked(lints, cursor, grammar, b));
        assert(can_pick(lints[a], cursor, grammar) && can_pick(lints[b], cursor, grammar));
    }
}

proof fn uncovered_end_props(keep: Option<OverlayRegion>, row: int, col: int, to: int)
    requires
        col <= to,
    ensures
        col <= uncovered_end(keep, row, col, to) <= to,
        forall|c: int|
            col <= c < uncovered_end(keep, row, col, to) ==> !#[trigger] covers(keep, row, c),
        col < to && !covers(keep, row, col) ==> uncovered_end(keep, row, col, to) > col,
    decreases to - col,
{
    if col < to && !covers(keep, row, col) {
        uncovered_end_props(keep, row, col + 1, to);
    }
}

/// When the overlay goes, every cell that it covered, and that nothing new
/// covers, is rewritten with what the child shows there.
pub proof fn covered_cells_are_given_back(
    grid: Map<u32, Cell>,
    row: int,
    col: int,
    to: int,
    keep: Option<OverlayRegion>,
    c: int,
)
    requires
        col <= c < to,
        !covers(keep, row, c),
    ensures
        exists|i: int|
            0 <= i < restore_strokes(grid, row, col, to, keep).len() && crate::paint::rewrites(
                #[trigger] restore_strokes(grid, row, col, to, keep)[i],
                row,
                c,
                shown(grid, row, c),
            ),
    decreases to - col,
{
    let strokes = restore_strokes(grid, row, col, to, keep);
    if covers(keep, row, col) {
        let k = keep->0;
        assert(c >= k.col_end);
        covered_cells_are_given_back(grid, row, k.col_end as int, to, keep, c);
    } else {
        let end = uncovered_end(keep, row, col, to);
        uncovered_end_props(keep, row, col, to);
        if c < end {
            assert(crate::paint::rewrites(strokes[0], row, c, shown(grid, row, c)));
        } else {
            covered_cells_are_given_back(grid, row, end, to, keep, c);
            let rest = restore_strokes(grid, row, end, to, keep);
            let i = choose|i: int|
                0 <= i < rest.len() && crate::paint::rewrites(
                    #[trigger] rest[i],
                    row,
                    c,
                    shown(grid, row, c),
                );
            assert(strokes[i + 1] == rest[i]);
        }
    }
}

/// Whether tokens move nothing: they are texts and styles.
pub open spec fn is_text_only(tokens: Seq<Token>) -> bool {
    forall|i: int|
        0 <= i < tokens.len() ==> (#[trigger] tokens[i]) is Text || tokens[i] is Style
}

proof fn text_only_prints(s: ScreenState, tokens: Seq<Token>)
    requires
        is_text_only(tokens),
    ensures
        run_all(s, tokens) == crate::ansi::printed(s, tokens_width(tokens)),
    decreases tokens.len(),
{
    if tokens.len() > 0 {
        let rest = tokens.drop_last();
        assert forall|i: int| 0 <= i < rest.len() implies (#[trigger] rest[i]) is Text
            || rest[i] is Style by {
            assert(rest[i] == tokens[i]);
        }
        text_only_prints(s, rest);
        let last = tokens[tokens.len() - 1];
        assert(last is Text || last is Style);
        if let Token::Text(text) = last {
            crate::ansi::printed_twice(s, tokens_width(rest), text.len());
        }
    }
}

proof fn items_are_text_only(suggestions: Seq<Seq<char>>, selected: int, engaged: bool, k: int)
    ensures
        is_text_only(items_tokens(suggestions, selected, engaged, k)),
    decreases k,
{
    if k > 0 {
        items_are_text_only(suggestions, selected, engaged, k - 1);
        let before = items_tokens(suggestions, selected, engaged, k - 1);
        let all = items_tokens(suggestions, selected, engaged, k);
        assert forall|i: int| 0 <= i < all.len() implies (#[trigger] all[i]) is Text
            || all[i] is Style by {
            if i < before.len() {
                assert(all[i] == before[i]);
            }
        }
    }
}

proof fn restore_strokes_fit(
    grid: Map<u32, Cell>,
    row: int,
    col: int,
    to: int,
    keep: Option<OverlayRegion>,
    rows: int,
    cols: int,
)
    requires
        0 <= row < rows,
        0 <= col,
        to <= cols,
    ensures
        forall|i: int|
            0 <= i < restore_strokes(grid, row, col, to, keep).len() ==> stroke_fits(
                #[trigger] restore_strokes(grid, row, col, to, keep)[i],
                rows,
                cols,
            ),
    decreases to - col,
{
    let strokes = restore_strokes(grid, row, col, to, keep);
    let end = uncovered_end(keep, row, col, to);
    if col < to {
        if covers(keep, row, col) {
            if keep->0.col_end < to {
                let next = keep->0.col_end as int;
                restore_strokes_fit(grid, row, next, to, keep, rows, cols);
                assert(strokes == restore_strokes(grid, row, next, to, keep));
            }
        } else if col < end <= to {
            restore_strokes_fit(grid, row, end, to, keep, rows, cols);
            let rest = restore_strokes(grid, row, end, to, keep);
            assert forall|i: int| 0 <= i < strokes.len() implies stroke_fits(
                #[trigger] strokes[i],
                rows,
                cols,
            ) by {
                if i > 0 {
                    assert(strokes[i] == rest[i - 1]);
                } else {
                    assert(strokes[i].text.len() == end - col);
                }
            }
        }
    }
}

/// The overlay leaves the child's cursor where it was, and no wrap pending, as
/// long as the cursor, the overlay and what it gives back are on the screen.
pub proof fn overlay_restores_cursor(
    t: TargetView,
    m: EchoModel,
    screen: ScreenState,
    prior: Option<OverlayRegion>,
    region: OverlayRegion,
)
    requires
        screen.wf(),
        screen.cursor_on_screen(),
        prior matches Some(p) ==> p.row < screen.rows && p.col_end <= screen.cols,
        placement(t, m, screen) == Some(region),
        region.row < screen.rows,
    ensures
        ({
            let after = run_all(screen, overlay_tokens(t, m, screen, prior, region));
            &&& same_screen_at(screen, after, pos(screen.cursor))
            &&& !after.pending_wrap
        }),
{
    let cols = screen.cols as int;
    let start = home(screen);
    let strokes = freed_strokes(m, prior, region);
    let pen = pen_after(cols, start, strokes);
    let row = region.row as int;
    let target = Pos { row, col: region.col_start as int };
    let end = Pos { row, col: resting_col(region.col_end as int, cols) };
    let a = approach_tokens(cols, pen, target);
    let b = seq![Token::Style("\x1b[2;36m"@)];
    let c = content_tokens(t.suggestions, t.selected, t.engaged);
    let d = seq![Token::Style("\x1b[0m"@)];
    let e = approach_tokens(cols, end, start);
    let body = b + c + d;
    assert(start == pos(screen.cursor));
    body_prints(t, body);
    if let Some(p) = prior {
        restore_strokes_fit(
            m.grid,
            p.row as int,
            p.col_start as int,
            p.col_end as int,
            Some(region),
            screen.rows as int,
            cols,
        );
    }
    crate::ansi::drawn_reaches_pen(screen, strokes);
    let s0 = run_all(screen, drawn(cols, start, strokes));
    run_all_concat(screen, drawn(cols, start, strokes), a + b + c + d + e);
    run_all_concat(s0, a + b + c + d, e);
    run_all_concat(s0, a, body);
    assert(a + b + c + d =~= a + body);
    crate::ansi::approach_reaches_target(s0, target);
    let s1 = run_all(s0, a);
    text_only_prints(s1, body);
    crate::ansi::text_advances(s1, tokens_width(body));
    let s2 = run_all(s1, body);
    crate::ansi::approach_reaches_target(s2, start);
}

/// Taking the overlay away leaves the child's cursor where it was, and no wrap
/// pending that was not before, as long as the cursor and the overlay are on
/// the screen.
pub proof fn removal_restores_cursor(m: EchoModel, screen: ScreenState, region: OverlayRegion)
    requires
        screen.wf(),
        screen.cursor_on_screen(),
        region.row < screen.rows,
        region.col_end <= screen.cols,
    ensures
        ({
            let strokes = region_strokes(m.grid, region, None);
            let after = run_all(screen, drawn_from(screen.cols as int, home(screen), strokes));
            &&& same_screen_at(screen, after, pos(screen.cursor))
            &&& after.pending_wrap ==> screen.pending_wrap
        }),
{
    restore_strokes_fit(
        m.grid,
        region.row as int,
        region.col_start as int,
        region.col_end as int,
        None,
        screen.rows as int,
        screen.cols as int,
    );
    assert(home(screen) == pos(screen.cursor));
    crate::ansi::drawing_restores_cursor(screen, region_strokes(m.grid, region, None));
}

/// What the overlay writes moves the cursor as far as its text is wide.
proof fn body_prints(t: TargetView, body: Seq<Token>)
    requires
        body == seq![Token::Style("\x1b[2;36m"@)] + content_tokens(
            t.suggestions,
            t.selected,
            t.engaged,
        ) + seq![Token::Style("\x1b[0m"@)],
    ensures
        is_text_only(body),
        tokens_width(body) == content_width(t),
        content_width(t) > 0,
{
    let b = seq![Token::Style("\x1b[2;36m"@)];
    let c = content_tokens(t.suggestions, t.selected, t.engaged);
    let d = seq![Token::Style("\x1b[0m"@)];
    items_are_text_only(t.suggestions, t.selected, t.engaged, t.suggestions.len() as int);
    let items = items_tokens(t.suggestions, t.selected, t.engaged, t.suggestions.len() as int);
    assert forall|i: int| 0 <= i < body.len() implies (#[trigger] body[i]) is Text
        || body[i] is Style by {
        if 2 <= i < 2 + items.len() {
            assert(body[i] == items[i - 2]);
        }
    }
    tokens_width_concat(b, c);
    tokens_width_concat(b + c, d);
    assert(b.drop_last() =~= Seq::<Token>::empty());
    assert(d.drop_last() =~= Seq::<Token>::empty());
    assert(tokens_width(b.drop_last()) == 0);
    assert(tokens_width(d.drop_last()) == 0);
    reveal_strlit(" ");
    assert(c.last() == Token::Text(" "@));
}

/// Tooltip and Tab stay out of the way exactly while the cursor is at the end
/// of the buffer and the last change did not make the buffer shorter.
pub proof fn only_typing_at_the_end_counts_as_forward(cursor: int, chars: int, shrank: bool)
    ensures
        cursor < chars ==> !types_forward(cursor, chars, shrank),
        shrank ==> !types_forward(cursor, chars, shrank),
        cursor >= chars && !shrank ==> types_forward(cursor, chars, shrank),
{
}

/// The picker opens for an issue with at least one suggestion, with all of
/// them on offer and the first one selected, and for no other.
pub proof fn picker_offers_all_suggestions(issue: IssueView)
    ensures
        engaged_for(issue) is Some <==> issue.suggestions.len() > 0,
        engaged_for(issue) matches Some(e) ==> {
            &&& e.suggestions == issue.suggestions
            &&& e.selected == 0
            &&& e.target_word == issue.word
            &&& e.target_char_start == issue.char_start
            &&& e.target_char_end == issue.char_end
            &&& e.snapshot().target == issue.word
            &&& e.snapshot().suggestions == issue.suggestions
            &&& e.snapshot().selected == 0
        },
{
}

/// Moving the selection by one step goes to the next suggestion or the one
/// before, and to the other end from the first and the last.
pub proof fn selection_steps_by_one(e: EngagedView)
    requires
        e.wf(),
    ensures
        e.selected + 1 < e.suggestions.len() ==> e.moved(1).selected == e.selected + 1,
        e.selected + 1 == e.suggestions.len() ==> e.moved(1).selected == 0,
        e.selected > 0 ==> e.moved(-1).selected == e.selected - 1,
        e.selected == 0 ==> e.moved(-1).selected == e.suggestions.len() - 1,
        e.moved(1).suggestions == e.suggestions,
        e.moved(-1).suggestions == e.suggestions,
        e.moved(1).target_word == e.target_word,
        e.moved(-1).target_word == e.target_word,
        e.moved(1).target_char_start == e.target_char_start && e.moved(1).target_char_end
            == e.target_char_end,
        e.moved(-1).target_char_start == e.target_char_start && e.moved(-1).target_char_end
            == e.target_char_end,
{
    selection_moves_in_a_circle(e, 1);
    let n = e.suggestions.len() as int;
    if e.selected + 1 < n {
        vstd::arithmetic::div_mod::lemma_small_mod((e.selected + 1) as nat, n as nat);
    }
    if e.selected > 0 {
        vstd::arithmetic::div_mod::lemma_small_mod((e.selected - 1) as nat, n as nat);
    }
}

/// Whether Tab can engage an issue: it is shown, has a suggestion, and the
/// cursor is in it or at one of its ends.
pub open spec fn can_engage(issue: IssueView, cursor: int, grammar: bool) -> bool {
    crate::echo::touches(issue, cursor, grammar) && issue.suggestions.len() > 0
}

/// There is an issue to pick exactly where the cursor touches one that can be
/// engaged, and of several it is one that starts last.
pub proof fn touched_issue_is_picked(lints: Seq<IssueView>, cursor: int, grammar: bool, i: int)
    requires
        0 <= i < lints.len(),
        can_engage(lints[i], cursor, grammar),
    ensures
        picked(lints, cursor, grammar) matches Some(k) && 0 <= k < lints.len() && can_engage(
            lints[k],
            cursor,
            grammar,
        ) && lints[i].char_start <= lints[k].char_start,
{
    picked_exists(lints, cursor, grammar, lints.len() as int, i);
    assert(lints.take(lints.len() as int) =~= lints);
    let k = choose|k: int| is_picked(lints, cursor, grammar, k);
    assert(is_picked(lints, cursor, grammar, k));
    assert(can_pick(lints[i], cursor, grammar));
}

proof fn picked_exists(lints: Seq<IssueView>, cursor: int, grammar: bool, n: int, i: int)
    requires
        0 <= i < n <= lints.len(),
        can_pick(lints[i], cursor, grammar),
    ensures
        exists|k: int| #[trigger] is_picked(lints.take(n), cursor, grammar, k),
    decreases n,
{
    let all = lints.take(n);
    let last = n - 1;
    if exists|j: int| 0 <= j < last && can_pick(#[trigger] lints[j], cursor, grammar) {
        let j = choose|j: int| 0 <= j < last && can_pick(#[trigger] lints[j], cursor, grammar);
        picked_exists(lints, cursor, grammar, last, j);
        let part = lints.take(last);
        let c = choose|k: int| #[trigger] is_picked(part, cursor, grammar, k);
        let d = if can_pick(lints[last], cursor, grammar) && part[c].char_start
            < lints[last].char_start {
            last
        } else {
            c
        };
        assert forall|x: int|
            0 <= x < all.len() && can_pick(
                #[trigger] all[x],
                cursor,
                grammar,
            ) implies all[x].char_start < all[d].char_start || (all[x].char_start
            == all[d].char_start && d <= x) by {
            if x < last {
                assert(can_pick(part[x], cursor, grammar));
            }
        }
        assert(is_picked(all, cursor, grammar, d));
    } else {
        if i < last {
            assert(can_pick(lints[i], cursor, grammar));
        }
        assert(is_picked(all, cursor, grammar, last));
    }
}

/// Without such an issue there is none to pick.
pub proof fn nothing_else_is_picked(lints: Seq<IssueView>, cursor: int, grammar: bool)
    requires
        forall|i: int| 0 <= i < lints.len() ==> !can_engage(#[trigger] lints[i], cursor, grammar),
    ensures
        picked(lints, cursor, grammar) is None,
{
    assert forall|i: int| !is_picked(lints, cursor, grammar, i) by {
        if 0 <= i < lints.len() {
            assert(!can_engage(lints[i], cursor, grammar));
        }
    }
}

/// How a suggestion stands in the overlay: in brackets where it is selected.
pub open spec fn offered(s: Seq<char>, selected: bool) -> Seq<char> {
    if selected {
        seq!['['] + s + seq![']']
    } else {
        s
    }
}

/// The overlay shows every suggestion, and only the selected one in brackets.
pub proof fn overlay_shows_every_suggestion(
    suggestions: Seq<Seq<char>>,
    selected: int,
    engaged: bool,
    k: int,
)
    requires
        0 <= k < suggestions.len(),
    ensures
        exists|i: int|
            0 <= i < content_tokens(suggestions, selected, engaged).len()
                && #[trigger] content_tokens(suggestions, selected, engaged)[i] == Token::Text(
                offered(suggestions[k], k == selected),
            ),
{
    let n = suggestions.len() as int;
    item_is_listed(suggestions, selected, engaged, n, k);
    let items = items_tokens(suggestions, selected, engaged, n);
    let all = content_tokens(suggestions, selected, engaged);
    let i = choose|i: int|
        0 <= i < items.len() && #[trigger] items[i] == Token::Text(
            offered(suggestions[k], k == selected),
        );
    assert(all[i + 1] == items[i]);
}

proof fn item_is_listed(
    suggestions: Seq<Seq<char>>,
    selected: int,
    engaged: bool,
    n: int,
    k: int,
)
    requires
        0 <= k < n <= suggestions.len(),
    ensures
        exists|i: int|
            0 <= i < items_tokens(suggestions, selected, engaged, n).len()
                && #[trigger] items_tokens(suggestions, selected, engaged, n)[i] == Token::Text(
                offered(suggestions[k], k == selected),
            ),
    decreases n,
{
    let before = items_tokens(suggestions, selected, engaged, n - 1);
    let all = items_tokens(suggestions, selected, engaged, n);
    let text = offered(suggestions[k], k == selected);
    if k < n - 1 {
        item_is_listed(suggestions, selected, engaged, n - 1, k);
        let i = choose|i: int| 0 <= i < before.len() && #[trigger] before[i] == Token::Text(text);
        assert(all[i] == before[i]);
    } else {
        reveal_strlit("[");
        reveal_strlit("]");
        assert("["@ =~= seq!['[']);
        assert("]"@ =~= seq![']']);
        let blank = if n > 1 {
            1int
        } else {
            0int
        };
        let item = item_tokens(suggestions[k], k == selected, engaged);
        let at = if k == selected && engaged {
            1int
        } else {
            0int
        };
        assert(item[at] == Token::Text(text));
        assert(all[before.len() + blank + at] == item[at]);
    }
}

/// With the range of the word known, the overlay stands right of the word with
/// one blank between where there is room for all of it, else above the first
/// character of the word where there is, else nowhere. It is as wide as what it
/// shows.
pub proof fn overlay_stands_beside_the_word(
    t: TargetView,
    m: EchoModel,
    screen: ScreenState,
    at: CursorPos,
)
    requires
        t.suggestions.len() > 0,
        m.anchor(screen.cols) == Some(at),
        at.row < screen.rows,
        t.range matches Some(range) && crate::echo::anchor_start(m.buffer_text) <= range.0
            <= range.1,
    ensures
        ({
            let offset = crate::echo::anchor_start(m.buffer_text);
            let range = t.range->0;
            let first = at.col + (range.0 - offset);
            let behind = at.col + (range.1 - offset);
            let width = tokens_width(content_tokens(t.suggestions, t.selected, t.engaged));
            let place = placement(t, m, screen);
            &&& behind + 1 + width <= screen.cols ==> {
                &&& place matches Some(r)
                &&& r.row == at.row
                &&& r.col_start == behind + 1
                &&& r.col_end == behind + 1 + width
            }
            &&& behind + 1 + width > screen.cols && at.row > 0 && first + width <= screen.cols ==> {
                &&& place matches Some(r)
                &&& r.row == at.row - 1
                &&& r.col_start == first
                &&& r.col_end == first + width
            }
            &&& behind + 1 + width > screen.cols && (at.row == 0 || first + width > screen.cols)
                ==> place is None
        }),
{
}

/// The overlay of an open picker goes by the issue with its word that the
/// cursor is on.
pub proof fn open_picker_goes_by_the_cursor(
    t: TargetView,
    lints: Seq<IssueView>,
    cursor: int,
    i: int,
)
    requires
        t.range is None,
        0 <= i < lints.len(),
        lints[i].word == t.word,
        lints[i].char_start <= cursor <= lints[i].char_end,
        forall|j: int|
            0 <= j < lints.len() && j != i && (#[trigger] lints[j]).word == t.word ==> !(
            lints[j].char_start <= cursor <= lints[j].char_end),
    ensures
        target_range(t, lints, cursor) == (lints[i].char_start, lints[i].char_end),
{
    only_one_with_word(lints, t.word, cursor, i, lints.len() as int);
    assert(lints.take(lints.len() as int) =~= lints);
}

proof fn only_one_with_word(
    lints: Seq<IssueView>,
    word: Seq<char>,
    cursor: int,
    i: int,
    n: int,
)
    requires
        0 <= i < lints.len(),
        0 <= n <= lints.len(),
        is_word_here(lints[i], word, Some(cursor)),
        forall|j: int|
            0 <= j < lints.len() && j != i ==> !is_word_here(
                #[trigger] lints[j],
                word,
                Some(cursor),
            ),
    ensures
        first_with_word(lints.take(n), word, Some(cursor)) == if n > i {
            i
        } else {
            -1
        },
    decreases n,
{
    if n > 0 {
        only_one_with_word(lints, word, cursor, i, n - 1);
        assert(lints.take(n).drop_last() =~= lints.take(n - 1));
        assert(lints.take(n).last() == lints[n - 1]);
        assert(n - 1 != i ==> !is_word_here(lints[n - 1], word, Some(cursor)));
    }
}

/// A tooltip goes by its own issue; an open picker goes before it.
pub proof fn tooltip_goes_by_its_issue(o: OverlayModel, lints: Seq<IssueView>, i: usize)
    requires
        o.hover_lint == Some(i),
        i < lints.len(),
    ensures
        o.engaged_snapshot is None ==> (o.target(lints) matches Some(t) && t.range == Some(
            (lints[i as int].char_start, lints[i as int].char_end),
        ) && t.word == lints[i as int].word && t.suggestions == lints[i as int].suggestions
            && !t.engaged),
        o.engaged_snapshot matches Some(snap) ==> (o.target(lints) matches Some(t) && t.word
            == snap.target && t.suggestions == snap.suggestions && t.selected == snap.selected
            && t.engaged),
{
}

/// The tooltip comes when the picker is on and not open, the user does not
/// type forward, the cursor has rested for the hover window, and it touches an
/// issue; it stays away when any of these fails.
pub proof fn tooltip_comes_when_the_cursor_rests(
    o: OverlayModel,
    m: EchoModel,
    now: Instant,
    window: Duration,
    settings: Settings,
)
    ensures
        ({
            let target = o.hover_target(m, now, window, settings);
            let touched = exists|i: int|
                0 <= i < m.lints.len() && crate::echo::touches(
                    #[trigger] m.lints[i],
                    m.buffer_cursor,
                    settings.grammar,
                );
            let inside = m.buffer_cursor < m.buffer_chars || o.buffer_shrank;
            &&& settings.picker && o.engaged_snapshot is None && inside && touched && (
            o.cursor_changed_at matches Some(t) && now.nanos >= t.nanos + window.nanos) ==> {
                &&& target matches Some(k)
                &&& 0 <= k < m.lints.len()
                &&& crate::echo::touches(m.lints[k], m.buffer_cursor, settings.grammar)
            }
            &&& !settings.picker ==> target is None
            &&& o.engaged_snapshot is Some ==> target is None
            &&& !inside ==> target is None
            &&& !touched ==> target is None
            &&& o.cursor_changed_at is None ==> target is None
            &&& (o.cursor_changed_at matches Some(t) && t.nanos <= now.nanos < t.nanos
                + window.nanos) ==> target is None
        }),
{
    if exists|i: int|
        0 <= i < m.lints.len() && crate::echo::touches(
            #[trigger] m.lints[i],
            m.buffer_cursor,
            settings.grammar,
        ) {
        let i = choose|i: int|
            0 <= i < m.lints.len() && crate::echo::touches(
                #[trigger] m.lints[i],
                m.buffer_cursor,
                settings.grammar,
            );
        crate::echo::touched_issue_is_under_the_cursor(
            m.lints,
            m.buffer_cursor,
            settings.grammar,
            i,
        );
    } else {
        crate::echo::nothing_else_is_under_the_cursor(
            m.lints,
            m.buffer_cursor,
            settings.grammar,
        );
    }
}

/// A moved cursor starts the hover window anew and takes the tooltip away; one
/// that stays keeps both. A buffer counts as shrunk exactly where it is
/// shorter than it was.
pub proof fn moved_cursor_starts_the_window(
    o: OverlayModel,
    cursor: usize,
    chars: usize,
    now: Instant,
)
    ensures
        ({
            let after = o.noted(cursor, chars, now);
            &&& after.last_cursor == Some(cursor)
            &&& after.last_buffer_chars == Some(chars)
            &&& o.last_cursor != Some(cursor) ==> after.cursor_changed_at == Some(now)
                && after.hover_lint is None
            &&& o.last_cursor == Some(cursor) ==> after.cursor_changed_at == o.cursor_changed_at
                && after.hover_lint == o.hover_lint
            &&& o.last_buffer_chars matches Some(prev) ==> after.buffer_shrank == (chars < prev)
            &&& o.last_buffer_chars is None ==> !after.buffer_shrank
            &&& after.engaged_snapshot == o.engaged_snapshot
            &&& after.region == o.region
        }),
{
}

/// With the picker off, or nothing to show, the overlay goes away.
pub proof fn overlay_goes_with_its_reason(
    o: OverlayModel,
    m: EchoModel,
    screen: ScreenState,
    settings: Settings,
)
    requires
        !settings.picker || (o.engaged_snapshot is None && (o.hover_lint is None
            || o.hover_lint->0 >= m.lints.len())),
    ensures
        o.drawn(m, screen, settings).region is None,
        o.region is None ==> o.bytes(m, screen, settings).len() == 0,
{
}

/// A fresh overlay shows nothing.
pub proof fn overlay_starts_empty(lints: Seq<IssueView>)
    ensures
        OverlayModel::init().target(lints) is None,
        OverlayModel::init().region is None,
        OverlayModel::init().cursor_changed_at is None,
        OverlayModel::init().last_cursor is None,
        !OverlayModel::init().buffer_shrank,
{
}

/// The overlay is drawn where it is said to be: what it shows is written when
/// the cursor stands in the first cell of its region, and its style ends with
/// it.
#[verifier::rlimit(60)]
#[verifier::spinoff_prover]
pub proof fn overlay_is_drawn_in_its_region(
    t: TargetView,
    m: EchoModel,
    screen: ScreenState,
    prior: Option<OverlayRegion>,
    region: OverlayRegion,
)
    requires
        screen.wf(),
        screen.cursor_on_screen(),
        prior matches Some(p) ==> p.row < screen.rows && p.col_end <= screen.cols,
        placement(t, m, screen) == Some(region),
        region.row < screen.rows,
    ensures
        ({
            let tokens = overlay_tokens(t, m, screen, prior, region);
            let content = content_tokens(t.suggestions, t.selected, t.engaged);
            exists|k: int|
                0 <= k && k + content.len() < tokens.len() && #[trigger] tokens.subrange(
                    k,
                    k + content.len(),
                ) == content && pos(run_all(screen, tokens.take(k)).cursor) == (Pos {
                    row: region.row as int,
                    col: region.col_start as int,
                }) && tokens[k + content.len()] == Token::Style(seq!['\x1b', '[', '0', 'm'])
        }),
{
    let cols = screen.cols as int;
    let start = home(screen);
    let strokes = freed_strokes(m, prior, region);
    let pen = pen_after(cols, start, strokes);
    let row = region.row as int;
    let target = Pos { row, col: region.col_start as int };
    let end = Pos { row, col: resting_col(region.col_end as int, cols) };
    let before = drawn(cols, start, strokes);
    let a = approach_tokens(cols, pen, target);
    let x = Token::Style("\x1b[2;36m"@);
    let c = content_tokens(t.suggestions, t.selected, t.engaged);
    let y = Token::Style("\x1b[0m"@);
    let e = approach_tokens(cols, end, start);
    overlay_is_reached(t, m, screen, prior, region);
    overlay_parts(before, a, x, c, y, e);
    overlay_tokens_parts(t, m, screen, prior, region);
    let tokens = overlay_tokens(t, m, screen, prior, region);
    let k = (before.len() + a.len() + 1) as int;
    reveal_strlit("\x1b[0m");
    assert("\x1b[0m"@ =~= seq!['\x1b', '[', '0', 'm']);
    assert(tokens.subrange(k, k + c.len()) == c);
}

proof fn overlay_tokens_parts(
    t: TargetView,
    m: EchoModel,
    screen: ScreenState,
    prior: Option<OverlayRegion>,
    region: OverlayRegion,
)
    ensures
        ({
            let cols = screen.cols as int;
            let start = home(screen);
            let strokes = freed_strokes(m, prior, region);
            let row = region.row as int;
            let target = Pos { row, col: region.col_start as int };
            let end = Pos { row, col: resting_col(region.col_end as int, cols) };
            overlay_tokens(t, m, screen, prior, region) == drawn(cols, start, strokes) + (
            approach_tokens(cols, pen_after(cols, start, strokes), target) + seq![
                Token::Style("\x1b[2;36m"@),
            ] + content_tokens(t.suggestions, t.selected, t.engaged) + seq![
                Token::Style("\x1b[0m"@),
            ] + approach_tokens(cols, end, start))
        }),
{
}

proof fn overlay_parts(
    before: Seq<Token>,
    a: Seq<Token>,
    x: Token,
    c: Seq<Token>,
    y: Token,
    e: Seq<Token>,
)
    ensures
        ({
            let tokens = before + (a + seq![x] + c + seq![y] + e);
            let k = (before.len() + a.len() + 1) as int;
            &&& k + c.len() < tokens.len()
            &&& tokens.take(k) == before + a + seq![x]
            &&& tokens.subrange(k, k + c.len()) == c
            &&& tokens[k + c.len()] == y
        }),
{
    let tokens = before + (a + seq![x] + c + seq![y] + e);
    let k = (before.len() + a.len() + 1) as int;
    assert(tokens.take(k) =~= before + a + seq![x]);
    assert(tokens.subrange(k, k + c.len()) =~= c);
}

/// The moves before the overlay lead to its first cell.
proof fn overlay_is_reached(
    t: TargetView,
    m: EchoModel,
    screen: ScreenState,
    prior: Option<OverlayRegion>,
    region: OverlayRegion,
)
    requires
        screen.wf(),
        screen.cursor_on_screen(),
        prior matches Some(p) ==> p.row < screen.rows && p.col_end <= screen.cols,
        placement(t, m, screen) == Some(region),
        region.row < screen.rows,
    ensures
        ({
            let cols = screen.cols as int;
            let start = home(screen);
            let strokes = freed_strokes(m, prior, region);
            let target = Pos { row: region.row as int, col: region.col_start as int };
            let a = approach_tokens(cols, pen_after(cols, start, strokes), target);
            pos(
                run_all(
                    screen,
                    drawn(cols, start, strokes) + a + seq![Token::Style("\x1b[2;36m"@)],
                ).cursor,
            ) == target
        }),
{
    let cols = screen.cols as int;
    let start = home(screen);
    let strokes = freed_strokes(m, prior, region);
    let target = Pos { row: region.row as int, col: region.col_start as int };
    let before = drawn(cols, start, strokes);
    let a = approach_tokens(cols, pen_after(cols, start, strokes), target);
    let b = seq![Token::Style("\x1b[2;36m"@)];
    assert(start == pos(screen.cursor));
    body_prints(
        t,
        b + content_tokens(t.suggestions, t.selected, t.engaged) + seq![Token::Style("\x1b[0m"@)],
    );
    if let Some(p) = prior {
        restore_strokes_fit(
            m.grid,
            p.row as int,
            p.col_start as int,
            p.col_end as int,
            Some(region),
            screen.rows as int,
            cols,
        );
    }
    crate::ansi::drawn_reaches_pen(screen, strokes);
    let s0 = run_all(screen, before);
    run_all_concat(screen, before, a);
    crate::ansi::approach_reaches_target(s0, target);
    run_all_concat(screen, before + a, b);
    let s1 = run_all(s0, a);
    assert(b.drop_last() =~= Seq::<Token>::empty());
    assert(run_all(s1, b.drop_last()) == s1);
}

} // verus!
