//! What happens to the bytes that the user types.
//!
//! Every byte goes through `handle_byte`, which updates the input state and
//! the picker and says, in order, what is to be written to the child and which
//! events go to the rendering side. Read chunks that look like a paste are
//! fed as a whole: the child gets them before the spell check runs.

use crate::buffer::{BufferModel, FeedOutcome};
use crate::event::{InputEvent, InputEventView, PickerSnapshot, RenderEvent, RenderEventView};
use crate::config::Settings;
use crate::fix::{backspace_key, build_fix, fix_for, keystrokes, left_key, repeated, right_key};
use crate::fix::{tab_fix, try_tab_fix, Fix, FixView};
use crate::input::{InputModel, InputState};
use crate::picker::{can_pick, engage_for, engaged_for, engaged_view, pick_target, picked, shrank};
use crate::picker::{types_forward, typing_forward_at_end, Engaged, EngagedView};
use crate::spell::{clone_issues, issues_view, IssueView, SpellIssue};
use crate::text::same_text;
use vstd::prelude::*;
use vstd::utf8::encode_utf8;

verus! {

/// From this size on a chunk that ends in a line break is a pasted line:
/// larger than a burst of typing, smaller than a line of prose.
pub const MIN_PASTE_CHUNK_SIZE: usize = 16;

/// From this size on a chunk is a paste even without a line break: larger
/// than any escape sequence and any burst of typing.
pub const MIN_PASTE_NOLINE_SIZE: usize = 64;

pub open spec fn is_break(b: u8) -> bool {
    b == 0x0A || b == 0x0D
}

/// Length of `chunk` without the line breaks at its end.
pub open spec fn body_len(chunk: Seq<u8>) -> int
    decreases chunk.len(),
{
    if chunk.len() > 0 && is_break(chunk.last()) {
        body_len(chunk.drop_last())
    } else {
        chunk.len() as int
    }
}

/// Whether a read chunk is a paste: something follows a line break, or it ends
/// in one and is too large for typing, or it is too large for any key.
pub open spec fn is_paste(chunk: Seq<u8>) -> bool {
    ||| exists|i: int| 0 <= i < body_len(chunk) && is_break(#[trigger] chunk[i])
    ||| body_len(chunk) < chunk.len() && chunk.len() >= MIN_PASTE_CHUNK_SIZE
    ||| chunk.len() >= MIN_PASTE_NOLINE_SIZE
}

/// Decides whether a read chunk is a paste, for hosts that do not turn on
/// paste markers. In raw mode Enter ends its chunk, so none of the signs can
/// come from typing.
pub fn chunk_looks_like_paste(chunk: &[u8]) -> (r: bool)
    ensures
        r == is_paste(chunk@),
{
    let n: usize = chunk.len();
    let mut body: usize = n;
    proof {
        assert(chunk@.take(n as int) =~= chunk@);
    }
    while body > 0 && (chunk[body - 1] == 0x0A || chunk[body - 1] == 0x0D)
        invariant
            n == chunk@.len(),
            body <= n,
            body_len(chunk@) == body_len(chunk@.take(body as int)),
        decreases body,
    {
        proof {
            assert(chunk@.take(body as int).drop_last() =~= chunk@.take(body - 1));
        }
        body -= 1;
    }
    proof {
        assert(body_len(chunk@) == body);
    }
    let mut i: usize = 0;
    while i < body
        invariant
            n == chunk@.len(),
            body <= n,
            body_len(chunk@) == body,
            i <= body,
            forall|j: int| 0 <= j < i ==> !is_break(#[trigger] chunk@[j]),
        decreases body - i,
    {
        if chunk[i] == 0x0A || chunk[i] == 0x0D {
            assert(is_break(chunk@[i as int]));
            return true;
        }
        i += 1;
    }
    (body < n && n >= MIN_PASTE_CHUNK_SIZE) || n >= MIN_PASTE_NOLINE_SIZE
}

/// What is to be done about a byte, in order.
#[derive(Debug)]
pub enum PumpAction {
    /// Write to the child.
    ToChild(Vec<u8>),
    /// Pass on to the child what was written.
    Flush,
    /// Send to the rendering side.
    Emit(RenderEvent),
    /// A fix is being typed; nothing has to be done.
    Fixing(Fix),
}

/// What a `PumpAction` holds.
pub enum ActionView {
    ToChild(Seq<u8>),
    Flush,
    Emit(RenderEventView),
    Fixing(FixView),
}

impl View for PumpAction {
    type V = ActionView;

    open spec fn view(&self) -> ActionView {
        match *self {
            PumpAction::ToChild(bytes) => ActionView::ToChild(bytes@),
            PumpAction::Flush => ActionView::Flush,
            PumpAction::Emit(event) => ActionView::Emit(event@),
            PumpAction::Fixing(fix) => ActionView::Fixing(fix@),
        }
    }
}

pub open spec fn actions_view(actions: Seq<PumpAction>) -> Seq<ActionView> {
    actions.map_values(|a: PumpAction| a@)
}

fn act(out: &mut Vec<PumpAction>, action: PumpAction)
    ensures
        actions_view(final(out)@) == actions_view(old(out)@).push(action@),
{
    out.push(action);
    proof {
        assert(actions_view(out@) =~= actions_view(old(out)@).push(action@));
    }
}

/// How far an escape sequence has come while the picker is open.
#[derive(Debug, Clone, Copy, PartialEq, Eq, Structural)]
pub enum EscState {
    Ground,
    SawEsc,
    SawCsi,
}

/// The input side of the picker.
pub struct PickerCtx {
    engaged: Option<Engaged>,
    esc: EscState,
    /// Length of the buffer after the last change of it.
    last_buffer_chars: Option<usize>,
    /// The last change made the buffer shorter.
    buffer_shrank: bool,
}

/// What a `PickerCtx` holds.
#[verifier::ext_equal]
pub struct PickerModel {
    pub engaged: Option<EngagedView>,
    pub esc: EscState,
    pub last_buffer_chars: Option<usize>,
    pub buffer_shrank: bool,
}

impl PickerModel {
    pub open spec fn init() -> PickerModel {
        PickerModel {
            engaged: None,
            esc: EscState::Ground,
            last_buffer_chars: None,
            buffer_shrank: false,
        }
    }

    /// An open picker has a suggestion selected.
    pub open spec fn wf(self) -> bool {
        self.engaged matches Some(e) ==> e.wf()
    }

    pub open spec fn noted(self, chars: int) -> PickerModel {
        PickerModel {
            buffer_shrank: shrank(self.last_buffer_chars, chars as usize),
            last_buffer_chars: Some(chars as usize),
            ..self
        }
    }

    pub open spec fn untracked(self) -> PickerModel {
        PickerModel { last_buffer_chars: None, buffer_shrank: false, ..self }
    }

    pub open spec fn closed(self) -> PickerModel {
        PickerModel { engaged: None, esc: EscState::Ground, ..self }
    }
}

impl View for PickerCtx {
    type V = PickerModel;

    closed spec fn view(&self) -> PickerModel {
        PickerModel {
            engaged: engaged_view(self.engaged),
            esc: self.esc,
            last_buffer_chars: self.last_buffer_chars,
            buffer_shrank: self.buffer_shrank,
        }
    }
}

impl PickerCtx {
    pub open spec fn wf(&self) -> bool {
        self@.wf()
    }

    pub fn new() -> (r: Self)
        ensures
            r@ == PickerModel::init(),
            r.wf(),
    {
        PickerCtx {
            engaged: None,
            esc: EscState::Ground,
            last_buffer_chars: None,
            buffer_shrank: false,
        }
    }

    pub fn is_engaged(&self) -> (r: bool)
        ensures
            r == (self@.engaged is Some),
    {
        self.engaged.is_some()
    }

    /// Keeps track of whether the buffer became shorter.
    fn note_buffer(&mut self, buffer_chars: usize)
        ensures
            final(self)@ == old(self)@.noted(buffer_chars as int),
    {
        self.buffer_shrank = match self.last_buffer_chars {
            Some(prev) => buffer_chars < prev,
            None => false,
        };
        self.last_buffer_chars = Some(buffer_chars);
    }

    /// Forgets the length at a boundary, so that the first keystroke of the
    /// next prompt does not count as one that shortens the buffer.
    fn reset_buffer_tracking(&mut self)
        ensures
            final(self)@ == old(self)@.untracked(),
    {
        self.last_buffer_chars = None;
        self.buffer_shrank = false;
    }
}

impl Default for PickerCtx {
    fn default() -> (r: Self)
        ensures
            r@ == PickerModel::init(),
            r.wf(),
    {
        PickerCtx::new()
    }
}

/// Input state and picker together.
pub struct PumpModel {
    pub input: InputModel,
    pub picker: PickerModel,
}

impl PumpModel {
    pub open spec fn wf(self) -> bool {
        self.input.wf() && self.picker.wf()
    }
}

pub open spec fn emit(event: InputEventView) -> ActionView {
    ActionView::Emit(RenderEventView::Input(event))
}

/// The event that reports the buffer and its issues.
pub open spec fn lints_event(m: InputModel) -> ActionView {
    emit(
        InputEventView::Lints {
            issues: m.issues,
            buffer_chars: m.buffer.text.len() as int,
            buffer_text: m.buffer.text,
            buffer_cursor: m.buffer.cursor,
        },
    )
}

/// The event for a typed ASCII character that stands on its own.
pub open spec fn typed_event(before: BufferModel, byte: u8) -> Seq<ActionView> {
    if before.is_ground() && 0x20 <= byte <= 0x7E {
        seq![
            emit(InputEventView::UserChar { ch: byte as char, char_offset: before.cursor }),
        ]
    } else {
        Seq::empty()
    }
}

/// The events that close the picker on the screen.
pub open spec fn close_events() -> Seq<ActionView> {
    seq![emit(InputEventView::PickerState(None)), ActionView::Emit(RenderEventView::ForcePaint)]
}

/// The events that show the picker as it is now.
pub open spec fn show_events(e: EngagedView) -> Seq<ActionView> {
    seq![
        emit(InputEventView::PickerState(Some(e.snapshot()))),
        ActionView::Emit(RenderEventView::ForcePaint),
    ]
}

/// A byte that nothing intercepts: it is fed, reported and passed on.
pub open spec fn plain_step(b: PumpModel, byte: u8, a: PumpModel, acts: Seq<ActionView>) -> bool {
    let outcome = b.input.buffer.fed_all(seq![byte]).1;
    &&& b.input.feeds_to(seq![byte], a.input)
    &&& a.picker == match outcome {
        FeedOutcome::Updated => b.picker.noted(a.input.buffer.text.len() as int),
        FeedOutcome::Boundary => b.picker.untracked(),
        FeedOutcome::NoChange => b.picker,
    }
    &&& acts == match outcome {
        FeedOutcome::Updated => typed_event(b.input.buffer, byte).push(lints_event(a.input)),
        FeedOutcome::Boundary => seq![emit(InputEventView::Boundary)],
        FeedOutcome::NoChange => Seq::empty(),
    }.push(ActionView::ToChild(seq![byte]))
}

/// `after` is `before` with the chunks fed one after the other, each with its
/// own check.
pub open spec fn fed_in_turn(before: InputModel, chunks: Seq<Seq<u8>>, after: InputModel) -> bool
    decreases chunks.len(),
{
    if chunks.len() == 0 {
        after == before
    } else {
        exists|mid: InputModel|
            fed_in_turn(before, chunks.drop_last(), mid) && #[trigger] mid.feeds_to(
                chunks.last(),
                after,
            )
    }
}

pub open spec fn key_chunks(key: Seq<u8>, count: int) -> Seq<Seq<u8>> {
    Seq::new(count as nat, |i: int| key)
}

pub open spec fn byte_chunks(bytes: Seq<u8>) -> Seq<Seq<u8>> {
    Seq::new(bytes.len(), |i: int| seq![bytes[i]])
}

/// The moves and deletions of a fix, key by key.
pub open spec fn edit_chunks(fix: FixView) -> Seq<Seq<u8>> {
    key_chunks(left_key(), fix.left_moves) + key_chunks(right_key(), fix.right_moves) + key_chunks(
        backspace_key(),
        fix.backspaces,
    )
}

/// All of a fix, key by key.
pub open spec fn fix_chunks(fix: FixView) -> Seq<Seq<u8>> {
    edit_chunks(fix) + byte_chunks(encode_utf8(fix.replacement_text))
}

pub open spec fn to_child(chunks: Seq<Seq<u8>>) -> Seq<ActionView> {
    chunks.map_values(|c: Seq<u8>| ActionView::ToChild(c))
}

/// What typing the first `k` bytes brings about, from the buffer `m` on.
pub open spec fn typed_actions(m: BufferModel, bytes: Seq<u8>, k: int) -> Seq<ActionView>
    decreases k,
{
    if k <= 0 {
        Seq::empty()
    } else {
        typed_actions(m, bytes, k - 1) + typed_event(
            m.fed_all(bytes.take(k - 1)).0,
            bytes[k - 1],
        ).push(ActionView::ToChild(seq![bytes[k - 1]]))
    }
}

pub open spec fn flat(chunks: Seq<Seq<u8>>) -> Seq<u8>
    decreases chunks.len(),
{
    if chunks.len() == 0 {
        Seq::empty()
    } else {
        flat(chunks.drop_last()) + chunks.last()
    }
}

/// What typing a fix brings about.
pub open spec fn fix_actions(before: InputModel, fix: FixView, after: InputModel) -> Seq<ActionView> {
    let edited = before.buffer.fed_all(flat(edit_chunks(fix))).0;
    let bytes = encode_utf8(fix.replacement_text);
    seq![ActionView::Fixing(fix)] + to_child(edit_chunks(fix)) + typed_actions(
        edited,
        bytes,
        bytes.len() as int,
    ) + seq![
        lints_event(after),
        ActionView::Emit(RenderEventView::ForcePaint),
        ActionView::Flush,
    ]
}

/// A fix is typed, into the buffer and to the child alike.
pub open spec fn fix_step(b: PumpModel, fix: FixView, a: PumpModel, acts: Seq<ActionView>) -> bool {
    &&& fed_in_turn(b.input, fix_chunks(fix), a.input)
    &&& a.picker == b.picker.noted(a.input.buffer.text.len() as int)
    &&& acts == fix_actions(b.input, fix, a.input)
}

/// The picker that Tab opens, if any: none while the user types forward at the
/// end of the buffer, and none where the cursor is on no issue.
pub open spec fn tab_engages(b: PumpModel, settings: Settings) -> Option<EngagedView> {
    let m = b.input;
    if types_forward(m.buffer.cursor, m.buffer.text.len() as int, b.picker.buffer_shrank) {
        None
    } else {
        match picked(m.issues, m.buffer.cursor, settings.grammar) {
            Some(i) => engaged_for(m.issues[i]),
            None => None,
        }
    }
}

/// A byte with no open picker.
pub open spec fn free_step(
    b: PumpModel,
    byte: u8,
    settings: Settings,
    a: PumpModel,
    acts: Seq<ActionView>,
) -> bool {
    if byte == 0x09 && settings.tab_fix && settings.picker {
        match tab_engages(b, settings) {
            Some(e) => {
                &&& a.input == b.input
                &&& a.picker == (PickerModel {
                    engaged: Some(e),
                    esc: EscState::Ground,
                    ..b.picker
                })
                &&& acts == show_events(e)
            },
            None => plain_step(b, byte, a, acts),
        }
    } else if byte == 0x09 && settings.tab_fix {
        match tab_fix(b.input.buffer, b.input.issues) {
            Some(fix) => fix_step(b, fix, a, acts),
            None => plain_step(b, byte, a, acts),
        }
    } else {
        plain_step(b, byte, a, acts)
    }
}

/// Whether an issue is the one that the picker was opened for.
pub open spec fn is_target(issue: IssueView, e: EngagedView) -> bool {
    issue.char_start == e.target_char_start && issue.char_end == e.target_char_end && issue.word
        == e.target_word
}

/// Index of the first issue that the picker was opened for, or -1.
pub open spec fn target_index(issues: Seq<IssueView>, e: EngagedView) -> int
    decreases issues.len(),
{
    if issues.len() == 0 {
        -1
    } else {
        let before = target_index(issues.drop_last(), e);
        if before >= 0 {
            before
        } else if is_target(issues.last(), e) {
            issues.len() - 1
        } else {
            -1
        }
    }
}

/// The fix that Enter applies in an open picker: none where the issue is gone
/// or cannot be fixed any more.
pub open spec fn picked_fix(m: InputModel, e: EngagedView) -> Option<FixView> {
    let i = target_index(m.issues, e);
    if i >= 0 {
        fix_for(m.buffer, m.issues[i], e.suggestions[e.selected])
    } else {
        None
    }
}

/// Enter in an open picker: the fix is typed and the picker closes.
pub open spec fn apply_step(
    b: PumpModel,
    e: EngagedView,
    a: PumpModel,
    acts: Seq<ActionView>,
) -> bool {
    let closed = PumpModel { picker: b.picker.closed(), ..b };
    match picked_fix(b.input, e) {
        Some(fix) => acts.len() >= 2 && fix_step(
            closed,
            fix,
            a,
            acts.take(acts.len() - 2),
        ) && acts.skip(acts.len() - 2) == close_events(),
        None => a == closed && acts == close_events(),
    }
}

/// The selection moves.
pub open spec fn nav_step(
    b: PumpModel,
    e: EngagedView,
    delta: int,
    a: PumpModel,
    acts: Seq<ActionView>,
) -> bool {
    &&& a.input == b.input
    &&& a.picker == (PickerModel {
        engaged: Some(e.moved(delta)),
        esc: EscState::Ground,
        ..b.picker
    })
    &&& acts == show_events(e.moved(delta))
}

/// The picker closes, and the byte is handled as if it had not been open.
pub open spec fn leave_step(
    b: PumpModel,
    byte: u8,
    settings: Settings,
    a: PumpModel,
    acts: Seq<ActionView>,
) -> bool {
    acts.len() >= 2 && acts.take(2) == close_events() && free_step(
        PumpModel { picker: b.picker.closed(), ..b },
        byte,
        settings,
        a,
        acts.skip(2),
    )
}

/// One byte of input. An open picker takes arrows, Enter, Esc and Tab for
/// itself; any other byte closes it and is handled as usual. Of an escape
/// sequence that is no arrow the child gets all bytes that were held back.
pub open spec fn byte_step(
    b: PumpModel,
    byte: u8,
    settings: Settings,
    a: PumpModel,
    acts: Seq<ActionView>,
) -> bool {
    match b.picker.engaged {
        None => free_step(b, byte, settings, a, acts),
        Some(e) => match b.picker.esc {
            EscState::Ground => if byte == 0x1B {
                &&& a.input == b.input
                &&& a.picker == (PickerModel { esc: EscState::SawEsc, ..b.picker })
                &&& acts == Seq::<ActionView>::empty()
            } else if byte == 0x0D || byte == 0x0A {
                apply_step(b, e, a, acts)
            } else if byte == 0x09 {
                nav_step(b, e, 1, a, acts)
            } else {
                leave_step(b, byte, settings, a, acts)
            },
            EscState::SawEsc => if byte == 0x5B {
                &&& a.input == b.input
                &&& a.picker == (PickerModel { esc: EscState::SawCsi, ..b.picker })
                &&& acts == Seq::<ActionView>::empty()
            } else {
                leave_step(b, byte, settings, a, acts)
            },
            EscState::SawCsi => if byte == 0x41 || byte == 0x44 || byte == 0x5A {
                nav_step(b, e, -1, a, acts)
            } else if byte == 0x42 || byte == 0x43 {
                nav_step(b, e, 1, a, acts)
            } else {
                &&& a.input == b.input
                &&& a.picker == b.picker.closed()
                &&& acts == close_events().push(ActionView::ToChild(seq![0x1Bu8, 0x5B, byte]))
            },
        },
    }
}

pub open spec fn pump(state: InputState, picker: PickerCtx) -> PumpModel {
    PumpModel { input: state@, picker: picker@ }
}

fn bytes_of(bytes: &[u8]) -> (r: Vec<u8>)
    ensures
        r@ == bytes@,
{
    vstd::slice::slice_to_vec(bytes)
}

fn emit_lints(state: &InputState) -> (r: PumpAction)
    requires
        state.wf(),
    ensures
        r@ == lints_event(state@),
{
    let buffer = state.buffer();
    PumpAction::Emit(
        RenderEvent::Input(
            InputEvent::Lints {
                issues: clone_issues(state.issues()),
                buffer_chars: buffer.text().unicode_len(),
                buffer_text: buffer.text().to_owned(),
                buffer_cursor: buffer.char_cursor(),
            },
        ),
    )
}

fn emit_picker(out: &mut Vec<PumpAction>, snapshot: Option<PickerSnapshot>)
    ensures
        actions_view(final(out)@) == actions_view(old(out)@) + seq![
            emit(InputEventView::PickerState(crate::event::snapshot_view(snapshot))),
            ActionView::Emit(RenderEventView::ForcePaint),
        ],
{
    act(out, PumpAction::Emit(RenderEvent::Input(InputEvent::PickerState(snapshot))));
    act(out, PumpAction::Emit(RenderEvent::ForcePaint));
    proof {
        assert(actions_view(out@) =~= actions_view(old(out)@) + seq![
            emit(InputEventView::PickerState(crate::event::snapshot_view(snapshot))),
            ActionView::Emit(RenderEventView::ForcePaint),
        ]);
    }
}

/// Reports a typed character that stands on its own.
fn emit_typed(out: &mut Vec<PumpAction>, ground: bool, cursor: usize, byte: u8, Ghost(before): Ghost<
    BufferModel,
>)
    requires
        ground == before.is_ground(),
        cursor == before.cursor,
    ensures
        actions_view(final(out)@) == actions_view(old(out)@) + typed_event(before, byte),
{
    if ground && 0x20 <= byte && byte <= 0x7E {
        act(
            out,
            PumpAction::Emit(
                RenderEvent::Input(
                    InputEvent::UserChar { ch: byte as char, char_offset: cursor },
                ),
            ),
        );
    }
    proof {
        assert(actions_view(out@) =~= actions_view(old(out)@) + typed_event(before, byte));
    }
}

/// Feeds a byte that nothing intercepts, reports what it did and passes it on.
fn feed_plain(byte: u8, state: &mut InputState, picker: &mut PickerCtx) -> (r: Vec<PumpAction>)
    requires
        old(state).wf(),
        old(picker).wf(),
    ensures
        plain_step(
            pump(*old(state), *old(picker)),
            byte,
            pump(*final(state), *final(picker)),
            actions_view(r@),
        ),
        final(state).wf(),
        final(picker).wf(),
{
    let ghost before = state@;
    let ground = state.buffer().is_ground();
    let cursor: usize = state.buffer().char_cursor();
    let mut out: Vec<PumpAction> = Vec::new();
    let mut one: Vec<u8> = Vec::new();
    one.push(byte);
    proof {
        assert(one@ =~= seq![byte]);
        assert(actions_view(out@) =~= Seq::<ActionView>::empty());
    }
    match state.feed_bytes(one.as_slice()) {
        FeedOutcome::Updated => {
            emit_typed(&mut out, ground, cursor, byte, Ghost(before.buffer));
            picker.note_buffer(state.buffer().text().unicode_len());
            act(&mut out, emit_lints(state));
            proof {
                assert(actions_view(out@) =~= typed_event(before.buffer, byte).push(
                    lints_event(state@),
                ));
            }
        },
        FeedOutcome::Boundary => {
            picker.reset_buffer_tracking();
            act(&mut out, PumpAction::Emit(RenderEvent::Input(InputEvent::Boundary)));
            proof {
                assert(actions_view(out@) =~= seq![emit(InputEventView::Boundary)]);
            }
        },
        FeedOutcome::NoChange => {},
    }
    act(&mut out, PumpAction::ToChild(one));
    out
}

/// Feeding on after chunks that were fed in turn.
proof fn feed_one_more(
    start: InputModel,
    done: Seq<Seq<u8>>,
    mid: InputModel,
    chunk: Seq<u8>,
    after: InputModel,
)
    requires
        fed_in_turn(start, done, mid),
        mid.feeds_to(chunk, after),
    ensures
        fed_in_turn(start, done.push(chunk), after),
{
    assert(done.push(chunk).drop_last() =~= done);
    assert(done.push(chunk).last() == chunk);
    assert(mid.feeds_to(done.push(chunk).last(), after));
}

/// Presses a key several times, in the buffer and for the child alike.
fn press(
    state: &mut InputState,
    key: &[u8],
    count: usize,
    out: &mut Vec<PumpAction>,
    Ghost(start): Ghost<InputModel>,
    Ghost(done): Ghost<Seq<Seq<u8>>>,
)
    requires
        old(state).wf(),
        fed_in_turn(start, done, old(state)@),
    ensures
        final(state).wf(),
        fed_in_turn(start, done + key_chunks(key@, count as int), final(state)@),
        actions_view(final(out)@) == actions_view(old(out)@) + to_child(
            key_chunks(key@, count as int),
        ),
{
    let mut i: usize = 0;
    proof {
        assert(done + key_chunks(key@, 0) =~= done);
        assert(actions_view(out@) =~= actions_view(old(out)@) + to_child(key_chunks(key@, 0)));
    }
    while i < count
        invariant
            i <= count,
            state.wf(),
            fed_in_turn(start, done + key_chunks(key@, i as int), state@),
            actions_view(out@) == actions_view(old(out)@) + to_child(key_chunks(key@, i as int)),
        decreases count - i,
    {
        let ghost mid = state@;
        act(out, PumpAction::ToChild(bytes_of(key)));
        let _ = state.feed_bytes(key);
        i += 1;
        proof {
            feed_one_more(start, done + key_chunks(key@, i - 1), mid, key@, state@);
            assert((done + key_chunks(key@, i - 1)).push(key@) =~= done + key_chunks(
                key@,
                i as int,
            ));
            assert(actions_view(out@) =~= actions_view(old(out)@) + to_child(
                key_chunks(key@, i as int),
            ));
        }
    }
}

/// Types a fix: arrow keys that bring the cursor to the misspelling,
/// backspaces, and the replacement. The buffer and the child get the same
/// keys. The rendering side is asked to paint at once, so that the underline
/// of the fixed word goes with the key press.
pub fn apply_fix(state: &mut InputState, picker: &mut PickerCtx, fix: &Fix) -> (r: Vec<PumpAction>)
    requires
        old(state).wf(),
        old(picker).wf(),
    ensures
        fix_step(
            pump(*old(state), *old(picker)),
            fix@,
            pump(*final(state), *final(picker)),
            actions_view(r@),
        ),
        final(state).wf(),
        final(picker).wf(),
{
    let ghost start = state@;
    let mut out: Vec<PumpAction> = Vec::new();
    proof {
        assert(actions_view(out@) =~= Seq::<ActionView>::empty());
    }
    act(&mut out, PumpAction::Fixing(fix.clone()));
    let left: [u8; 3] = [0x1B, 0x5B, 0x44];
    let right: [u8; 3] = [0x1B, 0x5B, 0x43];
    let back: [u8; 1] = [0x08];
    proof {
        assert(left@ =~= left_key());
        assert(right@ =~= right_key());
        assert(back@ =~= backspace_key());
    }
    let ghost c0 = Seq::<Seq<u8>>::empty();
    let ghost c1 = c0 + key_chunks(left_key(), fix.left_moves as int);
    let ghost c2 = c1 + key_chunks(right_key(), fix.right_moves as int);
    let ghost c3 = c2 + key_chunks(backspace_key(), fix.backspaces as int);
    press(state, &left, fix.left_moves, &mut out, Ghost(start), Ghost(c0));
    press(state, &right, fix.right_moves, &mut out, Ghost(start), Ghost(c1));
    press(state, &back, fix.backspaces, &mut out, Ghost(start), Ghost(c2));
    let ghost lead = seq![ActionView::Fixing(fix@)] + to_child(edit_chunks(fix@));
    let ghost edited = start.buffer.fed_all(flat(edit_chunks(fix@))).0;
    proof {
        assert(c3 =~= edit_chunks(fix@));
        assert(actions_view(out@) =~= lead);
        fed_in_turn_feeds_all(start, c3, state@);
    }
    let bytes = fix.replacement_text.as_str().as_bytes();
    let ghost chunks = byte_chunks(bytes@);
    let mut i: usize = 0;
    proof {
        assert(c3 + chunks.take(0) =~= c3);
        assert(bytes@.take(0) =~= Seq::<u8>::empty());
        assert(lead + typed_actions(edited, bytes@, 0) =~= lead);
    }
    while i < bytes.len()
        invariant
            i <= bytes@.len(),
            chunks == byte_chunks(bytes@),
            state.wf(),
            fed_in_turn(start, c3 + chunks.take(i as int), state@),
            state@.buffer == edited.fed_all(bytes@.take(i as int)).0,
            actions_view(out@) == lead + typed_actions(edited, bytes@, i as int),
        decreases bytes@.len() - i,
    {
        let byte: u8 = bytes[i];
        let ghost mid = state@;
        let ground = state.buffer().is_ground();
        let cursor: usize = state.buffer().char_cursor();
        let mut one: Vec<u8> = Vec::new();
        one.push(byte);
        proof {
            assert(one@ =~= seq![byte]);
        }
        let _ = state.feed_bytes(one.as_slice());
        emit_typed(&mut out, ground, cursor, byte, Ghost(mid.buffer));
        act(&mut out, PumpAction::ToChild(one));
        i += 1;
        proof {
            feed_one_more(start, c3 + chunks.take(i - 1), mid, seq![byte], state@);
            assert((c3 + chunks.take(i - 1)).push(seq![byte]) =~= c3 + chunks.take(i as int));
            assert(bytes@.take(i as int).drop_last() =~= bytes@.take(i - 1));
            feed_one(mid.buffer, byte);
            assert(actions_view(out@) =~= lead + typed_actions(edited, bytes@, i as int));
        }
    }
    proof {
        assert(chunks.take(i as int) =~= chunks);
    }
    picker.note_buffer(state.buffer().text().unicode_len());
    act(&mut out, emit_lints(state));
    act(&mut out, PumpAction::Emit(RenderEvent::ForcePaint));
    act(&mut out, PumpAction::Flush);
    proof {
        assert(actions_view(out@) =~= fix_actions(start, fix@, state@));
    }
    out
}

proof fn feed_one(m: BufferModel, byte: u8)
    ensures
        m.fed_all(seq![byte]).0 == m.fed(byte).0,
        m.fed_all(seq![byte]).1 == m.fed(byte).1,
{
    reveal_with_fuel(BufferModel::fed_all, 2);
    assert(seq![byte].drop_last() =~= Seq::<u8>::empty());
}

/// Chunks fed in turn leave the buffer that all their bytes leave.
pub proof fn fed_in_turn_feeds_all(before: InputModel, chunks: Seq<Seq<u8>>, after: InputModel)
    requires
        fed_in_turn(before, chunks, after),
    ensures
        after.buffer == before.buffer.fed_all(flat(chunks)).0,
        after.dict == before.dict,
    decreases chunks.len(),
{
    if chunks.len() > 0 {
        let mid = choose|mid: InputModel|
            fed_in_turn(before, chunks.drop_last(), mid) && #[trigger] mid.feeds_to(
                chunks.last(),
                after,
            );
        fed_in_turn_feeds_all(before, chunks.drop_last(), mid);
        crate::buffer::fed_all_concat(before.buffer, flat(chunks.drop_last()), chunks.last());
    }
}

/// Closes the picker without applying anything.
fn picker_dismiss(picker: &mut PickerCtx) -> (r: Vec<PumpAction>)
    ensures
        final(picker)@ == old(picker)@.closed(),
        actions_view(r@) == if old(picker)@.engaged is Some {
            close_events()
        } else {
            Seq::empty()
        },
{
    let mut out: Vec<PumpAction> = Vec::new();
    let open = picker.engaged.is_some();
    picker.engaged = None;
    picker.esc = EscState::Ground;
    proof {
        assert(actions_view(out@) =~= Seq::<ActionView>::empty());
    }
    if open {
        emit_picker(&mut out, None);
        proof {
            assert(actions_view(out@) =~= close_events());
        }
    }
    out
}

/// The picker that Tab opens on the issue under the cursor, if any.
fn picker_engage(state: &InputState, picker: &PickerCtx, settings: &Settings) -> (r: Option<Engaged>)
    requires
        state.wf(),
    ensures
        engaged_view(r) == tab_engages(pump(*state, *picker), *settings),
        r matches Some(e) ==> e@.wf(),
{
    let cursor: usize = state.buffer().char_cursor();
    let chars: usize = state.buffer().text().unicode_len();
    if typing_forward_at_end(cursor, chars, picker.buffer_shrank) {
        return None;
    }
    match pick_target(state.issues(), cursor, settings.grammar) {
        Some(target) => engage_for(target),
        None => None,
    }
}

/// Shows the picker as it is now.
fn picker_resnap(engaged: &Engaged) -> (r: Vec<PumpAction>)
    ensures
        actions_view(r@) == show_events(engaged@),
{
    let mut out: Vec<PumpAction> = Vec::new();
    proof {
        assert(actions_view(out@) =~= Seq::<ActionView>::empty());
    }
    emit_picker(&mut out, Some(engaged.snapshot()));
    proof {
        assert(actions_view(out@) =~= show_events(engaged@));
    }
    out
}

/// The first issue that the picker was opened for.
fn find_target(issues: &[SpellIssue], engaged: &Engaged) -> (r: Option<usize>)
    ensures
        target_index(issues_view(issues@), engaged@) == match r {
            Some(i) => i as int,
            None => -1,
        },
        r matches Some(i) ==> i < issues@.len(),
{
    let ghost all = issues_view(issues@);
    let mut i: usize = 0;
    proof {
        assert(all.take(0) =~= Seq::<IssueView>::empty());
    }
    while i < issues.len()
        invariant
            i <= issues@.len(),
            all == issues_view(issues@),
            target_index(all.take(i as int), engaged@) == -1,
        decreases issues@.len() - i,
    {
        let issue = &issues[i];
        proof {
            assert(all.take(i + 1).drop_last() =~= all.take(i as int));
            assert(all.take(i + 1).last() == issue@);
        }
        if issue.char_start == engaged.target_char_start && issue.char_end
            == engaged.target_char_end && same_text(
            issue.word.as_str(),
            engaged.target_word.as_str(),
        ) {
            proof {
                target_index_prefix(all, i + 1, engaged@);
            }
            return Some(i);
        }
        i += 1;
    }
    proof {
        assert(all.take(i as int) =~= all);
    }
    None
}

proof fn target_index_prefix(issues: Seq<IssueView>, k: int, e: EngagedView)
    requires
        0 <= k <= issues.len(),
        target_index(issues.take(k), e) >= 0,
    ensures
        target_index(issues, e) == target_index(issues.take(k), e),
    decreases issues.len() - k,
{
    if k == issues.len() {
        assert(issues.take(k) =~= issues);
    } else {
        assert(issues.take(k + 1).drop_last() =~= issues.take(k));
        target_index_prefix(issues, k + 1, e);
    }
}

/// Applies the selected suggestion and closes the picker. Where the issue is
/// gone, the picker closes and the buffer stays as it is.
fn picker_apply(state: &mut InputState, picker: &mut PickerCtx, engaged: &Engaged) -> (r: Vec<
    PumpAction,
>)
    requires
        old(state).wf(),
        old(picker).wf(),
        engaged@.wf(),
    ensures
        apply_step(
            pump(*old(state), *old(picker)),
            engaged@,
            pump(*final(state), *final(picker)),
            actions_view(r@),
        ),
        final(state).wf(),
        final(picker).wf(),
{
    let ghost before = pump(*state, *picker);
    picker.engaged = None;
    picker.esc = EscState::Ground;
    let mut out: Vec<PumpAction> = Vec::new();
    proof {
        assert(actions_view(out@) =~= Seq::<ActionView>::empty());
    }
    let fix = match find_target(state.issues(), engaged) {
        Some(i) => {
            let issue = &state.issues()[i];
            proof {
                assert(state@.issues[i as int] == issue@);
                assert(issue@.char_start < issue@.char_end);
            }
            build_fix(state, issue, engaged.selected_suggestion())
        },
        None => None,
    };
    proof {
        assert(crate::fix::fix_view(fix) == picked_fix(state@, engaged@));
    }
    if let Some(fix) = fix {
        out = apply_fix(state, picker, &fix);
    }
    let ghost typed = actions_view(out@);
    emit_picker(&mut out, None);
    proof {
        let acts = actions_view(out@);
        assert(acts =~= typed + close_events());
        assert(acts.take(acts.len() - 2) =~= typed);
        assert(acts.skip(acts.len() - 2) =~= close_events());
        if typed.len() == 0 {
            assert(acts =~= close_events());
        }
    }
    out
}

/// A byte with no open picker. Tab opens the picker or applies the best
/// suggestion, where that is turned on and there is something to fix.
fn handle_free_byte(
    byte: u8,
    state: &mut InputState,
    picker: &mut PickerCtx,
    settings: &Settings,
) -> (r: Vec<PumpAction>)
    requires
        old(state).wf(),
        old(picker).wf(),
        old(picker)@.engaged is None,
    ensures
        free_step(
            pump(*old(state), *old(picker)),
            byte,
            *settings,
            pump(*final(state), *final(picker)),
            actions_view(r@),
        ),
        final(state).wf(),
        final(picker).wf(),
{
    if byte == 0x09 && settings.tab_fix {
        if settings.picker {
            if let Some(engaged) = picker_engage(state, picker, settings) {
                let out = picker_resnap(&engaged);
                picker.engaged = Some(engaged);
                picker.esc = EscState::Ground;
                return out;
            }
        } else if let Some(fix) = try_tab_fix(state) {
            return apply_fix(state, picker, &fix);
        }
    }
    feed_plain(byte, state, picker)
}

/// Handles one byte of input and says what is to be done about it.
pub fn handle_byte(
    byte: u8,
    state: &mut InputState,
    picker: &mut PickerCtx,
    settings: &Settings,
) -> (r: Vec<PumpAction>)
    requires
        old(state).wf(),
        old(picker).wf(),
    ensures
        byte_step(
            pump(*old(state), *old(picker)),
            byte,
            *settings,
            pump(*final(state), *final(picker)),
            actions_view(r@),
        ),
        final(state).wf(),
        final(picker).wf(),
{
    let mut engaged = match picker.engaged.take() {
        Some(engaged) => engaged,
        None => return handle_free_byte(byte, state, picker, settings),
    };
    let ghost e = engaged@;
    proof {
        assert(actions_view(Seq::<PumpAction>::empty()) =~= Seq::<ActionView>::empty());
        if e.wf() {
            crate::picker::selection_moves_in_a_circle(e, 1);
            crate::picker::selection_moves_in_a_circle(e, -1);
        }
    }
    // Left and Right follow the layout of the overlay; Up, Down, Tab and
    // Shift-Tab move the selection too. Only Enter applies it.
    let step: isize = match picker.esc {
        EscState::Ground => match byte {
            0x1B => {
                picker.engaged = Some(engaged);
                picker.esc = EscState::SawEsc;
                return Vec::new();
            },
            0x0D | 0x0A => {
                return picker_apply(state, picker, &engaged);
            },
            0x09 => 1,
            _ => 0,
        },
        EscState::SawEsc => match byte {
            0x5B => {
                picker.engaged = Some(engaged);
                picker.esc = EscState::SawCsi;
                return Vec::new();
            },
            _ => 0,
        },
        EscState::SawCsi => match byte {
            0x41 | 0x44 | 0x5A => -1,
            0x42 | 0x43 => 1,
            _ => {
                // The two bytes before it were held back.
                let mut held: Vec<u8> = Vec::new();
                held.push(0x1B);
                held.push(0x5B);
                held.push(byte);
                picker.engaged = Some(engaged);
                let mut out = picker_dismiss(picker);
                proof {
                    assert(held@ =~= seq![0x1Bu8, 0x5B, byte]);
                }
                act(&mut out, PumpAction::ToChild(held));
                return out;
            },
        },
    };
    if step != 0 {
        engaged.nav(step);
        let out = picker_resnap(&engaged);
        picker.engaged = Some(engaged);
        picker.esc = EscState::Ground;
        return out;
    }
    picker.engaged = Some(engaged);
    let mut out = picker_dismiss(picker);
    let ghost closing = actions_view(out@);
    let mut rest = handle_free_byte(byte, state, picker, settings);
    let ghost after = actions_view(rest@);
    out.append(&mut rest);
    proof {
        let acts = actions_view(out@);
        assert(acts =~= closing + after);
        assert(acts.take(2) =~= closing);
        assert(acts.skip(2) =~= after);
    }
    out
}

/// What the end of a read chunk brings about: an Esc that nothing followed
/// closes the picker, and the child gets what was written.
pub open spec fn end_step(b: PickerModel, a: PickerModel, acts: Seq<ActionView>) -> bool {
    if b.engaged is Some && b.esc != EscState::Ground {
        a == b.closed() && acts == close_events().push(ActionView::Flush)
    } else {
        a == b && acts == seq![ActionView::Flush]
    }
}

/// Handles the end of a read chunk.
pub fn end_chunk(picker: &mut PickerCtx) -> (r: Vec<PumpAction>)
    requires
        old(picker).wf(),
    ensures
        end_step(old(picker)@, final(picker)@, actions_view(r@)),
        final(picker).wf(),
{
    let ground = match picker.esc {
        EscState::Ground => true,
        _ => false,
    };
    let mut out: Vec<PumpAction> = if picker.engaged.is_some() && !ground {
        picker_dismiss(picker)
    } else {
        Vec::new()
    };
    proof {
        assert(actions_view(Seq::<PumpAction>::empty()) =~= Seq::<ActionView>::empty());
        assert(Seq::<ActionView>::empty().push(ActionView::Flush) =~= seq![ActionView::Flush]);
    }
    act(&mut out, PumpAction::Flush);
    out
}

/// The input state after a pasted chunk was fed: line breaks in it are
/// content, and nothing is checked yet.
pub open spec fn pasted(m: InputModel, chunk: Seq<u8>) -> InputModel {
    let opened = InputModel { buffer: BufferModel { chunk_paste: true, ..m.buffer }, ..m };
    let fed = opened.deferred(chunk);
    InputModel { buffer: BufferModel { chunk_paste: false, ..fed.buffer }, ..fed }
}

/// Takes in a chunk that looks like a paste and hands it to the child as it
/// is. `finish_paste` is to follow once that is done, so that the child does
/// not wait for the spell check.
pub fn handle_paste_chunk(chunk: &[u8], state: &mut InputState) -> (r: Vec<PumpAction>)
    requires
        old(state).wf(),
    ensures
        final(state)@ == pasted(old(state)@, chunk@),
        actions_view(r@) == seq![ActionView::ToChild(chunk@), ActionView::Flush],
        final(state).wf(),
{
    state.set_chunk_paste(true);
    let _ = state.feed_bytes_deferred(chunk);
    state.set_chunk_paste(false);
    let mut out: Vec<PumpAction> = Vec::new();
    proof {
        assert(actions_view(out@) =~= Seq::<ActionView>::empty());
    }
    act(&mut out, PumpAction::ToChild(bytes_of(chunk)));
    act(&mut out, PumpAction::Flush);
    proof {
        assert(actions_view(out@) =~= seq![ActionView::ToChild(chunk@), ActionView::Flush]);
    }
    out
}

/// Checks the buffer once after a paste and reports it.
pub fn finish_paste(state: &mut InputState, picker: &mut PickerCtx) -> (r: Vec<PumpAction>)
    requires
        old(state).wf(),
        old(picker).wf(),
    ensures
        old(state)@.refreshes_to(final(state)@),
        final(picker)@ == old(picker)@.noted(old(state)@.buffer.text.len() as int),
        actions_view(r@) == seq![lints_event(final(state)@)],
        final(state).wf(),
        final(picker).wf(),
{
    state.refresh();
    picker.note_buffer(state.buffer().text().unicode_len());
    let mut out: Vec<PumpAction> = Vec::new();
    proof {
        assert(actions_view(out@) =~= Seq::<ActionView>::empty());
    }
    act(&mut out, emit_lints(state));
    proof {
        assert(actions_view(out@) =~= seq![lints_event(state@)]);
    }
    out
}

/// How many parts a read chunk is handled in: a paste in two, the second of
/// them for the check, anything else byte by byte, and one for the end.
pub open spec fn chunk_parts(chunk: Seq<u8>) -> int {
    if is_paste(chunk) {
        2
    } else {
        chunk.len() as int + 1
    }
}

/// What part `part` of a read chunk brings about.
pub open spec fn chunk_step(
    b: PumpModel,
    chunk: Seq<u8>,
    part: int,
    settings: Settings,
    a: PumpModel,
    acts: Seq<ActionView>,
) -> bool {
    if is_paste(chunk) {
        if part == 0 {
            &&& a.input == pasted(b.input, chunk)
            &&& a.picker == b.picker
            &&& acts == seq![ActionView::ToChild(chunk), ActionView::Flush]
        } else {
            &&& b.input.refreshes_to(a.input)
            &&& a.picker == b.picker.noted(b.input.buffer.text.len() as int)
            &&& acts == seq![lints_event(a.input)]
        }
    } else if part < chunk.len() {
        byte_step(b, chunk[part], settings, a, acts)
    } else {
        &&& a.input == b.input
        &&& end_step(b.picker, a.picker, acts)
    }
}

/// Handles one part of a read chunk and says what is to be done about it
/// before the next part; none where the chunk is done. In parts, so that the
/// child never waits for a spell check that its bytes do not need.
pub fn handle_chunk_part(
    chunk: &[u8],
    part: usize,
    state: &mut InputState,
    picker: &mut PickerCtx,
    settings: &Settings,
) -> (r: Option<Vec<PumpAction>>)
    requires
        old(state).wf(),
        old(picker).wf(),
    ensures
        match r {
            Some(acts) => part < chunk_parts(chunk@) && chunk_step(
                pump(*old(state), *old(picker)),
                chunk@,
                part as int,
                *settings,
                pump(*final(state), *final(picker)),
                actions_view(acts@),
            ),
            None => part >= chunk_parts(chunk@) && *final(state) == *old(state) && *final(picker)
                == *old(picker),
        },
        final(state).wf(),
        final(picker).wf(),
{
    if chunk_looks_like_paste(chunk) {
        if part == 0 {
            Some(handle_paste_chunk(chunk, state))
        } else if part == 1 {
            Some(finish_paste(state, picker))
        } else {
            None
        }
    } else if part < chunk.len() {
        Some(handle_byte(chunk[part], state, picker, settings))
    } else if part == chunk.len() {
        Some(end_chunk(picker))
    } else {
        None
    }
}

/// All bytes that go to the child.
pub open spec fn child_bytes(acts: Seq<ActionView>) -> Seq<u8>
    decreases acts.len(),
{
    if acts.len() == 0 {
        Seq::empty()
    } else {
        child_bytes(acts.drop_last()) + match acts.last() {
            ActionView::ToChild(bytes) => bytes,
            _ => Seq::empty(),
        }
    }
}

proof fn child_bytes_concat(a: Seq<ActionView>, b: Seq<ActionView>)
    ensures
        child_bytes(a + b) == child_bytes(a) + child_bytes(b),
    decreases b.len(),
{
    if b.len() == 0 {
        assert(a + b =~= a);
        assert(child_bytes(a) + child_bytes(b) =~= child_bytes(a));
    } else {
        child_bytes_concat(a, b.drop_last());
        assert((a + b).drop_last() =~= a + b.drop_last());
        assert(child_bytes(a + b) =~= child_bytes(a) + child_bytes(b));
    }
}

proof fn events_reach_no_child(acts: Seq<ActionView>)
    requires
        forall|i: int| 0 <= i < acts.len() ==> !((#[trigger] acts[i]) is ToChild),
    ensures
        child_bytes(acts) == Seq::<u8>::empty(),
    decreases acts.len(),
{
    if acts.len() > 0 {
        let rest = acts.drop_last();
        assert forall|i: int| 0 <= i < rest.len() implies !((#[trigger] rest[i]) is ToChild) by {
            assert(rest[i] == acts[i]);
        }
        events_reach_no_child(rest);
        assert(!(acts[acts.len() - 1] is ToChild));
        assert(child_bytes(acts) =~= Seq::<u8>::empty());
    }
}

/// A byte that nothing intercepts reaches the child as it is.
pub proof fn plain_byte_reaches_child(b: PumpModel, byte: u8, a: PumpModel, acts: Seq<ActionView>)
    requires
        plain_step(b, byte, a, acts),
    ensures
        child_bytes(acts) == seq![byte],
{
    let events = acts.drop_last();
    assert forall|i: int| 0 <= i < events.len() implies !((#[trigger] events[i]) is ToChild) by {}
    events_reach_no_child(events);
    assert(child_bytes(acts) =~= seq![byte]);
}

/// With Tab left to the child, input passes through byte for byte and the
/// picker never opens.
pub proof fn passthrough_is_byte_for_byte(
    b: PumpModel,
    byte: u8,
    settings: Settings,
    a: PumpModel,
    acts: Seq<ActionView>,
)
    requires
        !settings.tab_fix,
        b.picker.engaged is None,
        byte_step(b, byte, settings, a, acts),
    ensures
        child_bytes(acts) == seq![byte],
        a.picker.engaged is None,
{
    plain_byte_reaches_child(b, byte, a, acts);
}

/// What all parts of a chunk bring about, one after the other.
pub open spec fn all_parts(parts: Seq<Seq<ActionView>>) -> Seq<ActionView>
    decreases parts.len(),
{
    if parts.len() == 0 {
        Seq::empty()
    } else {
        all_parts(parts.drop_last()) + parts.last()
    }
}

/// Whether a chunk leads through these states and brings about these actions.
pub open spec fn is_chunk_run(
    chunk: Seq<u8>,
    settings: Settings,
    states: Seq<PumpModel>,
    parts: Seq<Seq<ActionView>>,
) -> bool {
    &&& states.len() == parts.len() + 1
    &&& parts.len() <= chunk_parts(chunk)
    &&& forall|k: int|
        0 <= k < parts.len() ==> chunk_step(
            states[k],
            chunk,
            k,
            settings,
            states[k + 1],
            #[trigger] parts[k],
        )
}

/// With Tab left to the child, a chunk passes through byte for byte, whether
/// it is typed or pasted, and the picker never opens.
pub proof fn chunk_passes_through(
    chunk: Seq<u8>,
    settings: Settings,
    states: Seq<PumpModel>,
    parts: Seq<Seq<ActionView>>,
)
    requires
        !settings.tab_fix,
        is_chunk_run(chunk, settings, states, parts),
        states[0].picker.engaged is None,
        parts.len() == chunk_parts(chunk),
    ensures
        child_bytes(all_parts(parts)) == chunk,
        states.last().picker.engaged is None,
{
    part_passes_through(chunk, settings, states, parts);
}

/// The same for the first parts of a chunk.
proof fn part_passes_through(
    chunk: Seq<u8>,
    settings: Settings,
    states: Seq<PumpModel>,
    parts: Seq<Seq<ActionView>>,
)
    requires
        !settings.tab_fix,
        is_chunk_run(chunk, settings, states, parts),
        states[0].picker.engaged is None,
    ensures
        child_bytes(all_parts(parts)) == if parts.len() == 0 {
            Seq::empty()
        } else if is_paste(chunk) || parts.len() > chunk.len() {
            chunk
        } else {
            chunk.take(parts.len() as int)
        },
        states.last().picker.engaged is None,
    decreases parts.len(),
{
    if parts.len() > 0 {
        let n = parts.len() - 1;
        let last = parts[n];
        let before = parts.drop_last();
        let early = states.drop_last();
        assert forall|k: int| 0 <= k < before.len() implies chunk_step(
            early[k],
            chunk,
            k,
            settings,
            early[k + 1],
            #[trigger] before[k],
        ) by {
            assert(before[k] == parts[k]);
        }
        part_passes_through(chunk, settings, early, before);
        child_bytes_concat(all_parts(before), last);
        assert(chunk_step(states[n], chunk, n, settings, states[n + 1], parts[n]));
        assert(early.last() == states[n]);
        if is_paste(chunk) {
            if n == 0 {
                let sent = seq![ActionView::ToChild(chunk)];
                assert(last =~= sent + seq![ActionView::Flush]);
                child_bytes_concat(sent, seq![ActionView::Flush]);
                assert(sent.drop_last() =~= Seq::<ActionView>::empty());
                assert(child_bytes(sent.drop_last()) =~= Seq::<u8>::empty());
                events_reach_no_child(seq![ActionView::Flush]);
                assert(child_bytes(last) =~= chunk);
            } else {
                events_reach_no_child(last);
            }
        } else if n < chunk.len() {
            passthrough_is_byte_for_byte(states[n], chunk[n], settings, states[n + 1], last);
            assert(chunk.take(n + 1) =~= chunk.take(n) + seq![chunk[n]]);
        } else {
            events_reach_no_child(last);
            assert(chunk.take(n) =~= chunk);
        }
        assert(child_bytes(all_parts(parts)) =~= child_bytes(all_parts(before)) + child_bytes(last));
        if n == 0 {
            assert(chunk.take(0) =~= Seq::<u8>::empty());
        }
    }
}

/// Every byte but Tab passes through as it is while no picker is open.
pub proof fn all_but_tab_pass_through(
    b: PumpModel,
    byte: u8,
    settings: Settings,
    a: PumpModel,
    acts: Seq<ActionView>,
)
    requires
        byte != 0x09,
        b.picker.engaged is None,
        byte_step(b, byte, settings, a, acts),
    ensures
        child_bytes(acts) == seq![byte],
{
    plain_byte_reaches_child(b, byte, a, acts);
}

/// Whether an open picker takes a byte as a key of its own that moves the
/// selection or may begin such a key.
pub open spec fn is_picker_key(esc: EscState, byte: u8) -> bool {
    match esc {
        EscState::Ground => byte == 0x1B || byte == 0x09,
        EscState::SawEsc => byte == 0x5B,
        EscState::SawCsi => 0x41 <= byte <= 0x44 || byte == 0x5A,
    }
}

/// The keys of an open picker reach neither the child nor the buffer.
pub proof fn picker_keys_stay_in_picker(
    b: PumpModel,
    byte: u8,
    settings: Settings,
    a: PumpModel,
    acts: Seq<ActionView>,
)
    requires
        b.picker.engaged is Some,
        is_picker_key(b.picker.esc, byte),
        byte_step(b, byte, settings, a, acts),
    ensures
        child_bytes(acts) == Seq::<u8>::empty(),
        a.input == b.input,
        a.picker.engaged is Some,
{
    assert forall|i: int| 0 <= i < acts.len() implies !((#[trigger] acts[i]) is ToChild) by {}
    events_reach_no_child(acts);
}

proof fn flat_concat(a: Seq<Seq<u8>>, b: Seq<Seq<u8>>)
    ensures
        flat(a + b) == flat(a) + flat(b),
    decreases b.len(),
{
    if b.len() == 0 {
        assert(a + b =~= a);
        assert(flat(a) + flat(b) =~= flat(a));
    } else {
        flat_concat(a, b.drop_last());
        assert((a + b).drop_last() =~= a + b.drop_last());
        assert(flat(a + b) =~= flat(a) + flat(b));
    }
}

proof fn flat_keys(key: Seq<u8>, count: int)
    requires
        0 <= count,
    ensures
        flat(key_chunks(key, count)) == repeated(key, count),
    decreases count,
{
    if count > 0 {
        flat_keys(key, count - 1);
        assert(key_chunks(key, count).drop_last() =~= key_chunks(key, count - 1));
    }
}

proof fn flat_bytes(bytes: Seq<u8>)
    ensures
        flat(byte_chunks(bytes)) == bytes,
    decreases bytes.len(),
{
    if bytes.len() > 0 {
        flat_bytes(bytes.drop_last());
        assert(byte_chunks(bytes).drop_last() =~= byte_chunks(bytes.drop_last()));
        assert(bytes.drop_last() + seq![bytes.last()] =~= bytes);
    } else {
        assert(flat(byte_chunks(bytes)) =~= bytes);
    }
}

/// A fix key by key is the fix as one stream of keystrokes.
pub proof fn fix_chunks_are_keystrokes(fix: FixView)
    requires
        0 <= fix.left_moves,
        0 <= fix.right_moves,
        0 <= fix.backspaces,
    ensures
        flat(fix_chunks(fix)) == keystrokes(fix),
{
    let lefts = key_chunks(left_key(), fix.left_moves);
    let rights = key_chunks(right_key(), fix.right_moves);
    let backs = key_chunks(backspace_key(), fix.backspaces);
    let bytes = encode_utf8(fix.replacement_text);
    flat_concat(lefts, rights);
    flat_concat(lefts + rights, backs);
    flat_concat(edit_chunks(fix), byte_chunks(bytes));
    flat_keys(left_key(), fix.left_moves);
    flat_keys(right_key(), fix.right_moves);
    flat_keys(backspace_key(), fix.backspaces);
    flat_bytes(bytes);
}

proof fn chunks_reach_child(chunks: Seq<Seq<u8>>)
    ensures
        child_bytes(to_child(chunks)) == flat(chunks),
    decreases chunks.len(),
{
    if chunks.len() > 0 {
        chunks_reach_child(chunks.drop_last());
        assert(to_child(chunks).drop_last() =~= to_child(chunks.drop_last()));
    }
}

proof fn typed_bytes_reach_child(m: BufferModel, bytes: Seq<u8>, k: int)
    requires
        0 <= k <= bytes.len(),
    ensures
        child_bytes(typed_actions(m, bytes, k)) == bytes.take(k),
    decreases k,
{
    if k > 0 {
        typed_bytes_reach_child(m, bytes, k - 1);
        let event = typed_event(m.fed_all(bytes.take(k - 1)).0, bytes[k - 1]);
        let last = event.push(ActionView::ToChild(seq![bytes[k - 1]]));
        child_bytes_concat(typed_actions(m, bytes, k - 1), last);
        assert(last.drop_last() =~= event);
        events_reach_no_child(event);
        assert(child_bytes(last) =~= seq![bytes[k - 1]]);
        assert(bytes.take(k) =~= bytes.take(k - 1) + seq![bytes[k - 1]]);
    } else {
        assert(child_bytes(typed_actions(m, bytes, k)) =~= bytes.take(k));
    }
}

/// The child gets exactly the keystrokes of a fix, and the buffer gets the
/// same.
pub proof fn fix_reaches_child_and_buffer(
    b: PumpModel,
    fix: FixView,
    a: PumpModel,
    acts: Seq<ActionView>,
)
    requires
        0 <= fix.left_moves,
        0 <= fix.right_moves,
        0 <= fix.backspaces,
        fix_step(b, fix, a, acts),
    ensures
        child_bytes(acts) == keystrokes(fix),
        a.input.buffer == b.input.buffer.fed_all(keystrokes(fix)).0,
{
    fix_chunks_are_keystrokes(fix);
    fed_in_turn_feeds_all(b.input, fix_chunks(fix), a.input);
    let edited = b.input.buffer.fed_all(flat(edit_chunks(fix))).0;
    let bytes = encode_utf8(fix.replacement_text);
    let n = bytes.len() as int;
    let head = seq![ActionView::Fixing(fix)];
    let tail = seq![
        lints_event(a.input),
        ActionView::Emit(RenderEventView::ForcePaint),
        ActionView::Flush,
    ];
    child_bytes_concat(head, to_child(edit_chunks(fix)));
    child_bytes_concat(head + to_child(edit_chunks(fix)), typed_actions(edited, bytes, n));
    child_bytes_concat(
        head + to_child(edit_chunks(fix)) + typed_actions(edited, bytes, n),
        tail,
    );
    events_reach_no_child(head);
    events_reach_no_child(tail);
    chunks_reach_child(edit_chunks(fix));
    typed_bytes_reach_child(edited, bytes, n);
    flat_concat(edit_chunks(fix), byte_chunks(bytes));
    flat_bytes(bytes);
    assert(bytes.take(n) =~= bytes);
    assert(child_bytes(acts) =~= keystrokes(fix));
}

/// Tab replaces the most recent misspelling by its first suggestion and keeps
/// the text around it; the child gets keystrokes that do the same.
pub proof fn tab_replaces_misspelling(
    b: PumpModel,
    settings: Settings,
    a: PumpModel,
    acts: Seq<ActionView>,
)
    requires
        b.wf(),
        b.input.buffer.is_ground(),
        settings.tab_fix,
        !settings.picker,
        b.picker.engaged is None,
        byte_step(b, 0x09, settings, a, acts),
        tab_fix(b.input.buffer, b.input.issues) is Some,
        ({
            let issue = crate::fix::fixable(b.input.buffer, b.input.issues)->0;
            &&& 0 <= issue.char_start <= issue.char_end
            &&& forall|i: int|
                0 <= i < issue.suggestions[0].len() ==> crate::buffer::is_printable(
                    #[trigger] issue.suggestions[0][i],
                )
        }),
    ensures
        ({
            let issue = crate::fix::fixable(b.input.buffer, b.input.issues)->0;
            let text = b.input.buffer.text;
            &&& a.input.buffer.text == text.take(issue.char_start) + issue.suggestions[0]
                + text.skip(issue.char_end)
            &&& a.input.buffer.cursor == a.input.buffer.text.len()
            &&& child_bytes(acts) == keystrokes(tab_fix(b.input.buffer, b.input.issues)->0)
        }),
{
    let issue = crate::fix::fixable(b.input.buffer, b.input.issues)->0;
    let fix = tab_fix(b.input.buffer, b.input.issues)->0;
    crate::fix::fix_replaces_span(b.input.buffer, issue, issue.suggestions[0]);
    fix_reaches_child_and_buffer(b, fix, a, acts);
}

/// Enter in an open picker replaces the word that it was opened for by the
/// selected suggestion, keeps the text around it and closes the picker.
pub proof fn enter_replaces_target(
    b: PumpModel,
    byte: u8,
    settings: Settings,
    a: PumpModel,
    acts: Seq<ActionView>,
)
    requires
        b.wf(),
        b.input.buffer.is_ground(),
        byte == 0x0D || byte == 0x0A,
        b.picker.esc == EscState::Ground,
        b.picker.engaged is Some,
        byte_step(b, byte, settings, a, acts),
        picked_fix(b.input, b.picker.engaged->0) is Some,
        ({
            let e = b.picker.engaged->0;
            &&& 0 <= e.target_char_start <= e.target_char_end
            &&& forall|i: int|
                0 <= i < e.suggestions[e.selected].len() ==> crate::buffer::is_printable(
                    #[trigger] e.suggestions[e.selected][i],
                )
        }),
    ensures
        ({
            let e = b.picker.engaged->0;
            let text = b.input.buffer.text;
            &&& a.input.buffer.text == text.take(e.target_char_start) + e.suggestions[e.selected]
                + text.skip(e.target_char_end)
            &&& a.picker.engaged is None
            &&& child_bytes(acts) == keystrokes(picked_fix(b.input, e)->0)
        }),
{
    let e = b.picker.engaged->0;
    let fix = picked_fix(b.input, e)->0;
    let i = target_index(b.input.issues, e);
    target_index_found(b.input.issues, e);
    let issue = b.input.issues[i];
    crate::fix::fix_replaces_span(b.input.buffer, issue, e.suggestions[e.selected]);
    let n = acts.len() - 2;
    let closed = PumpModel { picker: b.picker.closed(), ..b };
    fix_reaches_child_and_buffer(closed, fix, a, acts.take(n));
    child_bytes_concat(acts.take(n), acts.skip(n));
    assert(acts.take(n) + acts.skip(n) =~= acts);
    events_reach_no_child(close_events());
    assert(child_bytes(acts) =~= keystrokes(fix));
}

proof fn target_index_found(issues: Seq<IssueView>, e: EngagedView)
    ensures
        target_index(issues, e) < issues.len(),
        target_index(issues, e) >= 0 ==> is_target(issues[target_index(issues, e)], e),
    decreases issues.len(),
{
    if issues.len() > 0 {
        target_index_found(issues.drop_last(), e);
    }
}

/// What the rendering side makes of actions for its own record of the buffer's
/// length: the last length, and whether it became shorter.
pub open spec fn told(t: (Option<usize>, bool), acts: Seq<ActionView>) -> (Option<usize>, bool)
    decreases acts.len(),
{
    if acts.len() == 0 {
        t
    } else {
        let before = told(t, acts.drop_last());
        match acts.last() {
            ActionView::Emit(RenderEventView::Input(event)) => match event {
                InputEventView::Lints { issues, buffer_chars, buffer_text, buffer_cursor } => (
                    Some(buffer_chars as usize),
                    shrank(before.0, buffer_chars as usize),
                ),
                InputEventView::Boundary => (None, false),
                _ => before,
            },
            _ => before,
        }
    }
}

proof fn told_concat(t: (Option<usize>, bool), a: Seq<ActionView>, b: Seq<ActionView>)
    ensures
        told(t, a + b) == told(told(t, a), b),
    decreases b.len(),
{
    if b.len() == 0 {
        assert(a + b =~= a);
    } else {
        told_concat(t, a, b.drop_last());
        assert((a + b).drop_last() =~= a + b.drop_last());
    }
}

/// Whether an action says nothing of the buffer's length.
pub open spec fn is_silent(a: ActionView) -> bool {
    match a {
        ActionView::Emit(RenderEventView::Input(event)) => !(event is Lints) && !(event is Boundary),
        _ => true,
    }
}

proof fn silent_actions_track_nothing(t: (Option<usize>, bool), acts: Seq<ActionView>)
    requires
        forall|i: int| 0 <= i < acts.len() ==> is_silent(#[trigger] acts[i]),
    ensures
        told(t, acts) == t,
    decreases acts.len(),
{
    if acts.len() > 0 {
        let rest = acts.drop_last();
        assert forall|i: int| 0 <= i < rest.len() implies is_silent(#[trigger] rest[i]) by {
            assert(rest[i] == acts[i]);
        }
        silent_actions_track_nothing(t, rest);
        assert(is_silent(acts[acts.len() - 1]));
    }
}

pub open spec fn tracker(p: PickerModel) -> (Option<usize>, bool) {
    (p.last_buffer_chars, p.buffer_shrank)
}

proof fn typed_actions_are_silent(m: BufferModel, bytes: Seq<u8>, k: int)
    ensures
        forall|i: int|
            0 <= i < typed_actions(m, bytes, k).len() ==> is_silent(
                #[trigger] typed_actions(m, bytes, k)[i],
            ),
    decreases k,
{
    if k > 0 {
        typed_actions_are_silent(m, bytes, k - 1);
        let before = typed_actions(m, bytes, k - 1);
        assert forall|i: int| 0 <= i < typed_actions(m, bytes, k).len() implies is_silent(
            #[trigger] typed_actions(m, bytes, k)[i],
        ) by {
            if i < before.len() {
                assert(typed_actions(m, bytes, k)[i] == before[i]);
            }
        }
    }
}

proof fn fix_keeps_trackers(b: PumpModel, fix: FixView, a: PumpModel, acts: Seq<ActionView>)
    requires
        fix_step(b, fix, a, acts),
    ensures
        told(tracker(b.picker), acts) == tracker(a.picker),
{
    let t = tracker(b.picker);
    let bytes = encode_utf8(fix.replacement_text);
    let edited = b.input.buffer.fed_all(flat(edit_chunks(fix))).0;
    let typed = typed_actions(edited, bytes, bytes.len() as int);
    typed_actions_are_silent(edited, bytes, bytes.len() as int);
    let head = seq![ActionView::Fixing(fix)] + to_child(edit_chunks(fix)) + typed;
    let tail = seq![ActionView::Emit(RenderEventView::ForcePaint), ActionView::Flush];
    assert forall|i: int| 0 <= i < head.len() implies is_silent(#[trigger] head[i]) by {
        let k = 1 + edit_chunks(fix).len();
        if i >= k {
            assert(head[i] == typed[i - k]);
        }
    }
    silent_actions_track_nothing(t, head);
    let lints = seq![lints_event(a.input)];
    assert(acts =~= head + lints + tail);
    told_concat(t, head, lints);
    told_concat(t, head + lints, tail);
    silent_actions_track_nothing(tracker(a.picker), tail);
    assert(lints.drop_last() =~= Seq::<ActionView>::empty());
    assert(told(t, lints.drop_last()) == t);
    assert(told(t, lints) == tracker(a.picker));
}

/// The input side and the rendering side never drift apart: after every byte,
/// what the rendering side has been told of the buffer's length is what the
/// input side goes by.
pub proof fn trackers_agree(
    b: PumpModel,
    byte: u8,
    settings: Settings,
    a: PumpModel,
    acts: Seq<ActionView>,
)
    requires
        byte_step(b, byte, settings, a, acts),
    ensures
        told(tracker(b.picker), acts) == tracker(a.picker),
{
    let t = tracker(b.picker);
    let closed = PumpModel { picker: b.picker.closed(), ..b };
    match b.picker.engaged {
        None => {
            free_step_keeps_trackers(b, byte, settings, a, acts);
        },
        Some(e) => {
            if acts.len() >= 2 && acts.take(2) == close_events() {
                told_concat(t, acts.take(2), acts.skip(2));
                assert(acts.take(2) + acts.skip(2) =~= acts);
                silent_actions_track_nothing(t, acts.take(2));
            }
            if leave_step(b, byte, settings, a, acts) {
                free_step_keeps_trackers(closed, byte, settings, a, acts.skip(2));
            }
            if b.picker.esc == EscState::Ground && (byte == 0x0D || byte == 0x0A) {
                match picked_fix(b.input, e) {
                    Some(fix) => {
                        let n = acts.len() - 2;
                        fix_keeps_trackers(closed, fix, a, acts.take(n));
                        told_concat(t, acts.take(n), acts.skip(n));
                        assert(acts.take(n) + acts.skip(n) =~= acts);
                        silent_actions_track_nothing(tracker(a.picker), acts.skip(n));
                    },
                    None => {
                        silent_actions_track_nothing(t, acts);
                    },
                }
            } else if !leave_step(b, byte, settings, a, acts) {
                assert forall|i: int| 0 <= i < acts.len() implies is_silent(
                    #[trigger] acts[i],
                ) by {}
                silent_actions_track_nothing(t, acts);
            }
        },
    }
}

/// The report after a paste keeps both sides together too.
pub proof fn paste_keeps_trackers(picker: PickerModel, after: InputModel)
    ensures
        told(tracker(picker), seq![lints_event(after)]) == tracker(
            picker.noted(after.buffer.text.len() as int),
        ),
{
    let acts = seq![lints_event(after)];
    assert(acts.drop_last() =~= Seq::<ActionView>::empty());
    assert(told(tracker(picker), acts.drop_last()) == tracker(picker));
}

proof fn free_step_keeps_trackers(
    b: PumpModel,
    byte: u8,
    settings: Settings,
    a: PumpModel,
    acts: Seq<ActionView>,
)
    requires
        free_step(b, byte, settings, a, acts),
    ensures
        told(tracker(b.picker), acts) == tracker(a.picker),
{
    let t = tracker(b.picker);
    if plain_step(b, byte, a, acts) {
        let outcome = b.input.buffer.fed_all(seq![byte]).1;
        let events = acts.drop_last();
        if outcome == FeedOutcome::Updated {
            let typed = typed_event(b.input.buffer, byte);
            assert(events =~= typed.push(lints_event(a.input)));
            assert(events.drop_last() =~= typed);
            silent_actions_track_nothing(t, typed);
            assert(told(t, events) == tracker(a.picker));
        } else if outcome == FeedOutcome::Boundary {
            assert(events =~= seq![emit(InputEventView::Boundary)]);
            assert(told(t, events) == tracker(a.picker));
        } else {
            assert(events =~= Seq::<ActionView>::empty());
            assert(told(t, events) == t);
        }
    } else if settings.picker {
        assert forall|i: int| 0 <= i < acts.len() implies is_silent(#[trigger] acts[i]) by {}
        silent_actions_track_nothing(t, acts);
    } else {
        let fix = tab_fix(b.input.buffer, b.input.issues)->0;
        fix_keeps_trackers(b, fix, a, acts);
    }
}

/// A pasted text arrives whole: its line feeds are content like the rest, and
/// nothing is submitted.
pub proof fn pasted_text_arrives_whole(m: InputModel, s: Seq<char>)
    requires
        m.wf(),
        m.buffer.is_ground(),
        forall|i: int| 0 <= i < s.len() ==> crate::buffer::is_content(#[trigger] s[i]),
    ensures
        ({
            let after = pasted(m, encode_utf8(s));
            &&& after.buffer.text == m.buffer.text.take(m.buffer.cursor) + s
                + m.buffer.text.skip(m.buffer.cursor)
            &&& after.buffer.cursor == m.buffer.cursor + s.len()
            &&& after.issues == m.issues
            &&& after.buffer.is_ground()
            &&& !after.buffer.chunk_paste
        }),
{
    let opened = BufferModel { chunk_paste: true, ..m.buffer };
    assert forall|i: int| 0 <= i < s.len() implies crate::buffer::is_taken_in(
        opened,
        #[trigger] s[i],
    ) by {
        assert(crate::buffer::is_content(s[i]));
    }
    crate::buffer::typed_text_is_inserted(opened, s);
}

/// Chunks fed in turn keep the issues in step with the text.
pub proof fn fed_in_turn_keeps_sync(before: InputModel, chunks: Seq<Seq<u8>>, after: InputModel)
    requires
        before.buffer.wf(),
        before.in_sync(),
        fed_in_turn(before, chunks, after),
        forall|i: int| 0 <= i < chunks.len() ==> (#[trigger] chunks[i]).len() <= usize::MAX,
    ensures
        after.in_sync(),
        after.buffer.wf(),
    decreases chunks.len(),
{
    if chunks.len() > 0 {
        let rest = chunks.drop_last();
        let chunk = chunks.last();
        let mid = choose|mid: InputModel|
            fed_in_turn(before, rest, mid) && #[trigger] mid.feeds_to(chunk, after);
        assert forall|i: int| 0 <= i < rest.len() implies (#[trigger] rest[i]).len()
            <= usize::MAX by {
            assert(rest[i] == chunks[i]);
        }
        fed_in_turn_keeps_sync(before, rest, mid);
        assert(chunks[chunks.len() - 1].len() <= usize::MAX);
        crate::input::fed_bytes_keep_sync(mid, chunk, after);
    }
}

proof fn fix_keeps_sync(b: PumpModel, fix: FixView, a: PumpModel, acts: Seq<ActionView>)
    requires
        b.input.buffer.wf(),
        b.input.in_sync(),
        fix_step(b, fix, a, acts),
    ensures
        a.input.in_sync(),
{
    let chunks = fix_chunks(fix);
    let keys = edit_chunks(fix).len() as int;
    assert forall|i: int| 0 <= i < chunks.len() implies (#[trigger] chunks[i]).len()
        <= usize::MAX by {
        if i < keys {
            assert(chunks[i] == edit_chunks(fix)[i]);
            assert(chunks[i].len() <= 3);
        }
    }
    fed_in_turn_keeps_sync(b.input, chunks, a.input);
}

/// After every byte the issues belong to the text as it stands.
pub proof fn byte_keeps_sync(
    b: PumpModel,
    byte: u8,
    settings: Settings,
    a: PumpModel,
    acts: Seq<ActionView>,
)
    requires
        b.input.buffer.wf(),
        b.input.in_sync(),
        byte_step(b, byte, settings, a, acts),
    ensures
        a.input.in_sync(),
{
    let closed = PumpModel { picker: b.picker.closed(), ..b };
    match b.picker.engaged {
        None => {
            free_step_keeps_sync(b, byte, settings, a, acts);
        },
        Some(e) => {
            if leave_step(b, byte, settings, a, acts) {
                free_step_keeps_sync(closed, byte, settings, a, acts.skip(2));
            } else if b.picker.esc == EscState::Ground && (byte == 0x0D || byte == 0x0A) {
                if let Some(fix) = picked_fix(b.input, e) {
                    fix_keeps_sync(closed, fix, a, acts.take(acts.len() - 2));
                }
            }
        },
    }
}

proof fn free_step_keeps_sync(
    b: PumpModel,
    byte: u8,
    settings: Settings,
    a: PumpModel,
    acts: Seq<ActionView>,
)
    requires
        b.input.buffer.wf(),
        b.input.in_sync(),
        free_step(b, byte, settings, a, acts),
    ensures
        a.input.in_sync(),
{
    if plain_step(b, byte, a, acts) {
        crate::input::fed_bytes_keep_sync(b.input, seq![byte], a.input);
    } else if !settings.picker {
        fix_keeps_sync(b, tab_fix(b.input.buffer, b.input.issues)->0, a, acts);
    }
}

/// After a pasted chunk and its check the issues belong to the text as it
/// stands.
pub proof fn paste_keeps_sync(m: InputModel, chunk: Seq<u8>, after: InputModel)
    requires
        m.buffer.wf(),
        m.in_sync(),
        chunk.len() <= usize::MAX,
        pasted(m, chunk).refreshes_to(after),
    ensures
        after.in_sync(),
{
    let opened = InputModel { buffer: BufferModel { chunk_paste: true, ..m.buffer }, ..m };
    let fed = opened.deferred(chunk);
    let closed = InputModel { buffer: fed.buffer, ..after };
    crate::input::deferred_feed_then_refresh(opened, chunk, closed);
}

/// Tab opens the picker exactly where the tooltip is shown or would be once
/// the cursor has rested: the rendering side, told of the same buffer, goes by
/// the same rule and comes to the same issue.
pub proof fn tab_opens_where_tooltip_shows(
    b: PumpModel,
    settings: Settings,
    o: crate::picker::OverlayModel,
    m: crate::echo::EchoModel,
    now: crate::clock::Instant,
    window: crate::clock::Duration,
)
    requires
        settings.picker,
        o.engaged_snapshot is None,
        o.rested(now, window),
        o.buffer_shrank == b.picker.buffer_shrank,
        m.lints == b.input.issues,
        m.buffer_cursor == b.input.buffer.cursor,
        m.buffer_chars == b.input.buffer.text.len(),
        forall|i: int|
            0 <= i < m.lints.len() && crate::spell::actionable(
                (#[trigger] m.lints[i]).category,
                settings.grammar,
            ) ==> m.lints[i].suggestions.len() > 0,
    ensures
        tab_engages(b, settings) == match o.hover_target(m, now, window, settings) {
            Some(i) => engaged_for(m.lints[i]),
            None => None,
        },
        tab_engages(b, settings) is Some <==> o.hover_target(m, now, window, settings) is Some,
{
    crate::picker::tab_engages_where_tooltip_shows(
        m.lints,
        m.buffer_cursor,
        settings.grammar,
    );
    if let Some(i) = picked(m.lints, m.buffer_cursor, settings.grammar) {
        assert(crate::picker::is_picked(m.lints, m.buffer_cursor, settings.grammar, i));
        assert(can_pick(m.lints[i], m.buffer_cursor, settings.grammar));
    }
}

/// Whether an action reports the buffer as it is: its text, its cursor and its
/// issues.
pub open spec fn reports(act: ActionView, m: InputModel) -> bool {
    act matches ActionView::Emit(RenderEventView::Input(event)) && (event matches InputEventView::Lints {
        issues,
        buffer_chars,
        buffer_text,
        buffer_cursor,
    } && issues == m.issues && buffer_chars == m.buffer.text.len() && buffer_text == m.buffer.text
        && buffer_cursor == m.buffer.cursor)
}

/// A byte other than Tab with no open picker is taken into the buffer; what it
/// did is reported before the child gets the byte.
pub proof fn typed_bytes_are_fed_and_reported(
    b: PumpModel,
    byte: u8,
    settings: Settings,
    a: PumpModel,
    acts: Seq<ActionView>,
)
    requires
        b.picker.engaged is None,
        byte != 0x09,
        byte_step(b, byte, settings, a, acts),
    ensures
        ({
            let (fed, outcome) = b.input.buffer.fed(byte);
            let n = acts.len() as int;
            &&& a.input.buffer == fed
            &&& a.picker.engaged is None
            &&& n >= 1 && acts[n - 1] == ActionView::ToChild(seq![byte])
            &&& outcome == FeedOutcome::Updated ==> n >= 2 && reports(acts[n - 2], a.input)
            &&& outcome == FeedOutcome::Boundary ==> n == 2 && acts[0] == ActionView::Emit(
                RenderEventView::Input(InputEventView::Boundary),
            )
            &&& outcome == FeedOutcome::NoChange ==> n == 1
            &&& outcome == FeedOutcome::Updated && b.input.buffer.is_ground() && 0x20 <= byte
                <= 0x7E ==> n == 3 && acts[0] == ActionView::Emit(
                RenderEventView::Input(
                    InputEventView::UserChar {
                        ch: byte as char,
                        char_offset: b.input.buffer.cursor,
                    },
                ),
            )
        }),
{
    assert(seq![byte].drop_last() =~= Seq::<u8>::empty());
    reveal_with_fuel(BufferModel::fed_all, 2);
}

/// Tab with the picker on, the cursor in a misspelling with suggestions and the
/// user not typing forward opens the picker on it: all suggestions are on
/// offer, the first is selected, and neither child nor buffer gets anything.
pub proof fn tab_opens_the_picker(
    b: PumpModel,
    settings: Settings,
    a: PumpModel,
    acts: Seq<ActionView>,
    i: int,
)
    requires
        b.picker.engaged is None,
        settings.tab_fix,
        settings.picker,
        byte_step(b, 0x09, settings, a, acts),
        b.input.buffer.cursor < b.input.buffer.text.len() || b.picker.buffer_shrank,
        0 <= i < b.input.issues.len(),
        crate::picker::can_engage(b.input.issues[i], b.input.buffer.cursor, settings.grammar),
    ensures
        a.input == b.input,
        child_bytes(acts) == Seq::<u8>::empty(),
        ({
            &&& a.picker.engaged matches Some(e)
            &&& e.selected == 0
            &&& exists|k: int|
                0 <= k < b.input.issues.len() && (#[trigger] b.input.issues[k]).suggestions
                    == e.suggestions && b.input.issues[k].word == e.target_word
                    && b.input.issues[k].char_start == e.target_char_start
                    && b.input.issues[k].char_end == e.target_char_end
                    && b.input.issues[i].char_start <= e.target_char_start
        }),
{
    let m = b.input;
    crate::picker::touched_issue_is_picked(m.issues, m.buffer.cursor, settings.grammar, i);
    let k = picked(m.issues, m.buffer.cursor, settings.grammar)->0;
    crate::picker::picker_offers_all_suggestions(m.issues[k]);
    assert forall|j: int| 0 <= j < acts.len() implies !((#[trigger] acts[j]) is ToChild) by {}
    events_reach_no_child(acts);
}

/// Tab goes to the child where it is left to it, where the user types forward
/// with the picker on, where the cursor touches nothing that can be picked, and
/// where there is nothing to fix.
pub proof fn tab_goes_to_the_child(
    b: PumpModel,
    settings: Settings,
    a: PumpModel,
    acts: Seq<ActionView>,
)
    requires
        b.picker.engaged is None,
        byte_step(b, 0x09, settings, a, acts),
        ({
            ||| !settings.tab_fix
            ||| settings.picker && b.input.buffer.cursor >= b.input.buffer.text.len()
                && !b.picker.buffer_shrank
            ||| settings.picker && forall|i: int|
                0 <= i < b.input.issues.len() ==> !crate::picker::can_engage(
                    #[trigger] b.input.issues[i],
                    b.input.buffer.cursor,
                    settings.grammar,
                )
            ||| !settings.picker && tab_fix(b.input.buffer, b.input.issues) is None
        }),
    ensures
        child_bytes(acts) == seq![0x09u8],
        a.picker.engaged is None,
{
    let m = b.input;
    if settings.tab_fix && settings.picker && !types_forward(
        m.buffer.cursor,
        m.buffer.text.len() as int,
        b.picker.buffer_shrank,
    ) {
        crate::picker::nothing_else_is_picked(m.issues, m.buffer.cursor, settings.grammar);
    }
    plain_byte_reaches_child(b, 0x09, a, acts);
}

/// Tab without the picker: with the cursor at the end, the misspelling that
/// starts last and stands on the last line is replaced by its first suggestion,
/// and everything around it stays.
pub proof fn tab_fixes_the_latest_misspelling(
    b: PumpModel,
    settings: Settings,
    a: PumpModel,
    acts: Seq<ActionView>,
    i: int,
)
    requires
        b.wf(),
        b.input.buffer.is_ground(),
        b.input.buffer.cursor == b.input.buffer.text.len(),
        settings.tab_fix,
        !settings.picker,
        b.picker.engaged is None,
        byte_step(b, 0x09, settings, a, acts),
        0 <= i < b.input.issues.len(),
        b.input.issues[i].category == crate::spell::IssueCategory::Spelling,
        crate::fix::is_on_last_line(b.input.buffer.text, b.input.issues[i]),
        crate::fix::has_top_suggestion(b.input.issues[i]),
        forall|k: int|
            0 <= k < b.input.issues[i].suggestions[0].len() ==> crate::buffer::is_printable(
                #[trigger] b.input.issues[i].suggestions[0][k],
            ),
        forall|j: int|
            0 <= j < b.input.issues.len() && j != i && (#[trigger] b.input.issues[j]).category
                == crate::spell::IssueCategory::Spelling ==> b.input.issues[j].char_start
                < b.input.issues[i].char_start || b.input.issues[j].char_end
                > b.input.buffer.text.len(),
    ensures
        ({
            let issue = b.input.issues[i];
            let text = b.input.buffer.text;
            a.input.buffer.text == text.take(issue.char_start) + issue.suggestions[0] + text.skip(
                issue.char_end,
            )
        }),
{
    let buffer = b.input.buffer;
    let issue = b.input.issues[i];
    crate::fix::latest_misspelling_is_fixed(buffer, b.input.issues, i);
    crate::fix::issues_on_the_last_line_can_be_fixed(buffer, issue, issue.suggestions[0]);
    let fix = tab_fix(buffer, b.input.issues)->0;
    crate::fix::fix_replaces_span(buffer, issue, issue.suggestions[0]);
    assert(fix_for(buffer, issue, issue.suggestions[0]) == Some(fix));
    fix_reaches_child_and_buffer(b, fix, a, acts);
}

/// The keys of an open picker: right, down and Tab go to the next suggestion,
/// left, up and Shift-Tab to the one before; the other end follows either end.
pub proof fn picker_keys_move_the_selection(
    b: PumpModel,
    byte: u8,
    settings: Settings,
    a: PumpModel,
    acts: Seq<ActionView>,
)
    requires
        b.picker.wf(),
        b.picker.engaged is Some,
        byte_step(b, byte, settings, a, acts),
        (b.picker.esc == EscState::Ground && byte == 0x09) || (b.picker.esc == EscState::SawCsi && (
        0x41 <= byte <= 0x44 || byte == 0x5A)),
    ensures
        ({
            let e = b.picker.engaged->0;
            let n = e.suggestions.len();
            let next = byte == 0x09 || byte == 0x42 || byte == 0x43;
            &&& a.picker.engaged matches Some(after)
            &&& after.suggestions == e.suggestions && after.target_word == e.target_word
            &&& a.picker.esc == EscState::Ground
            &&& next && e.selected + 1 < n ==> after.selected == e.selected + 1
            &&& next && e.selected + 1 == n ==> after.selected == 0
            &&& !next && e.selected > 0 ==> after.selected == e.selected - 1
            &&& !next && e.selected == 0 ==> after.selected == n - 1
            &&& acts.len() == 2 && (acts[0] matches ActionView::Emit(RenderEventView::Input(event))
                && (event matches InputEventView::PickerState(Some(snap)) && snap.selected
                == after.selected && snap.suggestions == e.suggestions && snap.target
                == e.target_word))
        }),
{
    crate::picker::selection_steps_by_one(b.picker.engaged->0);
}

/// Enter in an open picker applies the selected suggestion where the issue is
/// still there, on the last line.
pub proof fn enter_applies_the_selection(
    b: PumpModel,
    byte: u8,
    settings: Settings,
    a: PumpModel,
    acts: Seq<ActionView>,
    i: int,
)
    requires
        b.wf(),
        b.input.buffer.is_ground(),
        byte == 0x0D || byte == 0x0A,
        b.picker.esc == EscState::Ground,
        b.picker.engaged is Some,
        byte_step(b, byte, settings, a, acts),
        0 <= i < b.input.issues.len(),
        ({
            let e = b.picker.engaged->0;
            let issue = b.input.issues[i];
            &&& issue.char_start == e.target_char_start
            &&& issue.char_end == e.target_char_end
            &&& issue.word == e.target_word
            &&& crate::fix::is_on_last_line(b.input.buffer.text, issue)
            &&& forall|k: int|
                0 <= k < e.suggestions[e.selected].len() ==> crate::buffer::is_printable(
                    #[trigger] e.suggestions[e.selected][k],
                )
        }),
    ensures
        ({
            let e = b.picker.engaged->0;
            let text = b.input.buffer.text;
            &&& a.input.buffer.text == text.take(e.target_char_start) + e.suggestions[e.selected]
                + text.skip(e.target_char_end)
            &&& a.picker.engaged is None
        }),
{
    let e = b.picker.engaged->0;
    let m = b.input;
    target_exists(m.issues, e, i);
    target_index_found(m.issues, e);
    let k = target_index(m.issues, e);
    crate::fix::issues_on_the_last_line_can_be_fixed(
        m.buffer,
        m.issues[k],
        e.suggestions[e.selected],
    );
    enter_replaces_target(b, byte, settings, a, acts);
}

proof fn target_exists(issues: Seq<IssueView>, e: EngagedView, i: int)
    requires
        0 <= i < issues.len(),
        is_target(issues[i], e),
    ensures
        target_index(issues, e) >= 0,
    decreases issues.len(),
{
    if i < issues.len() - 1 {
        target_exists(issues.drop_last(), e, i);
    }
}

/// Esc in an open picker closes it at the end of the chunk; an escape sequence
/// that is no arrow closes it too and reaches the child whole.
pub proof fn escape_leaves_the_picker(
    b: PumpModel,
    byte: u8,
    settings: Settings,
    a: PumpModel,
    acts: Seq<ActionView>,
    end: PickerModel,
    last: Seq<ActionView>,
)
    requires
        b.picker.engaged is Some,
        byte_step(b, byte, settings, a, acts),
        end_step(a.picker, end, last),
    ensures
        b.picker.esc == EscState::Ground && byte == 0x1B ==> {
            &&& child_bytes(acts) == Seq::<u8>::empty()
            &&& a.input == b.input
            &&& end.engaged is None
            &&& child_bytes(last) == Seq::<u8>::empty()
        },
        b.picker.esc == EscState::SawCsi && !(0x41 <= byte <= 0x44) && byte != 0x5A ==> {
            &&& child_bytes(acts) == seq![0x1Bu8, 0x5B, byte]
            &&& a.input == b.input
            &&& a.picker.engaged is None
        },
{
    if b.picker.esc == EscState::Ground && byte == 0x1B {
        assert(acts =~= Seq::<ActionView>::empty());
        assert forall|j: int| 0 <= j < last.len() implies !((#[trigger] last[j]) is ToChild) by {}
        events_reach_no_child(last);
    }
    if b.picker.esc == EscState::SawCsi && !(0x41 <= byte <= 0x44) && byte != 0x5A {
        let sent = seq![ActionView::ToChild(seq![0x1Bu8, 0x5B, byte])];
        assert(acts =~= close_events() + sent);
        child_bytes_concat(close_events(), sent);
        events_reach_no_child(close_events());
        assert(sent.drop_last() =~= Seq::<ActionView>::empty());
        assert(child_bytes(sent.drop_last()) =~= Seq::<u8>::empty());
        assert(child_bytes(acts) =~= seq![0x1Bu8, 0x5B, byte]);
    }
}

/// The end of a chunk leaves the buffer and a picker without a pending Esc
/// alone, and lets the child have what was written.
pub proof fn end_of_chunk_flushes(b: PickerModel, a: PickerModel, acts: Seq<ActionView>)
    requires
        end_step(b, a, acts),
    ensures
        acts.len() > 0 && acts.last() == ActionView::Flush,
        b.esc == EscState::Ground ==> a == b,
        b.engaged is None ==> a == b,
        a.last_buffer_chars == b.last_buffer_chars && a.buffer_shrank == b.buffer_shrank,
{
}

proof fn body_len_props(chunk: Seq<u8>)
    ensures
        0 <= body_len(chunk) <= chunk.len(),
        body_len(chunk) > 0 ==> chunk[body_len(chunk) - 1] != 0x0A && chunk[body_len(chunk) - 1]
            != 0x0D,
        forall|i: int|
            body_len(chunk) <= i < chunk.len() ==> chunk[i] == 0x0A || chunk[i] == 0x0D,
    decreases chunk.len(),
{
    if chunk.len() > 0 && is_break(chunk.last()) {
        let init = chunk.drop_last();
        body_len_props(init);
        let n = body_len(chunk);
        if n > 0 {
            assert(init[n - 1] == chunk[n - 1]);
        }
        assert forall|i: int| n <= i < chunk.len() implies chunk[i] == 0x0A || chunk[i] == 0x0D by {
            if i < init.len() {
                assert(init[i] == chunk[i]);
            }
        }
    }
}

/// A chunk in which something follows a line break is a paste, and so are any
/// chunk of 64 bytes or more and one of 16 bytes or more that ends in a line
/// break.
pub proof fn several_lines_are_a_paste(chunk: Seq<u8>, i: int, j: int)
    requires
        (0 <= i < j < chunk.len() && (chunk[i] == 0x0A || chunk[i] == 0x0D) && chunk[j] != 0x0A
            && chunk[j] != 0x0D) || chunk.len() >= 64 || (chunk.len() >= 16 && (chunk.last() == 0x0A
            || chunk.last() == 0x0D)),
    ensures
        is_paste(chunk),
{
    body_len_props(chunk);
    if chunk.len() >= 64 {
    } else if chunk.len() >= 16 && (chunk.last() == 0x0A || chunk.last() == 0x0D) {
        if body_len(chunk) == chunk.len() {
            assert(chunk[chunk.len() - 1] == chunk.last());
        }
    } else {
        if body_len(chunk) <= j {
            assert(chunk[j] == 0x0A || chunk[j] == 0x0D);
        }
        assert(is_break(chunk[i]));
    }
}

/// Short typing is no paste: fewer than 64 bytes without a line break, and a
/// few keys with Enter at their end.
pub proof fn typing_is_no_paste(chunk: Seq<u8>, n: int)
    requires
        0 <= n <= chunk.len() < 64,
        forall|i: int| 0 <= i < n ==> (#[trigger] chunk[i]) != 0x0A && chunk[i] != 0x0D,
        forall|i: int| n <= i < chunk.len() ==> (#[trigger] chunk[i]) == 0x0A || chunk[i] == 0x0D,
        n == chunk.len() || chunk.len() < 16,
    ensures
        !is_paste(chunk),
{
    body_len_props(chunk);
    let k = body_len(chunk);
    assert(k == n) by {
        if k < n {
            assert(chunk[n - 1] != 0x0A && chunk[n - 1] != 0x0D);
        }
        if n < k {
            assert(chunk[k - 1] == 0x0A || chunk[k - 1] == 0x0D);
        }
    }
}

/// A paste reaches the child whole and at once, whatever Tab is set to, and
/// without the check: that comes with the second part, which reports the
/// buffer.
pub proof fn paste_reaches_the_child_first(
    b: PumpModel,
    chunk: Seq<u8>,
    settings: Settings,
    a: PumpModel,
    acts: Seq<ActionView>,
    end: PumpModel,
    last: Seq<ActionView>,
)
    requires
        is_paste(chunk),
        chunk_step(b, chunk, 0, settings, a, acts),
        chunk_step(a, chunk, 1, settings, end, last),
    ensures
        chunk_parts(chunk) == 2,
        child_bytes(acts) == chunk,
        acts.last() == ActionView::Flush,
        child_bytes(last) == Seq::<u8>::empty(),
        end.input.buffer == a.input.buffer,
        last.len() == 1 && reports(last[0], end.input),
        a.picker == b.picker,
{
    let sent = seq![ActionView::ToChild(chunk)];
    assert(acts =~= sent + seq![ActionView::Flush]);
    child_bytes_concat(sent, seq![ActionView::Flush]);
    assert(sent.drop_last() =~= Seq::<ActionView>::empty());
    assert(child_bytes(sent.drop_last()) =~= Seq::<u8>::empty());
    events_reach_no_child(seq![ActionView::Flush]);
    assert(child_bytes(acts) =~= chunk);
    events_reach_no_child(last);
}

/// The input side starts with no open picker.
pub proof fn picker_starts_closed()
    ensures
        PickerModel::init().engaged is None,
        PickerModel::init().esc == EscState::Ground,
        PickerModel::init().last_buffer_chars is None,
        !PickerModel::init().buffer_shrank,
{
}

/// The tracker of the input side: a buffer counts as shrunk exactly where it is
/// shorter than it was.
pub proof fn shrinking_is_noted(p: PickerModel, chars: usize)
    ensures
        p.last_buffer_chars matches Some(prev) ==> p.noted(chars as int).buffer_shrank == (chars
            < prev),
        p.last_buffer_chars is None ==> !p.noted(chars as int).buffer_shrank,
        p.noted(chars as int).last_buffer_chars == Some(chars),
        p.noted(chars as int).engaged == p.engaged,
{
}

/// Any other key closes an open picker and is then handled as usual: the child
/// gets it, and so does the buffer.
pub proof fn other_keys_close_the_picker(
    b: PumpModel,
    byte: u8,
    settings: Settings,
    a: PumpModel,
    acts: Seq<ActionView>,
)
    requires
        b.picker.engaged is Some,
        b.picker.esc == EscState::Ground,
        byte != 0x1B && byte != 0x0D && byte != 0x0A && byte != 0x09,
        byte_step(b, byte, settings, a, acts),
    ensures
        a.picker.engaged is None,
        a.input.buffer == b.input.buffer.fed(byte).0,
        child_bytes(acts) == seq![byte],
        acts[0] == ActionView::Emit(RenderEventView::Input(InputEventView::PickerState(None))),
{
    let closed = PumpModel { picker: b.picker.closed(), ..b };
    let rest = acts.skip(2);
    plain_byte_reaches_child(closed, byte, a, rest);
    child_bytes_concat(acts.take(2), rest);
    assert(acts.take(2) + rest =~= acts);
    events_reach_no_child(close_events());
    assert(child_bytes(acts) =~= seq![byte]);
    assert(acts[0] == acts.take(2)[0]);
    assert(seq![byte].drop_last() =~= Seq::<u8>::empty());
    reveal_with_fuel(BufferModel::fed_all, 2);
}

/// Enter in an open picker whose issue is gone closes it and types nothing.
pub proof fn enter_without_its_issue_only_closes(
    b: PumpModel,
    byte: u8,
    settings: Settings,
    a: PumpModel,
    acts: Seq<ActionView>,
)
    requires
        b.picker.engaged is Some,
        b.picker.esc == EscState::Ground,
        byte == 0x0D || byte == 0x0A,
        byte_step(b, byte, settings, a, acts),
        forall|i: int|
            0 <= i < b.input.issues.len() ==> (#[trigger] b.input.issues[i]).char_start
                != b.picker.engaged->0.target_char_start || b.input.issues[i].char_end
                != b.picker.engaged->0.target_char_end || b.input.issues[i].word
                != b.picker.engaged->0.target_word,
    ensures
        a.input == b.input,
        a.picker.engaged is None,
        child_bytes(acts) == Seq::<u8>::empty(),
{
    let e = b.picker.engaged->0;
    target_index_found(b.input.issues, e);
    events_reach_no_child(close_events());
}

/// A fix is reported: behind its keystrokes come the buffer as it is then, a
/// paint and a flush.
pub proof fn fix_is_reported(b: PumpModel, fix: FixView, a: PumpModel, acts: Seq<ActionView>)
    requires
        fix_step(b, fix, a, acts),
    ensures
        ({
            let n = acts.len() as int;
            &&& n >= 4
            &&& acts[0] == ActionView::Fixing(fix)
            &&& reports(acts[n - 3], a.input)
            &&& acts[n - 2] == ActionView::Emit(RenderEventView::ForcePaint)
            &&& acts[n - 1] == ActionView::Flush
        }),
{
}

} // verus!
