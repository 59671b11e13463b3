//! The rendering side: what each event does to the picture of the screen, and
//! what is written to the terminal for it.
//!
//! The child's output goes to the terminal as it is. Underlines and overlay
//! are drawn on ticks, once the user has paused, and at once where the input
//! side asks for it.

use crate::clock::{Duration, Instant};
use crate::config::Settings;
use crate::echo::{EchoMatcher, EchoModel};
use crate::event::{InputEvent, InputEventView, RenderEvent, RenderEventView, ScreenEvent};
use crate::grid::Cell;
use crate::paint::{build_annotations, gate_after, paint_bytes, paint_signature, signature_bytes};
use crate::paint::{annotation_bytes, key, keys, new_spans, painted_after, GateModel, PaintGate};
use crate::paint::PaintedSpan;
use crate::picker::{check_hover, paint_overlay, OverlayGate, OverlayModel};
use crate::screen::{parsed_actions, ScreenObserver, ScreenState};
use crate::spell::IssueView;
use crate::status::{build_status, status_text};
use std::collections::hash_map::DefaultHasher;
use vstd::prelude::*;
use vstd::std_specs::hash::DefaultHasherAdditionalSpecFns;
use vstd::utf8::encode_utf8;

verus! {

/// What a `Renderer` holds.
pub struct RenderModel {
    /// The chunks of output that the child has written so far.
    pub seen: Seq<Seq<u8>>,
    pub screen: ScreenState,
    pub echo: EchoModel,
    pub gate: GateModel,
    pub overlay: OverlayModel,
}

/// What an event brings about.
#[derive(Debug)]
pub struct RenderStep {
    /// What is written to the terminal.
    pub bytes: Vec<u8>,
    /// The cells that the child changed.
    pub events: Vec<ScreenEvent>,
    /// A paint that was waiting for the pause has been drawn.
    pub painted: bool,
    /// The child is gone.
    pub done: bool,
}

/// `after` is `before` with changes of the screen taken in one after the
/// other.
pub open spec fn echo_follows(before: EchoModel, events: Seq<ScreenEvent>, after: EchoModel) -> bool
    decreases events.len(),
{
    if events.len() == 0 {
        after == before
    } else {
        exists|mid: EchoModel|
            echo_follows(before, events.drop_last(), mid) && #[trigger] mid.screen_changes_to(
                events.last(),
                after,
            )
    }
}

/// The state of the painter after a paint was recorded.
pub open spec fn recorded(gate: GateModel, m: EchoModel, screen: ScreenState) -> GateModel {
    GateModel {
        last_paint_signature: DefaultHasher::spec_finish(seq![signature_bytes(m, screen)]),
        dirty: false,
        ..gate
    }
}

impl RenderModel {
    pub open spec fn init(cols: u16, rows: u16, pause: Duration) -> RenderModel {
        RenderModel {
            seen: Seq::empty(),
            screen: ScreenState::init(cols, rows),
            echo: EchoModel::init(),
            gate: GateModel::init(pause),
            overlay: OverlayModel::init(),
        }
    }

    pub open spec fn wf(self) -> bool {
        self.screen.wf() && self.echo.wf()
    }

    pub open spec fn dirtied(self) -> RenderModel {
        RenderModel { gate: GateModel { dirty: true, ..self.gate }, ..self }
    }

    /// The state after an event of the input side.
    pub open spec fn after_input(self, event: InputEventView, now: Instant) -> RenderModel {
        match event {
            InputEventView::PickerState(snapshot) => RenderModel {
                overlay: OverlayModel { engaged_snapshot: snapshot, ..self.overlay },
                ..self
            }.dirtied(),
            InputEventView::UserChar { ch, char_offset } => RenderModel {
                echo: self.echo.after_input(event),
                gate: GateModel { last_keystroke_at: Some(now), dirty: true, ..self.gate },
                ..self
            },
            InputEventView::Lints { issues, buffer_chars, buffer_text, buffer_cursor } => {
                RenderModel {
                    echo: self.echo.after_input(event),
                    overlay: self.overlay.noted(
                        buffer_cursor as usize,
                        buffer_chars as usize,
                        now,
                    ),
                    ..self
                }.dirtied()
            },
            InputEventView::Boundary => RenderModel {
                echo: self.echo.after_input(event),
                gate: GateModel { dirty: true, painted: Seq::empty(), ..self.gate },
                overlay: OverlayModel {
                    engaged_snapshot: None,
                    region: None,
                    ..self.overlay
                }.untracked(),
                ..self
            },
        }
    }

    /// The state after a change of the terminal's size. Cells and underlines
    /// are forgotten: the child is about to redraw everything.
    pub open spec fn resized(self, cols: u16, rows: u16) -> RenderModel {
        RenderModel {
            screen: self.screen.resized(cols, rows),
            echo: EchoModel { grid: Map::empty(), next_seq: 1, ..self.echo },
            gate: GateModel { dirty: true, painted: Seq::empty(), ..self.gate },
            ..self
        }
    }

    /// What is underlined now.
    pub open spec fn underlines(self, settings: Settings) -> Seq<u8> {
        paint_bytes(self.gate.painted, self.echo, self.screen, settings)
    }

    pub open spec fn underlined(self, settings: Settings) -> RenderModel {
        RenderModel { gate: gate_after(self.gate, self.echo, self.screen, settings), ..self }
    }

    /// What the overlay draws now.
    pub open spec fn overlays(self, settings: Settings) -> Seq<u8> {
        self.overlay.bytes(self.echo, self.screen, settings)
    }

    pub open spec fn overlaid(self, settings: Settings) -> RenderModel {
        RenderModel { overlay: self.overlay.drawn(self.echo, self.screen, settings), ..self }
    }

    /// The state after the hover was evaluated.
    pub open spec fn hovered(self, now: Instant, settings: Settings) -> RenderModel {
        RenderModel {
            overlay: self.overlay.hover_checked(self.echo, now, settings.hover, settings),
            ..self
        }
    }

    /// The first paint after a change, once the user has paused.
    pub open spec fn is_due(self, now: Instant) -> bool {
        self.gate.dirty && self.gate.paused(now)
    }

    pub open spec fn first_painted(self, now: Instant, settings: Settings) -> RenderModel {
        if self.is_due(now) {
            let after = self.underlined(settings);
            RenderModel { gate: recorded(after.gate, self.echo, self.screen), ..after }
        } else {
            self
        }
    }

    /// The underlines that a tick draws: those that are due, and, since the
    /// child may have wiped them, all of them again on every tick after the
    /// pause.
    pub open spec fn tick_underlines(self, now: Instant, settings: Settings) -> Seq<u8> {
        (if self.is_due(now) {
            self.underlines(settings)
        } else {
            Seq::empty()
        }) + (if self.gate.paused(now) {
            self.first_painted(now, settings).underlines(settings)
        } else {
            Seq::empty()
        })
    }

    pub open spec fn tick_underlined(self, now: Instant, settings: Settings) -> RenderModel {
        let first = self.first_painted(now, settings);
        if self.gate.paused(now) {
            first.underlined(settings)
        } else {
            first
        }
    }

    pub open spec fn ticked(self, now: Instant, settings: Settings) -> RenderModel {
        self.hovered(now, settings).tick_underlined(now, settings).overlaid(settings)
    }

    pub open spec fn tick_bytes(self, now: Instant, settings: Settings) -> Seq<u8> {
        let h = self.hovered(now, settings);
        h.tick_underlines(now, settings) + h.tick_underlined(now, settings).overlays(settings)
            + encode_utf8(status_text(self.echo, self.screen, settings))
    }
}

/// What an event does: the state after it and what is written for it.
pub open spec fn render_step(
    b: RenderModel,
    event: RenderEventView,
    now: Instant,
    settings: Settings,
    a: RenderModel,
    step: RenderStep,
) -> bool {
    &&& step.done == (event is PtyEof)
    &&& step.painted == (event is Tick && b.is_due(now) && b.underlines(settings).len() > 0)
    &&& !(event is PtyBytes) ==> step.events@.len() == 0
    &&& match event {
        RenderEventView::PtyBytes(bytes) => {
            let actions = parsed_actions(b.seen, bytes);
            &&& step.bytes@ == bytes
            &&& step.events@ == b.screen.all_changes(actions)
            &&& a.seen == b.seen.push(bytes)
            &&& a.screen == b.screen.after_all(actions)
            &&& echo_follows(b.echo, step.events@, a.echo)
            &&& a.gate == b.dirtied().gate
            &&& a.overlay == b.overlay
        },
        RenderEventView::Input(ev) => {
            &&& a == b.after_input(ev, now)
            &&& step.bytes@ == Seq::<u8>::empty()
        },
        RenderEventView::Tick => {
            &&& a == b.ticked(now, settings)
            &&& step.bytes@ == b.tick_bytes(now, settings)
        },
        RenderEventView::Resize { cols, rows } => {
            &&& a == b.resized(cols, rows)
            &&& step.bytes@ == Seq::<u8>::empty()
        },
        RenderEventView::ForcePaint => {
            &&& a == b.underlined(settings).overlaid(settings)
            &&& step.bytes@ == b.underlines(settings) + b.underlined(settings).overlays(settings)
        },
        RenderEventView::PtyEof => {
            &&& a == b
            &&& step.bytes@ == Seq::<u8>::empty()
        },
    }
}

pub struct Renderer {
    observer: ScreenObserver,
    matcher: EchoMatcher,
    gate: PaintGate,
    overlay: OverlayGate,
}

impl View for Renderer {
    type V = RenderModel;

    closed spec fn view(&self) -> RenderModel {
        RenderModel {
            seen: self.observer.seen(),
            screen: self.observer.screen(),
            echo: self.matcher@,
            gate: self.gate@,
            overlay: self.overlay@,
        }
    }
}

impl Renderer {
    pub open spec fn wf(&self) -> bool {
        self@.wf()
    }

    pub fn new(cols: u16, rows: u16, settings: &Settings) -> (r: Self)
        ensures
            r@ == RenderModel::init(cols, rows, settings.pause),
            r.wf(),
    {
        Renderer {
            observer: ScreenObserver::new(cols, rows),
            matcher: EchoMatcher::new(),
            gate: PaintGate::with_pause(settings.pause),
            overlay: OverlayGate::new(),
        }
    }

    pub fn screen(&self) -> (r: &ScreenState)
        ensures
            *r == self@.screen,
    {
        self.observer.state()
    }

    pub fn matcher(&self) -> (r: &EchoMatcher)
        ensures
            r@ == self@.echo,
    {
        &self.matcher
    }

    /// Takes in changes of the screen.
    fn follow(&mut self, events: &Vec<ScreenEvent>)
        requires
            old(self).wf(),
        ensures
            echo_follows(old(self)@.echo, events@, final(self)@.echo),
            final(self)@ == (RenderModel { echo: final(self)@.echo, ..old(self)@ }),
            final(self).wf(),
    {
        let mut i: usize = 0;
        proof {
            assert(events@.take(0) =~= Seq::<ScreenEvent>::empty());
        }
        while i < events.len()
            invariant
                i <= events@.len(),
                self.wf(),
                echo_follows(old(self)@.echo, events@.take(i as int), self@.echo),
                self@ == (RenderModel { echo: self@.echo, ..old(self)@ }),
            decreases events@.len() - i,
        {
            let ghost mid = self@.echo;
            self.matcher.apply_screen_event(&events[i]);
            i += 1;
            proof {
                let now = events@.take(i as int);
                assert(now.drop_last() =~= events@.take(i - 1));
                assert(now.last() == events@[i - 1]);
                assert(mid.screen_changes_to(now.last(), self@.echo));
            }
        }
        proof {
            assert(events@.take(i as int) =~= events@);
        }
    }

    /// Takes in an event of the input side.
    fn apply_input(&mut self, event: InputEvent, now: Instant)
        requires
            old(self).wf(),
        ensures
            final(self)@ == old(self)@.after_input(event@, now),
            final(self).wf(),
    {
        match event {
            InputEvent::PickerState(snapshot) => {
                self.overlay.set_engaged(snapshot);
                self.gate.mark_dirty();
            },
            InputEvent::UserChar { ch, char_offset } => {
                self.matcher.apply_input(InputEvent::UserChar { ch, char_offset });
                self.gate.mark_keystroke(now);
            },
            InputEvent::Lints { issues, buffer_chars, buffer_text, buffer_cursor } => {
                self.overlay.note_buffer(buffer_cursor, buffer_chars, now);
                self.matcher.apply_input(
                    InputEvent::Lints { issues, buffer_chars, buffer_text, buffer_cursor },
                );
                self.gate.mark_dirty();
            },
            InputEvent::Boundary => {
                self.matcher.apply_input(InputEvent::Boundary);
                self.gate.mark_dirty();
                self.gate.forget_painted();
                self.overlay.set_engaged(None);
                self.overlay.region = None;
                self.overlay.reset_buffer_tracking();
            },
        }
    }

    fn underline(&mut self, settings: &Settings) -> (r: Vec<u8>)
        requires
            old(self).wf(),
        ensures
            r@ == old(self)@.underlines(*settings),
            final(self)@ == old(self)@.underlined(*settings),
            final(self).wf(),
    {
        build_annotations(&mut self.gate, &self.matcher, self.observer.state(), settings)
    }

    fn draw_overlay(&mut self, settings: &Settings) -> (r: Vec<u8>)
        requires
            old(self).wf(),
        ensures
            r@ == old(self)@.overlays(*settings),
            final(self)@ == old(self)@.overlaid(*settings),
            final(self).wf(),
    {
        paint_overlay(&mut self.overlay, &self.matcher, self.observer.state(), settings)
    }

    /// Draws what a tick draws. Says too whether a paint that was due has been
    /// drawn.
    fn tick(&mut self, now: Instant, settings: &Settings) -> (r: (Vec<u8>, bool))
        requires
            old(self).wf(),
        ensures
            r.0@ == old(self)@.tick_bytes(now, *settings),
            r.1 == (old(self)@.is_due(now) && old(self)@.underlines(*settings).len() > 0),
            final(self)@ == old(self)@.ticked(now, *settings),
            final(self).wf(),
    {
        let _ = check_hover(&mut self.overlay, &self.matcher, now, settings.hover, settings);
        let ghost h = self@;
        let mut out: Vec<u8> = Vec::new();
        let mut painted = false;
        if self.gate.should_paint(now) {
            let mut due = self.underline(settings);
            let signature: u64 = paint_signature(&self.matcher, self.observer.state());
            self.gate.record_paint(signature);
            painted = due.len() > 0;
            out.append(&mut due);
        }
        let ghost first = h.first_painted(now, *settings);
        proof {
            assert(self@ == first);
            assert(h.gate.paused(now) == first.gate.paused(now));
        }
        if self.gate.pause_elapsed(now) {
            let mut again = self.underline(settings);
            out.append(&mut again);
        }
        proof {
            assert(out@ =~= h.tick_underlines(now, *settings));
        }
        let mut overlay = self.draw_overlay(settings);
        out.append(&mut overlay);
        let mut status = build_status(&self.matcher, self.observer.state(), settings);
        out.append(&mut status);
        (out, painted)
    }

    /// Takes in one event and says what is written to the terminal for it.
    pub fn handle(&mut self, event: RenderEvent, now: Instant, settings: &Settings) -> (r: RenderStep)
        requires
            old(self).wf(),
        ensures
            render_step(old(self)@, event@, now, *settings, final(self)@, r),
            final(self).wf(),
    {
        let mut bytes: Vec<u8> = Vec::new();
        let mut events: Vec<ScreenEvent> = Vec::new();
        let mut painted = false;
        let mut done = false;
        match event {
            RenderEvent::PtyBytes(output) => {
                self.observer.observe_with_events(output.as_slice(), &mut events);
                proof {
                    assert(events@ =~= old(self)@.screen.all_changes(
                        parsed_actions(old(self)@.seen, output@),
                    ));
                }
                self.follow(&events);
                self.gate.mark_dirty();
                bytes = output;
            },
            RenderEvent::Input(input) => {
                self.apply_input(input, now);
            },
            RenderEvent::Tick => {
                let (drawn, due) = self.tick(now, settings);
                bytes = drawn;
                painted = due;
            },
            RenderEvent::Resize { cols, rows } => {
                self.observer.resize(cols, rows);
                self.matcher.clear_screen();
                self.gate.mark_dirty();
                self.gate.forget_painted();
            },
            RenderEvent::ForcePaint => {
                bytes = self.underline(settings);
                let mut overlay = self.draw_overlay(settings);
                bytes.append(&mut overlay);
            },
            RenderEvent::PtyEof => {
                done = true;
            },
        }
        RenderStep { bytes, events, painted, done }
    }
}

/// The child's output reaches the terminal byte for byte, whatever the
/// settings are.
pub proof fn output_passes_through(
    b: RenderModel,
    bytes: Seq<u8>,
    now: Instant,
    settings: Settings,
    a: RenderModel,
    step: RenderStep,
)
    requires
        render_step(b, RenderEventView::PtyBytes(bytes), now, settings, a, step),
    ensures
        step.bytes@ == bytes,
        !step.done,
{
}

/// Nothing is underlined on a tick before the pause after the last keystroke
/// is over.
pub proof fn no_underlines_while_typing(b: RenderModel, now: Instant, settings: Settings)
    requires
        !b.gate.paused(now),
    ensures
        b.tick_underlines(now, settings).len() == 0,
        b.tick_underlined(now, settings) == b,
{
}

/// With painting and picker off, the overlay writes nothing of its own: every
/// tick is silent once nothing is drawn any more.
pub proof fn off_means_silent(b: RenderModel, now: Instant, settings: Settings)
    requires
        !settings.paint,
        !settings.picker,
        b.overlay.region is None,
    ensures
        b.tick_bytes(now, settings).len() == 0,
        b.underlines(settings).len() == 0,
        b.overlays(settings).len() == 0,
        b.ticked(now, settings).overlay.region is None,
{
    assert(encode_utf8(Seq::<char>::empty()) =~= Seq::<u8>::empty());
}

/// The rendering side keeps its record of the buffer's length by the same rule
/// as the input side does.
pub proof fn overlay_follows_reports(b: RenderModel, event: InputEventView, now: Instant)
    ensures
        ({
            let a = b.after_input(event, now).overlay;
            let acts = seq![crate::pty::emit(event)];
            (a.last_buffer_chars, a.buffer_shrank) == crate::pty::told(
                (b.overlay.last_buffer_chars, b.overlay.buffer_shrank),
                acts,
            )
        }),
{
    let acts = seq![crate::pty::emit(event)];
    let t = (b.overlay.last_buffer_chars, b.overlay.buffer_shrank);
    assert(acts.drop_last() =~= Seq::<crate::pty::ActionView>::empty());
    assert(crate::pty::told(t, acts.drop_last()) == t);
}

/// A boundary takes down the overlay and forgets what was underlined.
pub proof fn boundary_clears_picture(b: RenderModel, now: Instant)
    ensures
        ({
            let a = b.after_input(InputEventView::Boundary, now);
            &&& a.gate.painted.len() == 0
            &&& a.overlay.engaged_snapshot is None
            &&& a.overlay.region is None
            &&& a.overlay.hover_lint is None
            &&& a.echo.lints.len() == 0
            &&& a.echo.grid == Map::<u32, Cell>::empty()
        }),
{
}

/// A keystroke restarts the pause: nothing is underlined until it is over, and
/// then everything is due.
pub proof fn keystroke_restarts_the_pause(
    b: RenderModel,
    ch: char,
    char_offset: int,
    at: Instant,
    now: Instant,
)
    requires
        at.nanos <= now.nanos,
    ensures
        ({
            let a = b.after_input(InputEventView::UserChar { ch, char_offset }, at);
            &&& now.nanos < at.nanos + b.gate.pause.nanos ==> !a.is_due(now)
            &&& now.nanos >= at.nanos + b.gate.pause.nanos ==> a.is_due(now)
        }),
{
}

/// A report of issues is what the painter and the overlay go by from then on,
/// and makes a paint due again.
pub proof fn reports_reach_the_painter(
    b: RenderModel,
    issues: Seq<IssueView>,
    text: Seq<char>,
    cursor: usize,
    now: Instant,
)
    requires
        text.len() <= usize::MAX,
    ensures
        ({
            let a = b.after_input(
                InputEventView::Lints {
                    issues,
                    buffer_chars: text.len() as int,
                    buffer_text: text,
                    buffer_cursor: cursor as int,
                },
                now,
            );
            &&& a.echo.lints == issues
            &&& a.echo.buffer_text == text
            &&& a.echo.buffer_cursor == cursor
            &&& a.echo.grid == b.echo.grid
            &&& a.gate.dirty
            &&& a.gate.painted == b.gate.painted
            &&& a.gate.last_keystroke_at == b.gate.last_keystroke_at
            &&& a.overlay.last_cursor == Some(cursor)
            &&& a.screen == b.screen
        }),
{
}

/// The picker that the input side opens or closes is the one that is drawn.
pub proof fn picker_state_reaches_the_overlay(
    b: RenderModel,
    snap: Option<crate::event::SnapshotView>,
    now: Instant,
)
    ensures
        ({
            let a = b.after_input(InputEventView::PickerState(snap), now);
            &&& a.overlay.engaged_snapshot == snap
            &&& a.overlay.region == b.overlay.region
            &&& a.echo == b.echo
            &&& a.gate.dirty
        }),
{
}

/// A tick after the pause underlines everything that is to be underlined: it
/// ends with a paint of all words, and remembers them.
pub proof fn tick_underlines_everything(
    b: RenderModel,
    now: Instant,
    settings: Settings,
    j: int,
)
    requires
        settings.paint,
        b.gate.last_keystroke_at matches Some(t) ==> now.nanos >= t.nanos + b.gate.pause.nanos,
        0 <= j < new_spans(b.echo, b.screen, settings.grammar).len(),
    ensures
        ({
            let spans = new_spans(b.echo, b.screen, settings.grammar);
            let after = b.ticked(now, settings);
            &&& after.gate.painted.contains(
                PaintedSpan {
                    row: spans[j].row as u16,
                    col_start: spans[j].col_start as u16,
                    col_end: spans[j].col_end as u16,
                },
            )
            &&& exists|before: Seq<u8>, painted: Seq<PaintedSpan>|
                b.tick_underlines(now, settings) == before + #[trigger] annotation_bytes(
                    painted,
                    b.echo,
                    b.screen,
                    settings.style,
                    settings.grammar,
                ) && #[trigger] before.len() >= 0
        }),
{
    let h = b.hovered(now, settings);
    let first = h.first_painted(now, settings);
    let spans = new_spans(b.echo, b.screen, settings.grammar);
    let wanted = keys(spans);
    assert(wanted[j] == key(spans[j]));
    let painted = painted_after(first.gate.painted, b.echo, b.screen, settings.grammar);
    assert(painted[j] == wanted[j]);
    assert(b.ticked(now, settings).gate.painted == painted);
    let due = if b.is_due(now) {
        b.underlines(settings)
    } else {
        Seq::empty()
    };
    let mine = b.first_painted(now, settings).gate.painted;
    assert(b.tick_underlines(now, settings) == due + annotation_bytes(
        mine,
        b.echo,
        b.screen,
        settings.style,
        settings.grammar,
    ));
    assert(due.len() >= 0);
}

/// A forced paint does not wait for the pause.
pub proof fn forced_paint_does_not_wait(
    b: RenderModel,
    now: Instant,
    settings: Settings,
    a: RenderModel,
    step: RenderStep,
    j: int,
)
    requires
        render_step(b, RenderEventView::ForcePaint, now, settings, a, step),
        settings.paint,
        0 <= j < new_spans(b.echo, b.screen, settings.grammar).len(),
    ensures
        ({
            let spans = new_spans(b.echo, b.screen, settings.grammar);
            &&& annotation_bytes(
                b.gate.painted,
                b.echo,
                b.screen,
                settings.style,
                settings.grammar,
            ).is_prefix_of(step.bytes@)
            &&& a.gate.painted.contains(
                PaintedSpan {
                    row: spans[j].row as u16,
                    col_start: spans[j].col_start as u16,
                    col_end: spans[j].col_end as u16,
                },
            )
            &&& !step.done
        }),
{
    let spans = new_spans(b.echo, b.screen, settings.grammar);
    let wanted = keys(spans);
    assert(wanted[j] == key(spans[j]));
    assert(a.gate.painted[j] == wanted[j]);
    let first = annotation_bytes(
        b.gate.painted,
        b.echo,
        b.screen,
        settings.style,
        settings.grammar,
    );
    assert(step.bytes@.subrange(0, first.len() as int) =~= first);
}

/// The status row is the last thing that a tick writes.
pub proof fn tick_ends_with_the_status(b: RenderModel, now: Instant, settings: Settings)
    ensures
        ({
            let all = b.tick_bytes(now, settings);
            let status = encode_utf8(status_text(b.echo, b.screen, settings));
            all.len() >= status.len() && all.skip(all.len() - status.len()) == status
        }),
{
    let all = b.tick_bytes(now, settings);
    let status = encode_utf8(status_text(b.echo, b.screen, settings));
    assert(all.skip(all.len() - status.len()) =~= status);
}

/// A change of size takes the new size over, forgets cells and underlines that
/// the child is about to redraw, and makes a paint due again.
pub proof fn resize_forgets_the_picture(b: RenderModel, cols: u16, rows: u16)
    requires
        cols > 0,
        rows > 0,
    ensures
        ({
            let a = b.resized(cols, rows);
            &&& a.screen.cols == cols && a.screen.rows == rows
            &&& a.echo.grid == Map::<u32, Cell>::empty()
            &&& a.echo.lints == b.echo.lints
            &&& a.echo.buffer_text == b.echo.buffer_text
            &&& a.gate.painted.len() == 0
            &&& a.gate.dirty
            &&& a.overlay == b.overlay
        }),
{
}

/// Only the end of the child's output ends the program; nothing is written for
/// what the user does until a tick or a forced paint.
pub proof fn only_the_end_ends(
    b: RenderModel,
    event: RenderEventView,
    now: Instant,
    settings: Settings,
    a: RenderModel,
    step: RenderStep,
)
    requires
        render_step(b, event, now, settings, a, step),
    ensures
        step.done <==> event is PtyEof,
        event is Input || event is Resize || event is PtyEof ==> step.bytes@.len() == 0,
        event is PtyEof ==> a == b,
        event is PtyBytes ==> a.overlay == b.overlay && a.gate.painted == b.gate.painted
            && a.gate.dirty,
{
}

/// The child's output is followed on the screen: the screen takes in what the
/// bytes mean, and the grid takes in each changed cell in order.
pub proof fn output_is_followed(
    b: RenderModel,
    bytes: Seq<u8>,
    now: Instant,
    settings: Settings,
    a: RenderModel,
    step: RenderStep,
)
    requires
        render_step(b, RenderEventView::PtyBytes(bytes), now, settings, a, step),
    ensures
        a.screen == b.screen.after_all(parsed_actions(b.seen, bytes)),
        step.events@ == b.screen.all_changes(parsed_actions(b.seen, bytes)),
        step.events@.len() == 0 ==> a.echo == b.echo,
        step.events@.len() == 1 ==> b.echo.screen_changes_to(step.events@[0], a.echo),
{
    let events = step.events@;
    if events.len() == 1 {
        assert(events.drop_last() =~= Seq::<ScreenEvent>::empty());
        let mid = choose|mid: EchoModel|
            echo_follows(b.echo, events.drop_last(), mid) && #[trigger] mid.screen_changes_to(
                events.last(),
                a.echo,
            );
        assert(mid == b.echo);
    }
}

/// A tick decides on the tooltip before it draws, and draws the overlay that
/// was decided on at its place.
pub proof fn tick_shows_the_tooltip(b: RenderModel, now: Instant, settings: Settings)
    requires
        settings.picker,
    ensures
        ({
            let a = b.ticked(now, settings);
            let decided = b.overlay.hover_target(b.echo, now, settings.hover, settings);
            &&& decided matches Some(i) ==> a.overlay.hover_lint == Some(i as usize)
            &&& decided is None ==> a.overlay.hover_lint is None
            &&& a.overlay.region == match a.overlay.target(b.echo.lints) {
                Some(t) => crate::picker::placement(t, b.echo, b.screen),
                None => None,
            }
            &&& a.echo == b.echo
            &&& a.screen == b.screen
        }),
{
}

} // verus!
