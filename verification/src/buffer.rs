//! Keystroke buffer state machine.
//!
//! Sees every byte the user types and reconstructs the text of the current
//! input line. The wrapped child still owns the rendering: this is the
//! overlay's own model of what the user has typed so far on this input. It is
//! reset on Enter, Esc alone, Ctrl-C and Ctrl-D.
//!
//! Edits that go through commands which only the child interprets (word
//! motions, history navigation) are not seen, so the buffer may drift from
//! the child's line until the next Enter.

use crate::text::{byte_len, chars_of, run_start, run_start_bounds, run_start_is_maximal, same_text};
use vstd::prelude::*;
use vstd::utf8::*;

verus! {

#[derive(Debug, Clone, Copy, PartialEq, Eq, Structural)]
pub enum FeedOutcome {
    /// Byte consumed without a change of text or cursor (inside an escape
    /// sequence or a multi-byte character, or an ignored control character).
    NoChange,
    /// Text or cursor position changed.
    Updated,
    /// Input boundary: the buffer was reset.
    Boundary,
}

/// Where the byte stream stands with respect to escape sequences.
#[derive(Debug, Clone, Copy, PartialEq, Eq, Structural)]
pub enum ParseState {
    Normal,
    AfterEsc,
    InCsi,
    InOsc,
    InSs3,
}

/// What an `InputBuffer` holds, with the cursor counted in characters.
#[verifier::ext_equal]
pub struct BufferModel {
    pub text: Seq<char>,
    pub cursor: int,
    pub state: ParseState,
    pub csi_params: Seq<char>,
    pub utf8_remaining: int,
    pub utf8_partial: Seq<u8>,
    pub in_paste: bool,
    pub chunk_paste: bool,
    pub version: u64,
}

/// Start of the word before `cursor`, trailing whitespace counted in.
pub open spec fn word_start(text: Seq<char>, cursor: int) -> int {
    run_start(text, run_start(text, cursor, true), false)
}

/// How many bytes a multi-byte character has after its lead byte.
pub open spec fn trailing_bytes(lead: u8) -> int {
    if lead <= 0xDF {
        1
    } else if lead <= 0xEF {
        2
    } else {
        3
    }
}

/// Whether `c` is no control character of ASCII.
pub open spec fn is_printable(c: char) -> bool {
    c as u32 >= 0x20 && c as u32 != 0x7F
}

/// What the text of a buffer is made of.
pub open spec fn is_content(c: char) -> bool {
    is_printable(c) || c == '\n'
}

/// The version that follows `v`.
pub open spec fn next_version(v: u64) -> u64 {
    if v == u64::MAX {
        0
    } else {
        (v + 1) as u64
    }
}

impl BufferModel {
    /// The buffer before anything was typed.
    pub open spec fn init() -> BufferModel {
        BufferModel {
            text: Seq::empty(),
            cursor: 0,
            state: ParseState::Normal,
            csi_params: Seq::empty(),
            utf8_remaining: 0,
            utf8_partial: Seq::empty(),
            in_paste: false,
            chunk_paste: false,
            version: 0,
        }
    }

    pub open spec fn in_bounds(self) -> bool {
        &&& 0 <= self.cursor <= self.text.len()
        &&& 0 <= self.utf8_remaining <= 3
    }

    /// The cursor is in the text, the text holds nothing but printable
    /// characters and line feeds, and an unfinished character has its lead
    /// byte and as many bytes to come as that asks for.
    pub open spec fn wf(self) -> bool {
        &&& self.in_bounds()
        &&& forall|i: int| 0 <= i < self.text.len() ==> is_content(#[trigger] self.text[i])
        &&& self.utf8_remaining > 0 ==> {
            &&& self.utf8_partial.len() >= 1
            &&& 0xC0 <= self.utf8_partial[0] <= 0xF7
            &&& self.utf8_partial.len() + self.utf8_remaining == 1 + trailing_bytes(
                self.utf8_partial[0],
            )
        }
    }

    /// No escape sequence and no multi-byte character is under way.
    pub open spec fn is_ground(self) -> bool {
        self.state == ParseState::Normal && self.utf8_remaining == 0
    }

    pub open spec fn with_state(self, state: ParseState) -> BufferModel {
        BufferModel { state, ..self }
    }

    /// `s` typed at the cursor.
    pub open spec fn inserted(self, s: Seq<char>) -> BufferModel {
        if s.len() == 0 {
            self
        } else {
            BufferModel {
                text: self.text.take(self.cursor) + s + self.text.skip(self.cursor),
                cursor: self.cursor + s.len(),
                version: next_version(self.version),
                ..self
            }
        }
    }

    /// The characters `from..to` taken out and the cursor left at `from`;
    /// nothing happens to an empty range.
    pub open spec fn removed(self, from: int, to: int) -> (BufferModel, FeedOutcome) {
        if from == to {
            (self, FeedOutcome::NoChange)
        } else {
            (
                BufferModel {
                    text: self.text.take(from) + self.text.skip(to),
                    cursor: from,
                    version: next_version(self.version),
                    ..self
                },
                FeedOutcome::Updated,
            )
        }
    }

    /// The cursor moved to `pos`; nothing happens where it stands there.
    pub open spec fn moved(self, pos: int) -> (BufferModel, FeedOutcome) {
        if pos == self.cursor {
            (self, FeedOutcome::NoChange)
        } else {
            (
                BufferModel { cursor: pos, version: next_version(self.version), ..self },
                FeedOutcome::Updated,
            )
        }
    }

    pub open spec fn backspaced(self) -> (BufferModel, FeedOutcome) {
        self.removed(if self.cursor == 0 { 0 } else { self.cursor - 1 }, self.cursor)
    }

    pub open spec fn deleted(self) -> (BufferModel, FeedOutcome) {
        self.removed(
            self.cursor,
            if self.cursor < self.text.len() { self.cursor + 1 } else { self.cursor },
        )
    }

    pub open spec fn left(self) -> (BufferModel, FeedOutcome) {
        self.moved(if self.cursor == 0 { 0 } else { self.cursor - 1 })
    }

    pub open spec fn right(self) -> (BufferModel, FeedOutcome) {
        self.moved(if self.cursor < self.text.len() { self.cursor + 1 } else { self.cursor })
    }

    /// A fresh input line.
    pub open spec fn reset(self) -> BufferModel {
        BufferModel {
            chunk_paste: self.chunk_paste,
            version: next_version(self.version),
            ..BufferModel::init()
        }
    }

    /// The effect of a cursor key by its final byte, in either of the two
    /// forms terminals send.
    pub open spec fn cursor_key(self, byte: u8) -> (BufferModel, FeedOutcome) {
        if byte == 0x43 {
            self.right()
        } else if byte == 0x44 {
            self.left()
        } else if byte == 0x48 {
            self.moved(0)
        } else if byte == 0x46 {
            self.moved(self.text.len() as int)
        } else {
            (self, FeedOutcome::NoChange)
        }
    }

    /// The effect of a complete CSI sequence.
    pub open spec fn csi(self, params: Seq<char>, byte: u8) -> (BufferModel, FeedOutcome) {
        if byte == 0x7E {
            if params == "3"@ {
                self.deleted()
            } else if params == "200"@ {
                (BufferModel { in_paste: true, ..self }, FeedOutcome::NoChange)
            } else if params == "201"@ {
                (BufferModel { in_paste: false, ..self }, FeedOutcome::NoChange)
            } else {
                (self, FeedOutcome::NoChange)
            }
        } else {
            self.cursor_key(byte)
        }
    }

    /// One more byte of a multi-byte character. The last one inserts the
    /// character, or drops the sequence where it is not valid UTF-8.
    pub open spec fn continued(self, byte: u8) -> (BufferModel, FeedOutcome) {
        let bytes = self.utf8_partial.push(byte);
        if self.utf8_remaining > 1 {
            (
                BufferModel {
                    utf8_partial: bytes,
                    utf8_remaining: self.utf8_remaining - 1,
                    ..self
                },
                FeedOutcome::NoChange,
            )
        } else {
            let done = BufferModel { utf8_partial: Seq::empty(), utf8_remaining: 0, ..self };
            if valid_utf8(bytes) {
                (done.inserted(decode_utf8(bytes)), FeedOutcome::Updated)
            } else {
                (done, FeedOutcome::NoChange)
            }
        }
    }

    /// A byte outside every escape sequence and multi-byte character.
    pub open spec fn typed(self, byte: u8) -> (BufferModel, FeedOutcome) {
        if byte == 0x1B {
            (self.with_state(ParseState::AfterEsc), FeedOutcome::NoChange)
        } else if byte == 0x08 || byte == 0x7F {
            self.backspaced()
        } else if byte == 0x0D || byte == 0x0A {
            if self.in_paste || self.chunk_paste {
                (self.inserted(seq!['\n']), FeedOutcome::Updated)
            } else {
                (self.reset(), FeedOutcome::Boundary)
            }
        } else if byte == 0x03 || byte == 0x04 {
            (self.reset(), FeedOutcome::Boundary)
        } else if byte == 0x01 {
            self.moved(0)
        } else if byte == 0x05 {
            self.moved(self.text.len() as int)
        } else if byte == 0x15 {
            self.removed(0, self.cursor)
        } else if byte == 0x17 {
            self.removed(word_start(self.text, self.cursor), self.cursor)
        } else if 0x20 <= byte <= 0x7E {
            (self.inserted(seq![byte as char]), FeedOutcome::Updated)
        } else if 0xC0 <= byte <= 0xF7 {
            (
                BufferModel {
                    utf8_partial: seq![byte],
                    utf8_remaining: trailing_bytes(byte),
                    ..self
                },
                FeedOutcome::NoChange,
            )
        } else {
            (self, FeedOutcome::NoChange)
        }
    }

    /// The buffer after one byte of input, and what that byte did.
    pub open spec fn fed(self, byte: u8) -> (BufferModel, FeedOutcome) {
        match self.state {
            ParseState::Normal => if self.utf8_remaining > 0 {
                self.continued(byte)
            } else {
                self.typed(byte)
            },
            ParseState::AfterEsc => if byte == 0x5B {
                (
                    BufferModel { state: ParseState::InCsi, csi_params: Seq::empty(), ..self },
                    FeedOutcome::NoChange,
                )
            } else if byte == 0x5D {
                (self.with_state(ParseState::InOsc), FeedOutcome::NoChange)
            } else if byte == 0x4F {
                (self.with_state(ParseState::InSs3), FeedOutcome::NoChange)
            } else {
                (self.reset(), FeedOutcome::Boundary)
            },
            ParseState::InCsi => if 0x40 <= byte <= 0x7E {
                BufferModel { state: ParseState::Normal, csi_params: Seq::empty(), ..self }.csi(
                    self.csi_params,
                    byte,
                )
            } else if 0x20 <= byte <= 0x3F {
                (
                    BufferModel { csi_params: self.csi_params.push(byte as char), ..self },
                    FeedOutcome::NoChange,
                )
            } else {
                (self.with_state(ParseState::Normal), FeedOutcome::NoChange)
            },
            ParseState::InOsc => if byte == 0x07 {
                (self.with_state(ParseState::Normal), FeedOutcome::NoChange)
            } else if byte == 0x1B {
                (self.with_state(ParseState::AfterEsc), FeedOutcome::NoChange)
            } else {
                (self, FeedOutcome::NoChange)
            },
            ParseState::InSs3 => self.with_state(ParseState::Normal).cursor_key(byte),
        }
    }

    /// The buffer after all of `bytes`, and their joint outcome.
    pub open spec fn fed_all(self, bytes: Seq<u8>) -> (BufferModel, FeedOutcome)
        decreases bytes.len(),
    {
        if bytes.len() == 0 {
            (self, FeedOutcome::NoChange)
        } else {
            let (before, outcome) = self.fed_all(bytes.drop_last());
            let (after, last) = before.fed(bytes.last());
            (after, joint(outcome, last))
        }
    }
}

/// Boundary wins over Updated, which wins over NoChange.
pub open spec fn joint(a: FeedOutcome, b: FeedOutcome) -> FeedOutcome {
    if a == FeedOutcome::Boundary || b == FeedOutcome::Boundary {
        FeedOutcome::Boundary
    } else if a == FeedOutcome::Updated || b == FeedOutcome::Updated {
        FeedOutcome::Updated
    } else {
        FeedOutcome::NoChange
    }
}

fn combine(a: FeedOutcome, b: FeedOutcome) -> (r: FeedOutcome)
    ensures
        r == joint(a, b),
{
    match (a, b) {
        (FeedOutcome::Boundary, _) | (_, FeedOutcome::Boundary) => FeedOutcome::Boundary,
        (FeedOutcome::Updated, _) | (_, FeedOutcome::Updated) => FeedOutcome::Updated,
        _ => FeedOutcome::NoChange,
    }
}

pub struct InputBuffer {
    text: String,
    /// Cursor position, counted in characters of `text`.
    cursor: usize,
    state: ParseState,
    csi_params: String,
    /// How many UTF-8 continuation bytes are still to come.
    utf8_remaining: u8,
    utf8_partial: Vec<u8>,
    in_paste: bool,
    /// Set from outside while a read chunk that looks like a paste is fed,
    /// for hosts that do not send bracketed-paste markers.
    chunk_paste: bool,
    /// Changes with every change of `text` or `cursor`.
    version: u64,
}

impl View for InputBuffer {
    type V = BufferModel;

    closed spec fn view(&self) -> BufferModel {
        BufferModel {
            text: self.text@,
            cursor: self.cursor as int,
            state: self.state,
            csi_params: self.csi_params@,
            utf8_remaining: self.utf8_remaining as int,
            utf8_partial: self.utf8_partial@,
            in_paste: self.in_paste,
            chunk_paste: self.chunk_paste,
            version: self.version,
        }
    }
}

impl InputBuffer {
    pub open spec fn wf(&self) -> bool {
        self@.wf()
    }

    pub fn new() -> (r: Self)
        ensures
            r@ == BufferModel::init(),
            r.wf(),
    {
        InputBuffer {
            text: String::new(),
            cursor: 0,
            state: ParseState::Normal,
            csi_params: String::new(),
            utf8_remaining: 0,
            utf8_partial: Vec::new(),
            in_paste: false,
            chunk_paste: false,
            version: 0,
        }
    }

    /// Paste flag driven by the shape of the read chunk. Set before the bytes
    /// of the chunk are fed and cleared after, so that a line break inside
    /// the chunk is content and no boundary.
    pub fn set_chunk_paste(&mut self, flag: bool)
        ensures
            final(self)@ == (BufferModel { chunk_paste: flag, ..old(self)@ }),
    {
        self.chunk_paste = flag;
    }

    pub fn text(&self) -> (r: &str)
        ensures
            r@ == self@.text,
    {
        self.text.as_str()
    }

    /// Byte offset of the cursor, always on a character boundary.
    pub fn cursor(&self) -> (r: usize)
        requires
            self.wf(),
        ensures
            r == byte_len(self@.text.take(self@.cursor)),
    {
        self.text.as_str().substring_char(0, self.cursor).as_bytes().len()
    }

    /// Cursor position in characters.
    pub fn char_cursor(&self) -> (r: usize)
        ensures
            r == self@.cursor,
    {
        self.cursor
    }

    pub fn version(&self) -> (r: u64)
        ensures
            r == self@.version,
    {
        self.version
    }

    pub fn in_paste(&self) -> (r: bool)
        ensures
            r == self@.in_paste,
    {
        self.in_paste
    }

    /// Whether the next byte stands on its own: no escape sequence and no
    /// multi-byte character is under way.
    pub fn is_ground(&self) -> (r: bool)
        requires
            self.wf(),
        ensures
            r == self@.is_ground(),
    {
        let normal = match self.state {
            ParseState::Normal => true,
            _ => false,
        };
        normal && self.utf8_remaining == 0
    }

    pub fn is_empty(&self) -> (r: bool)
        ensures
            r == (self@.text.len() == 0),
    {
        self.text.as_str().is_empty()
    }

    /// Feeds bytes in order and returns their joint outcome.
    pub fn feed_bytes(&mut self, bytes: &[u8]) -> (r: FeedOutcome)
        requires
            old(self).wf(),
        ensures
            (final(self)@, r) == old(self)@.fed_all(bytes@),
            final(self).wf(),
    {
        let mut acc = FeedOutcome::NoChange;
        let mut i: usize = 0;
        while i < bytes.len()
            invariant
                i <= bytes@.len(),
                self.wf(),
                (self@, acc) == old(self)@.fed_all(bytes@.take(i as int)),
            decreases bytes@.len() - i,
        {
            let r = self.feed(bytes[i]);
            acc = combine(acc, r);
            i += 1;
            proof {
                assert(bytes@.take(i as int).drop_last() =~= bytes@.take(i - 1));
            }
        }
        proof {
            assert(bytes@.take(i as int) =~= bytes@);
        }
        acc
    }

    pub fn feed(&mut self, byte: u8) -> (r: FeedOutcome)
        requires
            old(self).wf(),
        ensures
            (final(self)@, r) == old(self)@.fed(byte),
            final(self).wf(),
    {
        proof {
            fed_keeps_wf(self@, byte);
        }
        match self.state {
            ParseState::Normal => self.feed_normal(byte),
            ParseState::AfterEsc => self.feed_after_esc(byte),
            ParseState::InCsi => self.feed_in_csi(byte),
            ParseState::InOsc => self.feed_in_osc(byte),
            ParseState::InSs3 => self.feed_in_ss3(byte),
        }
    }

    fn feed_normal(&mut self, byte: u8) -> (r: FeedOutcome)
        requires
            old(self)@.in_bounds(),
            old(self)@.state == ParseState::Normal,
        ensures
            (final(self)@, r) == old(self)@.fed(byte),
            final(self)@.in_bounds(),
    {
        if self.utf8_remaining > 0 {
            self.utf8_partial.push(byte);
            self.utf8_remaining -= 1;
            if self.utf8_remaining == 0 {
                let mut bytes: Vec<u8> = Vec::new();
                bytes.append(&mut self.utf8_partial);
                if let Ok(s) = core::str::from_utf8(bytes.as_slice()) {
                    self.insert_str(s);
                    return FeedOutcome::Updated;
                }
            }
            return FeedOutcome::NoChange;
        }
        match byte {
            0x1B => {
                self.state = ParseState::AfterEsc;
                FeedOutcome::NoChange
            },
            // Backspace, DEL
            0x08 | 0x7F => self.delete_before_cursor(),
            // CR and LF end the input, except inside a paste, where a line
            // break is content (LF in either case).
            0x0D | 0x0A => {
                if self.in_paste || self.chunk_paste {
                    self.insert_char('\n');
                    FeedOutcome::Updated
                } else {
                    self.boundary_reset()
                }
            },
            // Ctrl-C, Ctrl-D
            0x03 | 0x04 => self.boundary_reset(),
            // Ctrl-A
            0x01 => self.set_cursor(0),
            // Ctrl-E
            0x05 => {
                let end: usize = self.text.as_str().unicode_len();
                self.set_cursor(end)
            },
            // Ctrl-U
            0x15 => self.kill_to_start(),
            // Ctrl-W
            0x17 => self.delete_word_before_cursor(),
            // Tab belongs to the suggestion picker and is not inserted; other
            // control characters are ignored.
            0..=0x1F => FeedOutcome::NoChange,
            0x20..=0x7E => {
                self.insert_char(byte as char);
                FeedOutcome::Updated
            },
            0xC0..=0xDF => {
                self.begin_utf8(byte, 1);
                FeedOutcome::NoChange
            },
            0xE0..=0xEF => {
                self.begin_utf8(byte, 2);
                FeedOutcome::NoChange
            },
            0xF0..=0xF7 => {
                self.begin_utf8(byte, 3);
                FeedOutcome::NoChange
            },
            _ => FeedOutcome::NoChange,
        }
    }

    fn feed_after_esc(&mut self, byte: u8) -> (r: FeedOutcome)
        requires
            old(self)@.in_bounds(),
            old(self)@.state == ParseState::AfterEsc,
        ensures
            (final(self)@, r) == old(self)@.fed(byte),
            final(self)@.in_bounds(),
    {
        match byte {
            0x5B => {
                self.state = ParseState::InCsi;
                self.csi_params = String::new();
                FeedOutcome::NoChange
            },
            0x5D => {
                self.state = ParseState::InOsc;
                FeedOutcome::NoChange
            },
            0x4F => {
                self.state = ParseState::InSs3;
                FeedOutcome::NoChange
            },
            // A bare ESC press abandons the input.
            _ => self.boundary_reset(),
        }
    }

    fn feed_in_csi(&mut self, byte: u8) -> (r: FeedOutcome)
        requires
            old(self)@.in_bounds(),
            old(self)@.state == ParseState::InCsi,
        ensures
            (final(self)@, r) == old(self)@.fed(byte),
            final(self)@.in_bounds(),
    {
        if 0x40 <= byte && byte <= 0x7E {
            let params = self.csi_params.clone();
            self.csi_params = String::new();
            self.state = ParseState::Normal;
            self.handle_csi(params.as_str(), byte)
        } else if 0x20 <= byte && byte <= 0x3F {
            self.csi_params.push(byte as char);
            FeedOutcome::NoChange
        } else {
            // Not part of any sequence: give it up rather than stay in it.
            self.state = ParseState::Normal;
            FeedOutcome::NoChange
        }
    }

    fn handle_csi(&mut self, params: &str, final_byte: u8) -> (r: FeedOutcome)
        requires
            old(self)@.in_bounds(),
        ensures
            (final(self)@, r) == old(self)@.csi(params@, final_byte),
            final(self)@.in_bounds(),
    {
        if final_byte == 0x7E {
            if same_text(params, "3") {
                self.delete_at_cursor()
            } else if same_text(params, "200") {
                self.in_paste = true;
                FeedOutcome::NoChange
            } else if same_text(params, "201") {
                self.in_paste = false;
                FeedOutcome::NoChange
            } else {
                FeedOutcome::NoChange
            }
        } else {
            self.handle_cursor_key(final_byte)
        }
    }

    fn handle_cursor_key(&mut self, final_byte: u8) -> (r: FeedOutcome)
        requires
            old(self)@.in_bounds(),
        ensures
            (final(self)@, r) == old(self)@.cursor_key(final_byte),
            final(self)@.in_bounds(),
    {
        match final_byte {
            0x43 => self.move_cursor_right(),
            0x44 => self.move_cursor_left(),
            0x48 => self.set_cursor(0),
            0x46 => {
                let end: usize = self.text.as_str().unicode_len();
                self.set_cursor(end)
            },
            // Up and Down walk the child's history; the line stays.
            _ => FeedOutcome::NoChange,
        }
    }

    fn feed_in_osc(&mut self, byte: u8) -> (r: FeedOutcome)
        requires
            old(self)@.in_bounds(),
            old(self)@.state == ParseState::InOsc,
        ensures
            (final(self)@, r) == old(self)@.fed(byte),
            final(self)@.in_bounds(),
    {
        // Ends on BEL or on ST (ESC \), of which only the ESC is looked at.
        if byte == 0x07 {
            self.state = ParseState::Normal;
        } else if byte == 0x1B {
            self.state = ParseState::AfterEsc;
        }
        FeedOutcome::NoChange
    }

    fn feed_in_ss3(&mut self, byte: u8) -> (r: FeedOutcome)
        requires
            old(self)@.in_bounds(),
            old(self)@.state == ParseState::InSs3,
        ensures
            (final(self)@, r) == old(self)@.fed(byte),
            final(self)@.in_bounds(),
    {
        self.state = ParseState::Normal;
        self.handle_cursor_key(byte)
    }

    fn begin_utf8(&mut self, lead: u8, remaining: u8)
        ensures
            final(self)@ == (BufferModel {
                utf8_partial: seq![lead],
                utf8_remaining: remaining as int,
                ..old(self)@
            }),
    {
        self.utf8_partial.clear();
        self.utf8_partial.push(lead);
        self.utf8_remaining = remaining;
        proof {
            assert(self.utf8_partial@ =~= seq![lead]);
        }
    }

    /// Puts `s` in place of the characters `from..to`.
    fn splice(&mut self, from: usize, to: usize, s: &str)
        requires
            from <= to <= old(self)@.text.len(),
        ensures
            final(self)@ == (BufferModel {
                text: old(self)@.text.take(from as int) + s@ + old(self)@.text.skip(to as int),
                ..old(self)@
            }),
    {
        let end: usize = self.text.as_str().unicode_len();
        let mut text = self.text.as_str().substring_char(0, from).to_owned();
        text.append(s);
        text.append(self.text.as_str().substring_char(to, end));
        self.text = text;
    }

    fn insert_str(&mut self, s: &str)
        requires
            old(self)@.in_bounds(),
        ensures
            final(self)@ == old(self)@.inserted(s@),
    {
        if s.is_empty() {
            return;
        }
        self.splice(self.cursor, self.cursor, s);
        // The new text has a length that fits, so the sum below does too.
        let len: usize = self.text.as_str().unicode_len();
        self.cursor = self.cursor + s.unicode_len();
        assert(self.cursor <= len);
        self.bump_version();
    }

    fn insert_char(&mut self, c: char)
        requires
            old(self)@.in_bounds(),
        ensures
            final(self)@ == old(self)@.inserted(seq![c]),
            final(self)@.in_bounds(),
    {
        let mut s = String::new();
        s.push(c);
        proof {
            assert(s@ =~= seq![c]);
        }
        self.insert_str(s.as_str());
    }

    fn remove(&mut self, from: usize) -> (r: FeedOutcome)
        requires
            old(self)@.in_bounds(),
            from <= old(self)@.cursor,
        ensures
            (final(self)@, r) == old(self)@.removed(from as int, old(self)@.cursor),
            final(self)@.in_bounds(),
    {
        if from == self.cursor {
            return FeedOutcome::NoChange;
        }
        self.splice(from, self.cursor, "");
        self.cursor = from;
        self.bump_version();
        proof {
            reveal_strlit("");
            assert(self@.text =~= old(self)@.text.take(from as int) + old(self)@.text.skip(
                old(self)@.cursor,
            ));
        }
        FeedOutcome::Updated
    }

    fn delete_before_cursor(&mut self) -> (r: FeedOutcome)
        requires
            old(self)@.in_bounds(),
        ensures
            (final(self)@, r) == old(self)@.backspaced(),
            final(self)@.in_bounds(),
    {
        if self.cursor == 0 {
            return FeedOutcome::NoChange;
        }
        self.remove(self.cursor - 1)
    }

    fn delete_at_cursor(&mut self) -> (r: FeedOutcome)
        requires
            old(self)@.in_bounds(),
        ensures
            (final(self)@, r) == old(self)@.deleted(),
            final(self)@.in_bounds(),
    {
        if self.cursor >= self.text.as_str().unicode_len() {
            return FeedOutcome::NoChange;
        }
        self.splice(self.cursor, self.cursor + 1, "");
        self.bump_version();
        proof {
            reveal_strlit("");
            assert(self@.text =~= old(self)@.text.take(old(self)@.cursor) + old(self)@.text.skip(
                old(self)@.cursor + 1,
            ));
        }
        FeedOutcome::Updated
    }

    fn delete_word_before_cursor(&mut self) -> (r: FeedOutcome)
        requires
            old(self)@.in_bounds(),
        ensures
            (final(self)@, r) == old(self)@.removed(
                word_start(old(self)@.text, old(self)@.cursor),
                old(self)@.cursor,
            ),
            final(self)@.in_bounds(),
    {
        let chars = chars_of(self.text.as_str());
        let mut start: usize = self.cursor;
        // Trailing whitespace first, then the word itself.
        while start > 0 && chars[start - 1].is_whitespace()
            invariant
                start <= self.cursor <= chars@.len(),
                run_start(chars@, self.cursor as int, true) == run_start(chars@, start as int, true),
            decreases start,
        {
            start -= 1;
        }
        let ghost blank = start as int;
        while start > 0 && !chars[start - 1].is_whitespace()
            invariant
                start <= self.cursor <= chars@.len(),
                run_start(chars@, blank, false) == run_start(chars@, start as int, false),
            decreases start,
        {
            start -= 1;
        }
        self.remove(start)
    }

    fn kill_to_start(&mut self) -> (r: FeedOutcome)
        requires
            old(self)@.in_bounds(),
        ensures
            (final(self)@, r) == old(self)@.removed(0, old(self)@.cursor),
            final(self)@.in_bounds(),
    {
        self.remove(0)
    }

    fn move_cursor_left(&mut self) -> (r: FeedOutcome)
        requires
            old(self)@.in_bounds(),
        ensures
            (final(self)@, r) == old(self)@.left(),
            final(self)@.in_bounds(),
    {
        if self.cursor == 0 {
            return FeedOutcome::NoChange;
        }
        self.set_cursor(self.cursor - 1)
    }

    fn move_cursor_right(&mut self) -> (r: FeedOutcome)
        requires
            old(self)@.in_bounds(),
        ensures
            (final(self)@, r) == old(self)@.right(),
            final(self)@.in_bounds(),
    {
        if self.cursor >= self.text.as_str().unicode_len() {
            return FeedOutcome::NoChange;
        }
        self.set_cursor(self.cursor + 1)
    }

    fn set_cursor(&mut self, pos: usize) -> (r: FeedOutcome)
        requires
            old(self)@.in_bounds(),
            pos <= old(self)@.text.len(),
        ensures
            (final(self)@, r) == old(self)@.moved(pos as int),
            final(self)@.in_bounds(),
    {
        if pos == self.cursor {
            return FeedOutcome::NoChange;
        }
        self.cursor = pos;
        self.bump_version();
        FeedOutcome::Updated
    }

    fn boundary_reset(&mut self) -> (r: FeedOutcome)
        ensures
            final(self)@ == old(self)@.reset(),
            r == FeedOutcome::Boundary,
            final(self)@.in_bounds(),
    {
        self.text = String::new();
        self.cursor = 0;
        self.utf8_remaining = 0;
        self.utf8_partial.clear();
        self.in_paste = false;
        self.csi_params = String::new();
        self.state = ParseState::Normal;
        self.bump_version();
        FeedOutcome::Boundary
    }

    fn bump_version(&mut self)
        ensures
            final(self)@ == (BufferModel {
                version: next_version(old(self)@.version),
                ..old(self)@
            }),
    {
        self.version = self.version.wrapping_add(1);
    }
}

impl Default for InputBuffer {
    fn default() -> (r: Self)
        ensures
            r@ == BufferModel::init(),
    {
        InputBuffer::new()
    }
}

/// The cursor stays inside the text, whatever byte arrives.
pub proof fn fed_keeps_wf(m: BufferModel, byte: u8)
    requires
        m.wf(),
    ensures
        m.fed(byte).0.wf(),
{
    run_start_bounds(m.text, m.cursor, true);
    run_start_bounds(m.text, run_start(m.text, m.cursor, true), false);
    let after = m.fed(byte).0;
    if m.state == ParseState::Normal && m.utf8_remaining == 1 {
        let bytes = m.utf8_partial.push(byte);
        if valid_utf8(bytes) {
            one_wide_char(bytes);
            assert(after == (BufferModel {
                utf8_partial: Seq::empty(),
                utf8_remaining: 0,
                ..m
            }).inserted(decode_utf8(bytes)));
        }
    }
    assert forall|i: int| 0 <= i < after.text.len() implies is_content(
        #[trigger] after.text[i],
    ) by {
        content_origin(m, byte, i);
    }
}

/// A character of the text after a byte was there before or came in with it.
proof fn content_origin(m: BufferModel, byte: u8, i: int)
    requires
        m.wf(),
        0 <= i < m.fed(byte).0.text.len(),
    ensures
        is_content(m.fed(byte).0.text[i]),
{
    run_start_bounds(m.text, m.cursor, true);
    run_start_bounds(m.text, run_start(m.text, m.cursor, true), false);
    let after = m.fed(byte).0;
    if m.state == ParseState::Normal && m.utf8_remaining == 1 && valid_utf8(
        m.utf8_partial.push(byte),
    ) {
        one_wide_char(m.utf8_partial.push(byte));
    }
    let n = after.text.len() - m.text.len();
    if i < m.cursor && i < after.text.len() && after.text[i] == m.text[i] {
    } else if 0 <= i - n < m.text.len() && after.text[i] == m.text[i - n] {
    }
}

/// A complete multi-byte sequence that is valid encodes one character, and no
/// character of ASCII.
proof fn one_wide_char(bytes: Seq<u8>)
    requires
        bytes.len() >= 2,
        0xC0 <= bytes[0] <= 0xF7,
        bytes.len() == 1 + trailing_bytes(bytes[0]),
        valid_utf8(bytes),
    ensures
        decode_utf8(bytes).len() == 1,
        decode_utf8(bytes)[0] as u32 >= 0x80,
{
    let rest = pop_first_scalar(bytes);
    assert(rest.len() == 0);
    assert(decode_utf8(rest) =~= Seq::<char>::empty());
    let c = decode_first_scalar(bytes) as char;
    assert(decode_utf8(bytes) =~= seq![c]);
    decode_utf8_first_scalar(bytes);
    assert(encode_scalar(c as u32).len() == bytes.len());
    if c as u32 <= 0x7F {
        assert(encode_scalar(c as u32).len() == 1);
    }
}

/// A byte that reports `NoChange` leaves text, cursor and version alone.
pub proof fn no_change_keeps_line(m: BufferModel, byte: u8)
    requires
        m.wf(),
        m.fed(byte).1 == FeedOutcome::NoChange,
    ensures
        m.fed(byte).0.text == m.text,
        m.fed(byte).0.cursor == m.cursor,
        m.fed(byte).0.version == m.version,
{
}

/// A byte that reports `Updated` moves the version on by one step, and text or
/// cursor differ from before.
pub proof fn updated_changes_line(m: BufferModel, byte: u8)
    requires
        m.wf(),
        m.fed(byte).1 == FeedOutcome::Updated,
    ensures
        m.fed(byte).0.version == next_version(m.version),
        m.fed(byte).0.text != m.text || m.fed(byte).0.cursor != m.cursor,
{
    let after = m.fed(byte).0;
    if m.state == ParseState::Normal && m.utf8_remaining > 0 {
        let bytes = m.utf8_partial.push(byte);
        assert(decode_utf8(bytes).len() > 0);
    }
    if after.cursor == m.cursor {
        assert(after.text.len() != m.text.len());
    }
}

/// A boundary leaves an empty line outside every sequence and paste.
pub proof fn boundary_clears_line(m: BufferModel, byte: u8)
    requires
        m.fed(byte).1 == FeedOutcome::Boundary,
    ensures
        m.fed(byte).0 == m.reset(),
        m.fed(byte).0.text.len() == 0,
        m.fed(byte).0.cursor == 0,
        m.fed(byte).0.is_ground(),
        !m.fed(byte).0.in_paste,
{
}

/// Feeding bytes in two parts is feeding them at once.
pub proof fn fed_all_concat(m: BufferModel, a: Seq<u8>, b: Seq<u8>)
    ensures
        m.fed_all(a + b).0 == m.fed_all(a).0.fed_all(b).0,
        m.fed_all(a + b).1 == joint(m.fed_all(a).1, m.fed_all(a).0.fed_all(b).1),
    decreases b.len(),
{
    if b.len() == 0 {
        assert(a + b =~= a);
    } else {
        fed_all_concat(m, a, b.drop_last());
        assert((a + b).drop_last() =~= a + b.drop_last());
        assert((a + b).last() == b.last());
    }
}

/// Whether a character is taken in as it is: all but control characters, and
/// inside a paste line feeds too.
pub open spec fn is_taken_in(m: BufferModel, c: char) -> bool {
    is_printable(c) || (c == '\n' && (m.in_paste || m.chunk_paste))
}

/// Typing one character that is taken in inserts exactly that character.
pub proof fn typed_char_is_inserted(m: BufferModel, c: char)
    requires
        m.wf(),
        m.is_ground(),
        is_taken_in(m, c),
    ensures
        ({
            let (after, outcome) = m.fed_all(encode_utf8(seq![c]));
            let expected = m.inserted(seq![c]);
            &&& outcome == FeedOutcome::Updated
            &&& after == (BufferModel { utf8_partial: after.utf8_partial, ..expected })
        }),
{
    let s = seq![c];
    let bytes = encode_utf8(s);
    encode_utf8_first_scalar(s);
    encode_utf8_valid_utf8(s);
    encode_utf8_decode_utf8(s);
    assert(s.drop_first() =~= Seq::<char>::empty());
    assert(encode_utf8(s.drop_first()) =~= Seq::<u8>::empty());
    assert(bytes =~= encode_scalar(c as u32));
    reveal_with_fuel(BufferModel::fed_all, 5);
    let n = bytes.len();
    assert(bytes.drop_last().len() == n - 1);
    if n == 1 {
        assert(bytes[0] as u32 == c as u32) by {
            let u = c as u32;
            assert(bytes[0] == leading_byte_width_1(u));
            assert((u & 0x7F) as u8 as u32 == u) by (bit_vector)
                requires
                    u <= 0x7F,
            ;
        }
        assert(bytes[0] as char == c);
    } else if n == 2 {
        assert(seq![bytes[0]].push(bytes[1]) =~= bytes);
    } else if n == 3 {
        assert(seq![bytes[0]].push(bytes[1]).push(bytes[2]) =~= bytes);
    } else {
        assert(seq![bytes[0]].push(bytes[1]).push(bytes[2]).push(bytes[3]) =~= bytes);
    }
}

/// What is typed is what the buffer holds: feeding the UTF-8 bytes of a text
/// puts that text at the cursor, and nothing else changes on the line. Inside
/// a paste the text may hold line feeds.
pub proof fn typed_text_is_inserted(m: BufferModel, s: Seq<char>)
    requires
        m.wf(),
        m.is_ground(),
        forall|i: int| 0 <= i < s.len() ==> is_taken_in(m, #[trigger] s[i]),
    ensures
        m.fed_all(encode_utf8(s)).0.text == m.text.take(m.cursor) + s + m.text.skip(m.cursor),
        m.fed_all(encode_utf8(s)).0.cursor == m.cursor + s.len(),
        m.fed_all(encode_utf8(s)).0.is_ground(),
        m.fed_all(encode_utf8(s)).0.in_paste == m.in_paste,
        m.fed_all(encode_utf8(s)).0.chunk_paste == m.chunk_paste,
        m.fed_all(encode_utf8(s)).1 == if s.len() == 0 {
            FeedOutcome::NoChange
        } else {
            FeedOutcome::Updated
        },
    decreases s.len(),
{
    if s.len() == 0 {
        assert(m.text.take(m.cursor) + s + m.text.skip(m.cursor) =~= m.text);
    } else {
        let c = s[0];
        let rest = s.drop_first();
        let mid = m.fed_all(encode_utf8(seq![c])).0;
        typed_char_is_inserted(m, c);
        assert(seq![c] + rest =~= s);
        crate::text::encode_utf8_concat(seq![c], rest);
        fed_all_concat(m, encode_utf8(seq![c]), encode_utf8(rest));
        assert forall|i: int| 0 <= i < rest.len() implies is_taken_in(mid, #[trigger] rest[i]) by {
            assert(rest[i] == s[i + 1]);
        }
        typed_text_is_inserted(mid, rest);
        assert(mid.text.take(mid.cursor) + rest + mid.text.skip(mid.cursor) =~= m.text.take(
            m.cursor,
        ) + s + m.text.skip(m.cursor));
    }
}

/// Backspace takes back the character typed just before.
pub proof fn backspace_undoes_typing(m: BufferModel, c: char, backspace: u8)
    requires
        m.wf(),
        m.is_ground(),
        is_printable(c),
        backspace == 0x08 || backspace == 0x7F,
    ensures
        m.fed_all(encode_utf8(seq![c]).push(backspace)).0.text == m.text,
        m.fed_all(encode_utf8(seq![c]).push(backspace)).0.cursor == m.cursor,
{
    typed_char_is_inserted(m, c);
    let bytes = encode_utf8(seq![c]);
    assert(bytes.push(backspace).drop_last() =~= bytes);
    assert(m.fed_all(bytes.push(backspace)).0.text =~= m.text);
}

/// The arrow keys undo each other where the first of them moved the cursor.
pub proof fn arrows_undo_each_other(m: BufferModel)
    requires
        m.wf(),
    ensures
        m.cursor < m.text.len() ==> m.right().0.left().0.cursor == m.cursor,
        m.cursor > 0 ==> m.left().0.right().0.cursor == m.cursor,
        m.right().0.left().0.text == m.text,
        m.left().0.right().0.text == m.text,
{
}

/// Between the paste markers every line break is content: the opening marker
/// turns the paste flag on without a change of the line, and with it on CR
/// and LF insert a line feed.
pub proof fn paste_keeps_line_breaks(m: BufferModel, byte: u8)
    requires
        m.wf(),
        m.is_ground(),
        byte == 0x0D || byte == 0x0A,
    ensures
        ({
            let (open, outcome) = m.fed_all(seq![0x1Bu8, 0x5B, 0x32, 0x30, 0x30, 0x7E]);
            &&& outcome == FeedOutcome::NoChange
            &&& open == (BufferModel { in_paste: true, csi_params: Seq::empty(), ..m })
            &&& open.fed(byte) == (open.inserted(seq!['\n']), FeedOutcome::Updated)
        }),
{
    let bytes = seq![0x1Bu8, 0x5B, 0x32, 0x30, 0x30, 0x7E];
    feed_six(m, bytes);
    reveal_strlit("200");
    reveal_strlit("3");
    let params = Seq::<char>::empty().push(0x32u8 as char).push(0x30u8 as char).push(
        0x30u8 as char,
    );
    assert(params =~= "200"@);
    assert(params.len() != "3"@.len());
}

/// The closing paste marker turns the paste flag off and nothing else.
pub proof fn paste_end_closes(m: BufferModel)
    requires
        m.wf(),
        m.is_ground(),
    ensures
        m.fed_all(seq![0x1Bu8, 0x5B, 0x32, 0x30, 0x31, 0x7E]) == (
            BufferModel { in_paste: false, csi_params: Seq::empty(), ..m },
            FeedOutcome::NoChange,
        ),
{
    let bytes = seq![0x1Bu8, 0x5B, 0x32, 0x30, 0x31, 0x7E];
    feed_six(m, bytes);
    reveal_strlit("201");
    reveal_strlit("200");
    reveal_strlit("3");
    let params = Seq::<char>::empty().push(0x32u8 as char).push(0x30u8 as char).push(
        0x31u8 as char,
    );
    assert(params =~= "201"@);
    assert(params[2] != "200"@[2]);
    assert(params.len() != "3"@.len());
}

/// Six bytes fed at once, one after the other.
proof fn feed_six(m: BufferModel, bytes: Seq<u8>)
    requires
        bytes.len() == 6,
    ensures
        m.fed_all(bytes).0 == m.fed(bytes[0]).0.fed(bytes[1]).0.fed(bytes[2]).0.fed(
            bytes[3],
        ).0.fed(bytes[4]).0.fed(bytes[5]).0,
        m.fed_all(bytes).1 == joint(
            joint(
                joint(
                    joint(
                        joint(
                            m.fed(bytes[0]).1,
                            m.fed(bytes[0]).0.fed(bytes[1]).1,
                        ),
                        m.fed(bytes[0]).0.fed(bytes[1]).0.fed(bytes[2]).1,
                    ),
                    m.fed(bytes[0]).0.fed(bytes[1]).0.fed(bytes[2]).0.fed(bytes[3]).1,
                ),
                m.fed(bytes[0]).0.fed(bytes[1]).0.fed(bytes[2]).0.fed(bytes[3]).0.fed(bytes[4]).1,
            ),
            m.fed(bytes[0]).0.fed(bytes[1]).0.fed(bytes[2]).0.fed(bytes[3]).0.fed(bytes[4]).0.fed(
                bytes[5],
            ).1,
        ),
{
    reveal_with_fuel(BufferModel::fed_all, 7);
}

/// Three bytes fed at once, one after the other.
proof fn feed_three(m: BufferModel, a: u8, b: u8, c: u8)
    ensures
        m.fed_all(seq![a, b, c]).0 == m.fed(a).0.fed(b).0.fed(c).0,
{
    let bytes = seq![a, b, c];
    assert(bytes.drop_last() =~= seq![a, b]);
    assert(seq![a, b].drop_last() =~= seq![a]);
    assert(seq![a].drop_last() =~= Seq::<u8>::empty());
    reveal_with_fuel(BufferModel::fed_all, 4);
}

/// Whether two buffers hold the same line.
pub open spec fn same_line(a: BufferModel, b: BufferModel) -> bool {
    a.text == b.text && a.cursor == b.cursor
}

/// The arrow keys step over one character, in both forms that terminals send,
/// and stop at the ends of the line.
pub proof fn arrows_step_by_one(m: BufferModel, form: u8)
    requires
        m.wf(),
        m.is_ground(),
        form == 0x5B || form == 0x4F,
    ensures
        ({
            let right = m.fed_all(seq![0x1Bu8, form, 0x43]).0;
            let left = m.fed_all(seq![0x1Bu8, form, 0x44]).0;
            &&& right.text == m.text && left.text == m.text
            &&& right.is_ground() && left.is_ground()
            &&& m.cursor < m.text.len() ==> right.cursor == m.cursor + 1
            &&& m.cursor == m.text.len() ==> right.cursor == m.cursor
            &&& m.cursor > 0 ==> left.cursor == m.cursor - 1
            &&& m.cursor == 0 ==> left.cursor == 0
        }),
{
    feed_three(m, 0x1B, form, 0x43);
    feed_three(m, 0x1B, form, 0x44);
}

/// Home and End, in both forms, and Ctrl-A and Ctrl-E go to the ends of the
/// line.
pub proof fn home_and_end_reach_the_ends(m: BufferModel, form: u8)
    requires
        m.wf(),
        m.is_ground(),
        form == 0x5B || form == 0x4F,
    ensures
        ({
            let home = m.fed_all(seq![0x1Bu8, form, 0x48]).0;
            let end = m.fed_all(seq![0x1Bu8, form, 0x46]).0;
            &&& home.text == m.text && end.text == m.text
            &&& home.is_ground() && end.is_ground()
            &&& home.cursor == 0 && m.fed(0x01).0.cursor == 0
            &&& end.cursor == m.text.len() && m.fed(0x05).0.cursor == m.text.len()
            &&& m.fed(0x01).0.text == m.text && m.fed(0x05).0.text == m.text
            &&& m.fed(0x01).0.is_ground() && m.fed(0x05).0.is_ground()
        }),
{
    feed_three(m, 0x1B, form, 0x48);
    feed_three(m, 0x1B, form, 0x46);
}

/// Four bytes fed at once, one after the other.
proof fn feed_four(m: BufferModel, a: u8, b: u8, c: u8, d: u8)
    ensures
        m.fed_all(seq![a, b, c, d]).0 == m.fed(a).0.fed(b).0.fed(c).0.fed(d).0,
{
    assert(seq![a, b, c, d] =~= seq![a, b, c] + seq![d]);
    fed_all_concat(m, seq![a, b, c], seq![d]);
    feed_three(m, a, b, c);
    let mid = m.fed_all(seq![a, b, c]).0;
    assert(seq![d].drop_last() =~= Seq::<u8>::empty());
    reveal_with_fuel(BufferModel::fed_all, 2);
}

/// Delete takes out the one character at the cursor and leaves the cursor
/// where it is; at the end of the line it does nothing.
pub proof fn delete_takes_one_character(m: BufferModel)
    requires
        m.wf(),
        m.is_ground(),
    ensures
        ({
            let after = m.fed_all(seq![0x1Bu8, 0x5B, 0x33, 0x7E]).0;
            &&& after.cursor == m.cursor
            &&& after.is_ground()
            &&& m.cursor < m.text.len() ==> {
                &&& after.text.len() == m.text.len() - 1
                &&& forall|i: int| 0 <= i < m.cursor ==> after.text[i] == m.text[i]
                &&& forall|i: int| m.cursor <= i < after.text.len() ==> after.text[i] == m.text[i + 1]
            }
            &&& m.cursor == m.text.len() ==> after.text == m.text
        }),
{
    feed_four(m, 0x1B, 0x5B, 0x33, 0x7E);
    reveal_strlit("3");
    assert(Seq::<char>::empty().push(0x33u8 as char) =~= "3"@);
}

/// Delete takes back a character that was typed and stepped over with Left.
pub proof fn delete_undoes_typing(m: BufferModel, c: char)
    requires
        m.wf(),
        m.is_ground(),
        is_printable(c),
    ensures
        ({
            let typed = m.fed_all(encode_utf8(seq![c])).0;
            let back = typed.fed_all(seq![0x1Bu8, 0x5B, 0x44]).0;
            same_line(back.fed_all(seq![0x1Bu8, 0x5B, 0x33, 0x7E]).0, m)
        }),
{
    typed_char_is_inserted(m, c);
    let typed = m.fed_all(encode_utf8(seq![c])).0;
    let expected = m.inserted(seq![c]);
    assert(expected.text =~= m.text.take(m.cursor).push(c) + m.text.skip(m.cursor));
    assert forall|i: int| 0 <= i < typed.text.len() implies is_content(#[trigger] typed.text[i]) by {
        if i < m.cursor {
            assert(typed.text[i] == m.text[i]);
        } else if i > m.cursor {
            assert(typed.text[i] == m.text[i - 1]);
        }
    }
    assert(typed.wf());
    arrows_step_by_one(typed, 0x5B);
    feed_three(typed, 0x1B, 0x5B, 0x44);
    let back = typed.fed_all(seq![0x1Bu8, 0x5B, 0x44]).0;
    assert(back.wf());
    delete_takes_one_character(back);
    assert(back.fed_all(seq![0x1Bu8, 0x5B, 0x33, 0x7E]).0.text =~= m.text);
}

/// Backspace takes out the one character before the cursor; at the start of
/// the line it does nothing.
pub proof fn backspace_takes_one_character(m: BufferModel, backspace: u8)
    requires
        m.wf(),
        m.is_ground(),
        backspace == 0x08 || backspace == 0x7F,
    ensures
        ({
            let after = m.fed(backspace).0;
            &&& after.is_ground()
            &&& m.cursor == 0 ==> same_line(after, m)
            &&& m.cursor > 0 ==> {
                &&& after.cursor == m.cursor - 1
                &&& after.text.len() == m.text.len() - 1
                &&& forall|i: int| 0 <= i < after.cursor ==> after.text[i] == m.text[i]
                &&& forall|i: int|
                    after.cursor <= i < after.text.len() ==> after.text[i] == m.text[i + 1]
            }
        }),
{
}

/// Ctrl-U takes out everything before the cursor and keeps everything behind
/// it.
pub proof fn kill_takes_line_before_cursor(m: BufferModel)
    requires
        m.wf(),
        m.is_ground(),
    ensures
        ({
            let after = m.fed(0x15).0;
            &&& after.is_ground()
            &&& after.cursor == 0
            &&& after.text.len() == m.text.len() - m.cursor
            &&& forall|i: int| 0 <= i < after.text.len() ==> after.text[i] == m.text[m.cursor + i]
        }),
{
}

/// Ctrl-W takes out the word before the cursor with the whitespace behind it,
/// all of the word and no more.
pub proof fn word_kill_takes_one_word(m: BufferModel)
    requires
        m.wf(),
        m.is_ground(),
    ensures
        ({
            let after = m.fed(0x17).0;
            let k = after.cursor;
            &&& after.is_ground()
            &&& 0 <= k <= m.cursor
            &&& after.text == m.text.take(k) + m.text.skip(m.cursor)
            &&& exists|j: int|
                k <= j <= m.cursor && #[trigger] is_word_with_blanks(m.text, k, j, m.cursor)
        }),
{
    let j = run_start(m.text, m.cursor, true);
    run_start_bounds(m.text, m.cursor, true);
    run_start_bounds(m.text, j, false);
    let k = run_start(m.text, j, false);
    run_start_is_maximal(m.text, m.cursor, true);
    run_start_is_maximal(m.text, j, false);
    assert(is_word_with_blanks(m.text, k, j, m.cursor));
    assert(m.text.take(m.cursor) + m.text.skip(m.cursor) =~= m.text);
}

/// Whether `from..mid` is a whole word and `mid..to` are all blanks behind it.
pub open spec fn is_word_with_blanks(text: Seq<char>, from: int, mid: int, to: int) -> bool {
    &&& forall|i: int|
        from <= i < mid ==> !crate::text::is_white_space(#[trigger] text[i])
    &&& forall|i: int| mid <= i < to ==> crate::text::is_white_space(#[trigger] text[i])
    &&& from == 0 || crate::text::is_white_space(text[from - 1])
    &&& from == mid ==> mid == 0
}

/// Enter outside a paste, Ctrl-C, Ctrl-D and a lone Esc submit or drop the
/// line: what follows starts on an empty one.
pub proof fn line_ends_where_it_is_left(m: BufferModel, byte: u8)
    requires
        m.wf(),
        m.is_ground(),
    ensures
        (byte == 0x0D || byte == 0x0A) && !m.in_paste && !m.chunk_paste ==> m.fed(byte).1
            == FeedOutcome::Boundary,
        byte == 0x03 || byte == 0x04 ==> m.fed(byte).1 == FeedOutcome::Boundary,
        byte != 0x5B && byte != 0x5D && byte != 0x4F ==> m.fed(0x1B).0.fed(byte).1
            == FeedOutcome::Boundary,
        m.fed(byte).1 == FeedOutcome::Boundary ==> byte == 0x0D || byte == 0x0A || byte == 0x03
            || byte == 0x04,
        byte == 0x0D || byte == 0x0A || byte == 0x03 || byte == 0x04 ==> m.fed(byte).1
            == FeedOutcome::Boundary || m.in_paste || m.chunk_paste,
{
}

/// In a paste, by markers or by the look of its chunk, CR and LF put a line
/// feed at the cursor.
pub proof fn pasted_break_is_a_line_feed(m: BufferModel, byte: u8)
    requires
        m.wf(),
        m.is_ground(),
        m.in_paste || m.chunk_paste,
        byte == 0x0D || byte == 0x0A,
    ensures
        ({
            let after = m.fed(byte).0;
            &&& after.cursor == m.cursor + 1
            &&& after.text == m.text.take(m.cursor).push('\n') + m.text.skip(m.cursor)
            &&& after.is_ground()
            &&& after.in_paste == m.in_paste
            &&& after.chunk_paste == m.chunk_paste
        }),
{
    assert(m.fed(byte).0.text =~= m.text.take(m.cursor).push('\n') + m.text.skip(m.cursor));
}

/// Control characters without a meaning leave the line alone.
pub proof fn other_controls_do_nothing(m: BufferModel, byte: u8)
    requires
        m.wf(),
        m.is_ground(),
        byte < 0x20 || byte >= 0x7F,
        byte != 0x01 && byte != 0x03 && byte != 0x04 && byte != 0x05 && byte != 0x08 && byte
            != 0x0A && byte != 0x0D && byte != 0x15 && byte != 0x17 && byte != 0x7F,
    ensures
        same_line(m.fed(byte).0, m),
        m.fed(byte).1 == FeedOutcome::NoChange,
        byte != 0x1B && !(0xC0 <= byte <= 0xF7) ==> m.fed(byte).0 == m,
{
}

/// Escape sequences other than the cursor keys and Delete leave the line alone
/// and end with their final byte: a CSI sequence with its first byte from `@`
/// to `~`, an SS3 sequence with one byte, an OSC with BEL.
pub proof fn other_sequences_do_nothing(m: BufferModel, byte: u8)
    requires
        m.wf(),
        m.utf8_remaining == 0,
        m.state != ParseState::Normal && m.state != ParseState::AfterEsc,
    ensures
        m.state == ParseState::InOsc ==> same_line(m.fed(byte).0, m) && m.fed(byte).1
            == FeedOutcome::NoChange,
        m.state == ParseState::InOsc && byte != 0x07 && byte != 0x1B ==> m.fed(byte).0 == m,
        m.state == ParseState::InOsc && byte == 0x07 ==> m.fed(byte).0.is_ground(),
        m.state == ParseState::InSs3 ==> m.fed(byte).0.is_ground(),
        m.state == ParseState::InCsi && 0x40 <= byte <= 0x7E ==> m.fed(byte).0.is_ground(),
        m.state == ParseState::InCsi && 0x20 <= byte <= 0x3F ==> m.fed(byte).0.state
            == ParseState::InCsi && same_line(m.fed(byte).0, m),
        !(byte == 0x43 || byte == 0x44 || byte == 0x46 || byte == 0x48 || byte == 0x7E)
            ==> same_line(m.fed(byte).0, m),
        byte == 0x7E && (m.state != ParseState::InCsi || m.csi_params != seq!['3']) ==> same_line(
            m.fed(byte).0,
            m,
        ),
{
    reveal_strlit("3");
    assert("3"@ =~= seq!['3']);
}

/// An escape sequence begins with Esc and one of `[`, `]` and `O`.
pub proof fn sequences_are_entered(m: BufferModel)
    requires
        m.wf(),
        m.is_ground(),
    ensures
        same_line(m.fed(0x1B).0, m),
        m.fed(0x1B).0.fed(0x5B).0.state == ParseState::InCsi,
        m.fed(0x1B).0.fed(0x5B).0.csi_params.len() == 0,
        m.fed(0x1B).0.fed(0x5D).0.state == ParseState::InOsc,
        m.fed(0x1B).0.fed(0x4F).0.state == ParseState::InSs3,
        same_line(m.fed(0x1B).0.fed(0x5B).0, m),
        same_line(m.fed(0x1B).0.fed(0x5D).0, m),
        same_line(m.fed(0x1B).0.fed(0x4F).0, m),
{
}

/// Bytes that are no UTF-8 put nothing on the line.
pub proof fn broken_characters_are_dropped(m: BufferModel, byte: u8)
    requires
        m.wf(),
        m.state == ParseState::Normal,
        m.utf8_remaining > 0,
        m.utf8_remaining > 1 || !valid_utf8(m.utf8_partial.push(byte)),
    ensures
        same_line(m.fed(byte).0, m),
        m.fed(byte).0.utf8_remaining == m.utf8_remaining - 1,
{
}

/// The outcome of bytes fed in two parts: a boundary where one part had one,
/// and no change only where neither part made one.
pub proof fn outcome_tells_what_happened(m: BufferModel, a: Seq<u8>, b: Seq<u8>)
    ensures
        ({
            let first = m.fed_all(a);
            let second = first.0.fed_all(b);
            let both = m.fed_all(a + b);
            &&& both.0 == second.0
            &&& both.1 == FeedOutcome::Boundary <==> first.1 == FeedOutcome::Boundary || second.1
                == FeedOutcome::Boundary
            &&& both.1 == FeedOutcome::NoChange <==> first.1 == FeedOutcome::NoChange && second.1
                == FeedOutcome::NoChange
        }),
{
    fed_all_concat(m, a, b);
}

/// A buffer starts with an empty line, outside every sequence and paste.
pub proof fn buffer_starts_empty()
    ensures
        BufferModel::init().text.len() == 0,
        BufferModel::init().cursor == 0,
        BufferModel::init().is_ground(),
        !BufferModel::init().in_paste,
        !BufferModel::init().chunk_paste,
        BufferModel::init().wf(),
{
}

/// Only the paste markers and the end of a line change whether a paste is under
/// way, and no byte changes whether its chunk is one.
pub proof fn paste_lasts_between_its_markers(m: BufferModel, byte: u8)
    requires
        m.wf(),
    ensures
        m.fed(byte).0.chunk_paste == m.chunk_paste,
        m.fed(byte).1 != FeedOutcome::Boundary && (m.state != ParseState::InCsi || byte != 0x7E)
            ==> m.fed(byte).0.in_paste == m.in_paste,
        m.state == ParseState::InCsi && byte == 0x7E && m.csi_params != seq!['2', '0', '0']
            && m.csi_params != seq!['2', '0', '1'] ==> m.fed(byte).0.in_paste == m.in_paste,
        m.state == ParseState::InCsi && byte == 0x7E && m.csi_params == seq!['2', '0', '0']
            ==> m.fed(byte).0.in_paste,
        m.state == ParseState::InCsi && byte == 0x7E && m.csi_params == seq!['2', '0', '1']
            ==> !m.fed(byte).0.in_paste,
{
    reveal_strlit("3");
    reveal_strlit("200");
    reveal_strlit("201");
    assert("200"@ =~= seq!['2', '0', '0']);
    assert("201"@ =~= seq!['2', '0', '1']);
    assert("200"@[2] != "201"@[2]);
    assert("3"@.len() == 1);
}

/// A parameter of a CSI sequence is kept as it comes, a byte that does not
/// belong there ends the sequence, and Esc in an OSC begins a new one.
pub proof fn sequences_go_on(m: BufferModel, byte: u8)
    requires
        m.wf(),
        m.utf8_remaining == 0,
    ensures
        m.state == ParseState::InCsi && 0x20 <= byte <= 0x3F ==> m.fed(byte).0.csi_params
            == m.csi_params.push(byte as char),
        m.state == ParseState::InCsi && (byte < 0x20 || byte > 0x7E) ==> m.fed(
            byte,
        ).0.is_ground() && same_line(m.fed(byte).0, m),
        m.state == ParseState::InOsc && byte == 0x1B ==> m.fed(byte).0.state
            == ParseState::AfterEsc,
{
}

/// Every character but the control characters of ASCII can be typed, whatever
/// number of bytes it has: it comes to stand at the cursor, between what was
/// before and behind it.
pub proof fn every_character_can_be_typed(m: BufferModel, c: char)
    requires
        m.wf(),
        m.is_ground(),
        c as u32 >= 0x20,
        c as u32 != 0x7F,
    ensures
        ({
            let (after, outcome) = m.fed_all(encode_utf8(seq![c]));
            &&& outcome == FeedOutcome::Updated
            &&& after.text == m.text.take(m.cursor).push(c) + m.text.skip(m.cursor)
            &&& after.cursor == m.cursor + 1
            &&& after.is_ground()
        }),
{
    typed_char_is_inserted(m, c);
    let after = m.fed_all(encode_utf8(seq![c])).0;
    assert(after.text =~= m.text.take(m.cursor).push(c) + m.text.skip(m.cursor));
}

} // verus!
