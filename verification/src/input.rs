//! The keystroke buffer together with the spell engine, and the cached result
//! of the last check.

use crate::buffer::{BufferModel, FeedOutcome, InputBuffer};
use crate::dict::{entries, DEFAULT_DICT_TEXT};
use crate::spell::{issues_view, possible_issues, IssueView, SpellChecker, SpellIssue};
use vstd::prelude::*;

verus! {

/// What an `InputState` holds.
#[verifier::ext_equal]
pub struct InputModel {
    pub buffer: BufferModel,
    pub issues: Seq<IssueView>,
    pub dict: Set<Seq<char>>,
    /// The buffer version that `issues` belongs to.
    pub checked: u64,
}

impl InputModel {
    pub open spec fn init(dict: Set<Seq<char>>) -> InputModel {
        InputModel { buffer: BufferModel::init(), issues: Seq::empty(), dict, checked: 0 }
    }

    pub open spec fn wf(self) -> bool {
        &&& self.buffer.wf()
        &&& forall|k: int|
            0 <= k < self.issues.len() ==> 0 <= (#[trigger] self.issues[k]).char_start
                < self.issues[k].char_end
    }

    /// The cached issues are those of the text as it stands.
    pub open spec fn in_sync(self) -> bool {
        &&& self.checked == self.buffer.version
        &&& possible_issues(self.buffer.text, self.dict, self.issues)
    }

    /// `after` is this state with the cache brought up to date: nothing is
    /// checked anew where the buffer is as it was at the last check.
    pub open spec fn refreshes_to(self, after: InputModel) -> bool {
        &&& after.buffer == self.buffer
        &&& after.dict == self.dict
        &&& after.checked == self.buffer.version
        &&& if self.checked == self.buffer.version {
            after.issues == self.issues
        } else {
            possible_issues(self.buffer.text, self.dict, after.issues)
        }
    }

    /// This state with an empty cache. That is the right one for an empty
    /// buffer; any other is still to be checked.
    pub open spec fn cleared(self) -> InputModel {
        InputModel {
            issues: Seq::empty(),
            checked: if self.buffer.text.len() == 0 {
                self.buffer.version
            } else {
                previous_version(self.buffer.version)
            },
            ..self
        }
    }

    /// The state after bytes were fed and not yet checked.
    pub open spec fn deferred(self, bytes: Seq<u8>) -> InputModel {
        let (buffer, outcome) = self.buffer.fed_all(bytes);
        let fed = InputModel { buffer, ..self };
        if outcome == FeedOutcome::Boundary {
            fed.cleared()
        } else {
            fed
        }
    }

    /// `after` is the state after bytes were fed and checked.
    pub open spec fn feeds_to(self, bytes: Seq<u8>, after: InputModel) -> bool {
        if self.buffer.fed_all(bytes).1 == FeedOutcome::NoChange {
            after == self.deferred(bytes)
        } else {
            self.deferred(bytes).refreshes_to(after)
        }
    }
}

/// The version that `v` follows.
pub open spec fn previous_version(v: u64) -> u64 {
    if v == 0 {
        u64::MAX
    } else {
        (v - 1) as u64
    }
}

pub struct InputState {
    buffer: InputBuffer,
    checker: SpellChecker,
    issues: Vec<SpellIssue>,
    last_checked_version: u64,
}

impl View for InputState {
    type V = InputModel;

    closed spec fn view(&self) -> InputModel {
        InputModel {
            buffer: self.buffer@,
            issues: issues_view(self.issues@),
            dict: self.checker.dict(),
            checked: self.last_checked_version,
        }
    }
}

impl InputState {
    pub open spec fn wf(&self) -> bool {
        self@.wf()
    }

    /// A fresh state over the bundled dictionary.
    pub fn new() -> (r: Self)
        ensures
            r@ == InputModel::init(entries(DEFAULT_DICT_TEXT@)),
            r.wf(),
            r@.in_sync(),
    {
        InputState::with_checker(SpellChecker::new())
    }

    /// A fresh state over `checker`.
    pub fn with_checker(checker: SpellChecker) -> (r: Self)
        ensures
            r@ == InputModel::init(checker.dict()),
            r.wf(),
            r@.in_sync(),
    {
        let r = InputState {
            buffer: InputBuffer::new(),
            checker,
            issues: Vec::new(),
            last_checked_version: 0,
        };
        proof {
            assert(r@.issues =~= Seq::<IssueView>::empty());
        }
        r
    }

    pub fn buffer(&self) -> (r: &InputBuffer)
        ensures
            r@ == self@.buffer,
    {
        &self.buffer
    }

    /// Turns the paste flag of the buffer on or off; see
    /// `InputBuffer::set_chunk_paste`.
    pub fn set_chunk_paste(&mut self, flag: bool)
        ensures
            final(self)@ == (InputModel {
                buffer: BufferModel { chunk_paste: flag, ..old(self)@.buffer },
                ..old(self)@
            }),
    {
        self.buffer.set_chunk_paste(flag);
    }

    pub fn issues(&self) -> (r: &[SpellIssue])
        ensures
            issues_view(r@) == self@.issues,
    {
        self.issues.as_slice()
    }

    /// Feeds bytes and brings the issues up to date; a boundary clears them.
    pub fn feed_bytes(&mut self, bytes: &[u8]) -> (r: FeedOutcome)
        requires
            old(self).wf(),
        ensures
            r == old(self)@.buffer.fed_all(bytes@).1,
            old(self)@.feeds_to(bytes@, final(self)@),
            final(self).wf(),
    {
        let outcome = self.feed_bytes_deferred(bytes);
        match outcome {
            FeedOutcome::NoChange => {},
            _ => self.refresh_issues(),
        }
        outcome
    }

    /// Feeds bytes without a check, for paste bursts, where a check of every
    /// prefix would stall the input. Call `refresh` once afterwards. A
    /// boundary still clears the issues at once.
    pub fn feed_bytes_deferred(&mut self, bytes: &[u8]) -> (r: FeedOutcome)
        requires
            old(self).wf(),
        ensures
            r == old(self)@.buffer.fed_all(bytes@).1,
            final(self)@ == old(self)@.deferred(bytes@),
            final(self).wf(),
    {
        let outcome = self.buffer.feed_bytes(bytes);
        if let FeedOutcome::Boundary = outcome {
            self.issues.clear();
            let v: u64 = self.buffer.version();
            self.last_checked_version = if self.buffer.is_empty() {
                v
            } else {
                v.wrapping_sub(1)
            };
            proof {
                assert(self@.issues =~= Seq::<IssueView>::empty());
            }
        }
        outcome
    }

    /// Brings the issues up to date with the buffer. Runs the linter at most
    /// once, and not at all where the buffer is as it was at the last check.
    pub fn refresh(&mut self)
        requires
            old(self).wf(),
        ensures
            old(self)@.refreshes_to(final(self)@),
            final(self).wf(),
    {
        self.refresh_issues();
    }

    fn refresh_issues(&mut self)
        requires
            old(self).wf(),
        ensures
            old(self)@.refreshes_to(final(self)@),
            final(self).wf(),
    {
        let v: u64 = self.buffer.version();
        if v == self.last_checked_version {
            return;
        }
        self.last_checked_version = v;
        self.issues = self.checker.check(self.buffer.text());
    }
}

impl Default for InputState {
    fn default() -> (r: Self)
        ensures
            r@ == InputModel::init(entries(DEFAULT_DICT_TEXT@)),
            r.wf(),
    {
        InputState::new()
    }
}

/// A second refresh changes nothing.
pub proof fn refresh_is_idempotent(before: InputModel, once: InputModel, twice: InputModel)
    requires
        before.refreshes_to(once),
        once.refreshes_to(twice),
    ensures
        twice == once,
{
}

/// A boundary leaves no issue behind: none of the old text, and none at all
/// where nothing was typed after it.
pub proof fn boundary_clears_issues(before: InputModel, bytes: Seq<u8>, after: InputModel)
    requires
        before.buffer.fed_all(bytes).1 == FeedOutcome::Boundary,
    ensures
        before.deferred(bytes).issues.len() == 0,
        before.feeds_to(bytes, after) && after.buffer.text.len() == 0 ==> after.issues.len() == 0,
{
}

/// How many of the bytes change the line or reset it.
pub open spec fn changing_bytes(m: BufferModel, bytes: Seq<u8>) -> nat
    decreases bytes.len(),
{
    if bytes.len() == 0 {
        0
    } else {
        let before = m.fed_all(bytes.drop_last()).0;
        changing_bytes(m, bytes.drop_last()) + if before.fed(bytes.last()).1
            == FeedOutcome::NoChange {
            0nat
        } else {
            1nat
        }
    }
}

/// The version counts the bytes that change the line, so it tells whether any
/// did.
pub proof fn version_counts_changes(m: BufferModel, bytes: Seq<u8>)
    requires
        m.wf(),
    ensures
        m.fed_all(bytes).0.wf(),
        changing_bytes(m, bytes) <= bytes.len(),
        m.fed_all(bytes).0.version == (m.version + changing_bytes(m, bytes))
            % 0x1_0000_0000_0000_0000,
        m.fed_all(bytes).1 == FeedOutcome::NoChange <==> changing_bytes(m, bytes) == 0,
        changing_bytes(m, bytes) == 0 ==> m.fed_all(bytes).0.text == m.text && m.fed_all(
            bytes,
        ).0.cursor == m.cursor,
    decreases bytes.len(),
{
    if bytes.len() > 0 {
        let before = m.fed_all(bytes.drop_last()).0;
        version_counts_changes(m, bytes.drop_last());
        crate::buffer::fed_keeps_wf(before, bytes.last());
        let outcome = before.fed(bytes.last()).1;
        if outcome == FeedOutcome::NoChange {
            crate::buffer::no_change_keeps_line(before, bytes.last());
        } else if outcome == FeedOutcome::Updated {
            crate::buffer::updated_changes_line(before, bytes.last());
        } else {
            crate::buffer::boundary_clears_line(before, bytes.last());
        }
    }
}

/// A burst fed without checks and then refreshed once ends with the same
/// buffer as the burst fed with checks, and with issues of that text.
pub proof fn deferred_feed_then_refresh(before: InputModel, bytes: Seq<u8>, after: InputModel)
    requires
        before.buffer.wf(),
        before.in_sync(),
        bytes.len() <= usize::MAX,
        before.deferred(bytes).refreshes_to(after),
    ensures
        after.buffer == before.buffer.fed_all(bytes).0,
        after.in_sync(),
{
    version_counts_changes(before.buffer, bytes);
    let k = changing_bytes(before.buffer, bytes);
    if k > 0 {
        assert((before.buffer.version + k) % 0x1_0000_0000_0000_0000 != before.buffer.version);
    }
}

/// The issues always belong to the text as it stands, however the bytes are
/// cut into chunks.
pub proof fn fed_bytes_keep_sync(before: InputModel, bytes: Seq<u8>, after: InputModel)
    requires
        before.buffer.wf(),
        before.in_sync(),
        bytes.len() <= usize::MAX,
        before.feeds_to(bytes, after),
    ensures
        after.buffer == before.buffer.fed_all(bytes).0,
        after.in_sync(),
        after.buffer.wf(),
{
    version_counts_changes(before.buffer, bytes);
    if before.buffer.fed_all(bytes).1 != FeedOutcome::NoChange {
        deferred_feed_then_refresh(before, bytes, after);
    }
}

/// After bytes were fed the issues are those of a check of the text that the
/// bytes made, over the same dictionary, if they were those of the text before.
pub proof fn issues_follow_the_text(before: InputModel, bytes: Seq<u8>, after: InputModel)
    requires
        before.wf(),
        before.checked == before.buffer.version,
        possible_issues(before.buffer.text, before.dict, before.issues),
        before.feeds_to(bytes, after),
        bytes.len() <= usize::MAX,
    ensures
        after.buffer == before.buffer.fed_all(bytes).0,
        after.dict == before.dict,
        possible_issues(after.buffer.text, after.dict, after.issues),
{
    fed_bytes_keep_sync(before, bytes, after);
}

/// Bytes that are fed without a check change the buffer alone, but for a
/// boundary, which clears the issues; a refresh then checks the text.
pub proof fn deferred_bytes_are_checked_later(
    before: InputModel,
    bytes: Seq<u8>,
    after: InputModel,
)
    requires
        before.deferred(bytes).refreshes_to(after),
        before.deferred(bytes).checked != before.deferred(bytes).buffer.version,
    ensures
        before.deferred(bytes).buffer == before.buffer.fed_all(bytes).0,
        before.buffer.fed_all(bytes).1 != FeedOutcome::Boundary ==> before.deferred(bytes).issues
            == before.issues,
        before.buffer.fed_all(bytes).1 == FeedOutcome::Boundary ==> before.deferred(
            bytes,
        ).issues.len() == 0,
        after.buffer == before.buffer.fed_all(bytes).0,
        possible_issues(after.buffer.text, before.dict, after.issues),
{
}

} // verus!
