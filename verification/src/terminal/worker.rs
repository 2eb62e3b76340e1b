//! The worker of a terminal: when it waits, what it does with a message, when
//! it takes a frame, and the mailbox that frames go through.

use vstd::prelude::*;
use vstd::string::*;
use vstd::utf8::encode_utf8;
use crate::terminal::command::{MouseInput, MouseScrollInput, TerminalOptions, TerminalSize};
use crate::terminal::frame;
use crate::terminal::frame::{FramePatch, FrameView};
use crate::terminal::input::KeyInput;
use crate::text;

verus! {

/// The shortest time between two frames, in nanoseconds.
pub const FRAME_INTERVAL: u64 = 16_000_000;

/// How long a query has to stay unchanged before it is searched, in nanoseconds.
pub const SEARCH_DEBOUNCE: u64 = 130_000_000;

/// The mailbox holds at most this many row patches for each row of the screen.
pub const MAILBOX_ROW_PATCH_FACTOR: usize = 8;

/// How many bytes a terminal program may put on the clipboard.
pub const OSC52_CLIPBOARD_LIMIT: usize = 0x10_0000;

/// What the worker is told to do.
#[derive(Debug)]
pub enum WorkerMessage {
    Input { input: KeyInput, control: bool, alt: bool, shift: bool, altgr: bool },
    /// The latest size, where none was taken before.
    Resize(Option<TerminalSize>),
    PasteClipboard,
    ClipboardStore(String),
    ClipboardLoad,
    ColorRequest(usize),
    Mouse(MouseInput),
    MouseScroll(MouseScrollInput),
    /// The latest scroll position, where none was taken before.
    ScrollTo(Option<usize>),
    CopySelection,
    SelectAll,
    Search(String),
    SearchStep(bool),
    ForceFullRedraw,
    SetOptions(TerminalOptions),
    SetActive(bool),
    Render,
    Shutdown,
}

/// What the worker does about a message.
#[derive(Debug, PartialEq, Eq)]
pub enum WorkerAction {
    Nothing,
    SendKey { input: KeyInput, control: bool, alt: bool, shift: bool, altgr: bool },
    Resize(TerminalSize),
    PasteClipboard,
    CopyToClipboard(String),
    AnswerClipboard,
    AnswerColor(usize),
    Mouse(MouseInput),
    MouseScroll(MouseScrollInput),
    ScrollTo(usize),
    CopySelection,
    SelectAll,
    UpdateSearch(String),
    /// Search for the query first, where there is one.
    SearchStep { query: Option<String>, previous: bool },
    RequestFullRedraw,
    SetOptions(TerminalOptions),
    Stop,
}

/// What a mouse event asks of the clipboard.
#[derive(Debug, PartialEq, Eq)]
pub enum MouseEffect {
    Nothing,
    CopyToClipboard(String),
    PasteFromClipboard,
}

/// What the worker does about the effect of a mouse event. A copy of the user's
/// own has no limit.
pub fn mouse_effect_action(effect: MouseEffect) -> (action: WorkerAction)
    ensures
        action == (match effect {
            MouseEffect::Nothing => WorkerAction::Nothing,
            MouseEffect::CopyToClipboard(copied) => WorkerAction::CopyToClipboard(copied),
            MouseEffect::PasteFromClipboard => WorkerAction::PasteClipboard,
        }),
{
    match effect {
        MouseEffect::Nothing => WorkerAction::Nothing,
        MouseEffect::CopyToClipboard(copied) => WorkerAction::CopyToClipboard(copied),
        MouseEffect::PasteFromClipboard => WorkerAction::PasteClipboard,
    }
}

/// What the worker takes from the terminal.
#[derive(Clone, Copy, Debug, PartialEq, Eq, Structural)]
pub enum FrameKind {
    View,
    Metadata,
}

/// When the worker does what. Times are in nanoseconds on one clock.
pub struct WorkerState {
    frame_pending: bool,
    active: bool,
    next_frame: u64,
    pending_search: Option<(String, u64)>,
}

/// What a `WorkerState` holds.
#[verifier::ext_equal]
pub struct WorkerView {
    /// There may be something to draw.
    pub frame_pending: bool,
    /// The terminal is shown.
    pub active: bool,
    /// Before this time no frame is taken.
    pub next_frame: int,
    /// A query and the time at which it is searched.
    pub pending_search: Option<(Seq<char>, int)>,
}

impl View for WorkerState {
    type V = WorkerView;

    closed spec fn view(&self) -> WorkerView {
        WorkerView {
            frame_pending: self.frame_pending,
            active: self.active,
            next_frame: self.next_frame as int,
            pending_search: match self.pending_search {
                Some(pending) => Some((pending.0@, pending.1 as int)),
                None => None,
            },
        }
    }
}

/// A later time, as far as the clock goes.
pub open spec fn later(now: int, interval: int) -> int {
    if now + interval > u64::MAX {
        u64::MAX as int
    } else {
        now + interval
    }
}

/// The time that is left until a deadline.
pub open spec fn left_until(deadline: int, now: int) -> int {
    if deadline < now {
        0
    } else {
        deadline - now
    }
}

/// How long the worker waits for a message: until the next frame or the pending
/// search is due, whichever comes first, and for ever where neither is.
pub open spec fn next_wait(state: WorkerView, now: int) -> Option<int> {
    let for_frame = left_until(state.next_frame, now);
    match state.pending_search {
        Some(pending) => {
            let for_search = left_until(pending.1, now);
            if state.frame_pending && for_frame < for_search {
                Some(for_frame)
            } else {
                Some(for_search)
            }
        },
        None => if state.frame_pending {
            Some(for_frame)
        } else {
            None
        },
    }
}

/// The worker's state after a message. Any message may have changed the
/// terminal, so a frame is pending after each of them.
pub open spec fn after_message(state: WorkerView, message: WorkerMessage, now: int) -> WorkerView {
    let woken = WorkerView { frame_pending: true, ..state };
    match message {
        WorkerMessage::Search(query) => if query@.len() == 0 {
            WorkerView { pending_search: None, ..woken }
        } else {
            WorkerView {
                pending_search: Some((query@, later(now, SEARCH_DEBOUNCE as int))),
                ..woken
            }
        },
        WorkerMessage::SearchStep(_) => WorkerView { pending_search: None, ..woken },
        WorkerMessage::SetActive(active) => WorkerView { active, ..woken },
        _ => woken,
    }
}

/// Whether an action is the one that a message calls for.
pub open spec fn answers_message(
    state: WorkerView,
    message: WorkerMessage,
    action: WorkerAction,
) -> bool {
    match message {
        WorkerMessage::Input { input, control, alt, shift, altgr } => action == (
        WorkerAction::SendKey { input, control, alt, shift, altgr }),
        WorkerMessage::Resize(size) => match size {
            Some(size) => action == WorkerAction::Resize(size),
            None => action is Nothing,
        },
        WorkerMessage::PasteClipboard => action is PasteClipboard,
        WorkerMessage::ClipboardStore(stored) => if encode_utf8(stored@).len()
            <= OSC52_CLIPBOARD_LIMIT {
            action == WorkerAction::CopyToClipboard(stored)
        } else {
            action is Nothing
        },
        WorkerMessage::ClipboardLoad => action is AnswerClipboard,
        WorkerMessage::ColorRequest(index) => action == WorkerAction::AnswerColor(index),
        WorkerMessage::Mouse(input) => action == WorkerAction::Mouse(input),
        WorkerMessage::MouseScroll(input) => action == WorkerAction::MouseScroll(input),
        WorkerMessage::ScrollTo(offset) => match offset {
            Some(offset) => action == WorkerAction::ScrollTo(offset),
            None => action is Nothing,
        },
        WorkerMessage::CopySelection => action is CopySelection,
        WorkerMessage::SelectAll => action is SelectAll,
        WorkerMessage::Search(query) => if query@.len() == 0 {
            action == WorkerAction::UpdateSearch(query)
        } else {
            action is Nothing
        },
        WorkerMessage::SearchStep(previous) => {
            &&& action is SearchStep
            &&& action->previous == previous
            &&& text::optional(action->query) == (match state.pending_search {
                Some(pending) => Some(pending.0),
                None => None,
            })
        },
        WorkerMessage::ForceFullRedraw => action is RequestFullRedraw,
        WorkerMessage::SetOptions(options) => action == WorkerAction::SetOptions(options),
        WorkerMessage::SetActive(_) => action is Nothing,
        WorkerMessage::Render => action is Nothing,
        WorkerMessage::Shutdown => action is Stop,
    }
}

/// Whether the pending search is due.
pub open spec fn search_is_due(state: WorkerView, now: int) -> bool {
    state.pending_search matches Some(pending) && pending.1 <= now
}

/// Whether a frame is due.
pub open spec fn frame_is_due(state: WorkerView, now: int) -> bool {
    state.frame_pending && state.next_frame <= now
}

fn left(deadline: u64, now: u64) -> (time: u64)
    ensures
        time == left_until(deadline as int, now as int),
{
    deadline.saturating_sub(now)
}

impl WorkerState {
    /// A worker that takes its first frame at once.
    pub fn new(now: u64) -> (state: WorkerState)
        ensures
            state@ == (WorkerView {
                frame_pending: true,
                active: true,
                next_frame: now as int,
                pending_search: None,
            }),
    {
        WorkerState { frame_pending: true, active: true, next_frame: now, pending_search: None }
    }

    /// How long to wait for a message; none means for ever.
    pub fn wait(&self, now: u64) -> (time: Option<u64>)
        ensures
            match time {
                Some(time) => next_wait(self@, now as int) == Some(time as int),
                None => next_wait(self@, now as int) is None,
            },
    {
        match &self.pending_search {
            Some(pending) => {
                let for_search = left(pending.1, now);
                let for_frame = left(self.next_frame, now);
                if self.frame_pending && for_frame < for_search {
                    Some(for_frame)
                } else {
                    Some(for_search)
                }
            },
            None => if self.frame_pending {
                Some(left(self.next_frame, now))
            } else {
                None
            },
        }
    }

    /// Takes in a message.
    pub fn receive(&mut self, message: WorkerMessage, now: u64) -> (action: WorkerAction)
        ensures
            final(self)@ == after_message(old(self)@, message, now as int),
            answers_message(old(self)@, message, action),
    {
        self.frame_pending = true;
        match message {
            WorkerMessage::Input { input, control, alt, shift, altgr } => WorkerAction::SendKey {
                input,
                control,
                alt,
                shift,
                altgr,
            },
            WorkerMessage::Resize(size) => match size {
                Some(size) => WorkerAction::Resize(size),
                None => WorkerAction::Nothing,
            },
            WorkerMessage::PasteClipboard => WorkerAction::PasteClipboard,
            WorkerMessage::ClipboardStore(stored) => {
                if stored.as_str().as_bytes().len() <= OSC52_CLIPBOARD_LIMIT {
                    WorkerAction::CopyToClipboard(stored)
                } else {
                    WorkerAction::Nothing
                }
            },
            WorkerMessage::ClipboardLoad => WorkerAction::AnswerClipboard,
            WorkerMessage::ColorRequest(index) => WorkerAction::AnswerColor(index),
            WorkerMessage::Mouse(input) => WorkerAction::Mouse(input),
            WorkerMessage::MouseScroll(input) => WorkerAction::MouseScroll(input),
            WorkerMessage::ScrollTo(offset) => match offset {
                Some(offset) => WorkerAction::ScrollTo(offset),
                None => WorkerAction::Nothing,
            },
            WorkerMessage::CopySelection => WorkerAction::CopySelection,
            WorkerMessage::SelectAll => WorkerAction::SelectAll,
            WorkerMessage::Search(query) => {
                if text::is_empty_text(query.as_str()) {
                    self.pending_search = None;
                    WorkerAction::UpdateSearch(query)
                } else {
                    self.pending_search = Some((query, now.saturating_add(SEARCH_DEBOUNCE)));
                    WorkerAction::Nothing
                }
            },
            WorkerMessage::SearchStep(previous) => {
                let query = match self.pending_search.take() {
                    Some(pending) => Some(pending.0),
                    None => None,
                };
                WorkerAction::SearchStep { query, previous }
            },
            WorkerMessage::ForceFullRedraw => WorkerAction::RequestFullRedraw,
            WorkerMessage::SetOptions(options) => WorkerAction::SetOptions(options),
            WorkerMessage::SetActive(active) => {
                self.active = active;
                WorkerAction::Nothing
            },
            WorkerMessage::Render => WorkerAction::Nothing,
            WorkerMessage::Shutdown => WorkerAction::Stop,
        }
    }

    /// The query to search for, once it has stayed unchanged long enough.
    pub fn take_due_search(&mut self, now: u64) -> (query: Option<String>)
        ensures
            search_is_due(old(self)@, now as int) ==> text::optional(query) == Some(
                (old(self)@.pending_search->0).0,
            ) && final(self)@ == (WorkerView {
                frame_pending: true,
                pending_search: None,
                ..old(self)@
            }),
            !search_is_due(old(self)@, now as int) ==> query is None && *final(self) == *old(self),
    {
        let due = match &self.pending_search {
            Some(pending) => pending.1 <= now,
            None => false,
        };
        if !due {
            return None;
        }
        self.frame_pending = true;
        match self.pending_search.take() {
            Some(pending) => Some(pending.0),
            None => None,
        }
    }

    /// Which frame to take now, if any: a terminal in the background reports its
    /// title and its end only.
    pub fn due_frame(&self, now: u64) -> (kind: Option<FrameKind>)
        ensures
            kind == (if !frame_is_due(self@, now as int) {
                None
            } else if self@.active {
                Some(FrameKind::View)
            } else {
                Some(FrameKind::Metadata)
            }),
    {
        if self.frame_pending && self.next_frame <= now {
            if self.active {
                Some(FrameKind::View)
            } else {
                Some(FrameKind::Metadata)
            }
        } else {
            None
        }
    }

    /// Notes that a due frame was taken. Where the mailbox overflowed, the
    /// terminal has to be asked for a full redraw, and the next frame is pending.
    pub fn frame_taken(&mut self, now: u64, overflowed: bool)
        ensures
            final(self)@ == (WorkerView {
                frame_pending: overflowed,
                next_frame: later(now as int, FRAME_INTERVAL as int),
                ..old(self)@
            }),
    {
        self.next_frame = now.saturating_add(FRAME_INTERVAL);
        self.frame_pending = overflowed;
    }
}

/// The worker never sleeps past a deadline and never wakes for nothing: when
/// the time it waits has passed, a frame or the search is due.
pub proof fn waits_end_when_something_is_due(state: WorkerView, now: int)
    requires
        next_wait(state, now) is Some,
    ensures
        ({
            let woken = now + next_wait(state, now)->0;
            frame_is_due(state, woken) || search_is_due(state, woken)
        }),
        forall|earlier: int|
            now <= earlier < now + next_wait(state, now)->0 ==> !frame_is_due(state, earlier)
                && !search_is_due(state, earlier),
{
}

/// Where nothing is pending the worker waits without a limit, and only then.
pub proof fn idle_workers_wait_for_ever(state: WorkerView, now: int)
    ensures
        next_wait(state, now) is None <==> !state.frame_pending && state.pending_search is None,
{
}

/// After a frame none is due before the frame interval has passed, whatever
/// message comes meanwhile.
pub proof fn frames_keep_their_distance(
    state: WorkerView,
    taken: int,
    overflowed: bool,
    message: WorkerMessage,
    now: int,
)
    requires
        0 <= taken,
        taken + FRAME_INTERVAL <= u64::MAX,
        now < taken + FRAME_INTERVAL,
    ensures
        ({
            let after = WorkerView {
                frame_pending: overflowed,
                next_frame: later(taken, FRAME_INTERVAL as int),
                ..state
            };
            &&& !frame_is_due(after, now)
            &&& !frame_is_due(after_message(after, message, now), now)
        }),
{
}

/// What came of a frame that was put into the mailbox.
#[derive(Clone, Copy, Debug, PartialEq, Eq, Structural)]
pub enum MailboxState {
    Merged,
    Overflowed,
}

/// A frame with the title and the exit message of another one, where that has any.
pub open spec fn with_metadata(target: FrameView, source: FrameView) -> FrameView {
    FrameView {
        title: if source.title is Some {
            source.title
        } else {
            target.title
        },
        exit_message: if source.exit_message is Some {
            source.exit_message
        } else {
            target.exit_message
        },
        ..target
    }
}

/// How many row patches the mailbox holds for a screen.
pub open spec fn mailbox_limit(rows: int) -> int {
    (if rows < 1 {
        1
    } else {
        rows
    }) * MAILBOX_ROW_PATCH_FACTOR
}

/// Whether a frame takes the place of the one in the mailbox: they are of
/// different grids, or the new one redraws everything.
pub open spec fn replaces(pending: FrameView, incoming: FrameView) -> bool {
    pending.generation != incoming.generation || pending.columns != incoming.columns || pending.rows
        != incoming.rows || incoming.full_redraw
}

/// Whether the mailbox would hold too many row patches with both frames.
pub open spec fn overflows(pending: FrameView, incoming: FrameView) -> bool {
    pending.changed_rows.len() + incoming.changed_rows.len() > mailbox_limit(pending.rows)
}

/// The frame in the mailbox after another one was put in.
pub open spec fn published(pending: Option<FrameView>, incoming: FrameView) -> (
    FrameView,
    MailboxState,
) {
    match pending {
        None => (incoming, MailboxState::Merged),
        Some(pending) => if incoming.metadata_only {
            (with_metadata(pending, incoming), MailboxState::Merged)
        } else if pending.metadata_only {
            (with_metadata(incoming, pending), MailboxState::Merged)
        } else if replaces(pending, incoming) {
            (with_metadata(with_metadata(incoming, pending), incoming), MailboxState::Merged)
        } else {
            let overflow = overflows(pending, incoming);
            (
                with_metadata(
                    FrameView {
                        changed_rows: if overflow {
                            Seq::empty()
                        } else {
                            pending.changed_rows + incoming.changed_rows
                        },
                        full_redraw: pending.full_redraw && !overflow,
                        full_redraw_reason: if overflow {
                            None
                        } else {
                            pending.full_redraw_reason
                        },
                        cursor: incoming.cursor,
                        scroll_offset: incoming.scroll_offset,
                        scroll_history_lines: incoming.scroll_history_lines,
                        search: incoming.search,
                        decorations: incoming.decorations,
                        ..pending
                    },
                    incoming,
                ),
                if overflow {
                    MailboxState::Overflowed
                } else {
                    MailboxState::Merged
                },
            )
        },
    }
}

/// What the mailbox holds.
pub open spec fn mailbox(slot: Option<FramePatch>) -> Option<FrameView> {
    match slot {
        Some(frame) => Some(frame@),
        None => None,
    }
}

fn merge_metadata(target: &mut FramePatch, title: Option<String>, exit_message: Option<String>)
    ensures
        final(target)@ == (FrameView {
            title: if title is Some {
                text::optional(title)
            } else {
                old(target)@.title
            },
            exit_message: if exit_message is Some {
                text::optional(exit_message)
            } else {
                old(target)@.exit_message
            },
            ..old(target)@
        }),
{
    if title.is_some() {
        target.title = title;
    }
    if exit_message.is_some() {
        target.exit_message = exit_message;
    }
}

/// Puts a frame into the mailbox. Patches keep the order in which they were
/// captured, so that patches of one row do not hide each other. Where they
/// become too many they are all dropped, and a full redraw is due.
pub fn publish_frame(slot: &mut Option<FramePatch>, incoming: FramePatch) -> (state: MailboxState)
    ensures
        *final(slot) is Some,
        (final(slot)->0@, state) == published(mailbox(*old(slot)), incoming@),
{
    let mut incoming = incoming;
    let mut pending = match slot.take() {
        Some(pending) => pending,
        None => {
            *slot = Some(incoming);
            return MailboxState::Merged;
        },
    };
    if incoming.metadata_only {
        merge_metadata(&mut pending, incoming.title, incoming.exit_message);
        *slot = Some(pending);
        return MailboxState::Merged;
    }
    if pending.metadata_only {
        merge_metadata(&mut incoming, pending.title, pending.exit_message);
        *slot = Some(incoming);
        return MailboxState::Merged;
    }
    if pending.generation != incoming.generation || pending.columns != incoming.columns
        || pending.rows != incoming.rows || incoming.full_redraw {
        if incoming.title.is_none() {
            incoming.title = pending.title;
        }
        if incoming.exit_message.is_none() {
            incoming.exit_message = pending.exit_message;
        }
        *slot = Some(incoming);
        return MailboxState::Merged;
    }
    let rows: usize = if pending.rows < 1 {
        1
    } else {
        pending.rows
    };
    let limit: u128 = rows as u128 * MAILBOX_ROW_PATCH_FACTOR as u128;
    let count: u128 = pending.changed_rows.len() as u128 + incoming.changed_rows.len() as u128;
    let overflowed = count > limit;
    let ghost before = pending.changed_rows@;
    let ghost added = incoming.changed_rows@;
    if overflowed {
        pending.changed_rows = Vec::new();
        pending.full_redraw = false;
        pending.full_redraw_reason = None;
        assert(frame::row_views(pending.changed_rows@) == Seq::<frame::RowView>::empty());
    } else {
        pending.changed_rows.append(&mut incoming.changed_rows);
        assert(frame::row_views(pending.changed_rows@) == frame::row_views(before)
            + frame::row_views(added));
    }
    pending.cursor = incoming.cursor;
    pending.scroll_offset = incoming.scroll_offset;
    pending.scroll_history_lines = incoming.scroll_history_lines;
    pending.search = incoming.search;
    pending.decorations = incoming.decorations;
    merge_metadata(&mut pending, incoming.title, incoming.exit_message);
    *slot = Some(pending);
    if overflowed {
        MailboxState::Overflowed
    } else {
        MailboxState::Merged
    }
}

/// Neither a title nor an exit message is ever lost in the mailbox, whatever
/// became of the rest of the frame. Where both frames have one, that of the
/// incoming frame is kept, but a pending frame of metadata only wins over an
/// incoming view.
pub proof fn mailbox_keeps_metadata(pending: FrameView, incoming: FrameView)
    ensures
        ({
            let frame = published(Some(pending), incoming).0;
            let preferred = if pending.metadata_only && !incoming.metadata_only {
                pending
            } else {
                incoming
            };
            let other = if pending.metadata_only && !incoming.metadata_only {
                incoming
            } else {
                pending
            };
            &&& frame.title == (if preferred.title is Some {
                preferred.title
            } else {
                other.title
            })
            &&& frame.exit_message == (if preferred.exit_message is Some {
                preferred.exit_message
            } else {
                other.exit_message
            })
        }),
{
}

/// A frame that only carries metadata leaves the view in the mailbox as it is,
/// and gives way to a frame with a view.
pub proof fn metadata_never_replaces_a_view(pending: FrameView, incoming: FrameView)
    requires
        pending.metadata_only != incoming.metadata_only,
    ensures
        ({
            let frame = published(Some(pending), incoming).0;
            let view = if pending.metadata_only {
                incoming
            } else {
                pending
            };
            frame == (FrameView {
                title: frame.title,
                exit_message: frame.exit_message,
                ..view
            })
        }),
{
}

/// The mailbox never holds more row patches than its limit, where no single
/// frame does.
pub proof fn mailbox_stays_within_its_limit(pending: FrameView, incoming: FrameView)
    requires
        pending.changed_rows.len() <= mailbox_limit(pending.rows),
        incoming.changed_rows.len() <= mailbox_limit(incoming.rows),
    ensures
        ({
            let frame = published(Some(pending), incoming).0;
            frame.changed_rows.len() <= mailbox_limit(frame.rows)
        }),
{
}

/// Patches of different grids never meet in one frame: what the mailbox holds
/// has the generation and the size of the newer view.
pub proof fn grids_never_mix(pending: FrameView, incoming: FrameView)
    requires
        !pending.metadata_only,
        !incoming.metadata_only,
    ensures
        ({
            let frame = published(Some(pending), incoming).0;
            &&& frame.generation == incoming.generation
            &&& frame.columns == incoming.columns
            &&& frame.rows == incoming.rows
            &&& replaces(pending, incoming) ==> frame.changed_rows == incoming.changed_rows
        }),
{
}

/// A view that is put into the mailbox decides where the cursor is, how the view is
/// scrolled, what is searched for and what is marked: what is read there is the
/// newest. A redraw of everything is never lost, unless too many patches have met.
pub proof fn newest_views_are_read(pending: FrameView, incoming: FrameView)
    requires
        !incoming.metadata_only,
    ensures
        ({
            let frame = published(Some(pending), incoming).0;
            let state = published(Some(pending), incoming).1;
            &&& !frame.metadata_only
            &&& frame.cursor == incoming.cursor
            &&& frame.scroll_offset == incoming.scroll_offset
            &&& frame.scroll_history_lines == incoming.scroll_history_lines
            &&& frame.search == incoming.search
            &&& frame.decorations == incoming.decorations
            &&& incoming.full_redraw ==> frame.full_redraw && frame.full_redraw_reason
                == incoming.full_redraw_reason && frame.changed_rows == incoming.changed_rows
            &&& !pending.metadata_only && pending.full_redraw && pending.generation
                == incoming.generation && pending.columns == incoming.columns && pending.rows
                == incoming.rows && state is Merged ==> frame.full_redraw
        }),
{
}

/// Two partial views of one grid are put together, the older patches first, as long
/// as there are no more than eight for each row of the screen. With more of them
/// all patches are dropped, which is told.
pub proof fn patches_are_kept_in_their_order(pending: FrameView, incoming: FrameView)
    requires
        !pending.metadata_only,
        !incoming.metadata_only,
        !incoming.full_redraw,
        pending.generation == incoming.generation,
        pending.columns == incoming.columns,
        pending.rows == incoming.rows,
        pending.rows >= 1,
    ensures
        ({
            let (frame, state) = published(Some(pending), incoming);
            let count = pending.changed_rows.len() + incoming.changed_rows.len();
            &&& count <= 8 * pending.rows ==> state is Merged && frame.changed_rows
                == pending.changed_rows + incoming.changed_rows && frame.full_redraw
                == pending.full_redraw
            &&& count > 8 * pending.rows ==> state is Overflowed && frame.changed_rows.len() == 0
                && !frame.full_redraw && frame.full_redraw_reason is None
        }),
{
}

/// The first frame in an empty mailbox stays as it is.
pub proof fn empty_mailboxes_take_any_frame(incoming: FrameView)
    ensures
        published(None, incoming).0 == incoming,
        published(None, incoming).1 is Merged,
{
}

/// A query is searched when it has stayed unchanged for 130 milliseconds, and not
/// before; a later query takes its place, and an empty one is taken over at once.
pub proof fn queries_wait_until_they_rest(
    state: WorkerView,
    query: String,
    other: String,
    asked: int,
    now: int,
)
    requires
        query@.len() > 0,
        other@.len() > 0,
        0 <= asked,
        asked + 130_000_000 <= u64::MAX,
    ensures
        ({
            let after = after_message(state, WorkerMessage::Search(query), asked);
            &&& after.pending_search matches Some(pending) && pending.0 == query@
            &&& search_is_due(after, now) <==> now >= asked + 130_000_000
            &&& after_message(after, WorkerMessage::Search(other), now) == after_message(
                state,
                WorkerMessage::Search(other),
                now,
            )
            &&& forall|previous: bool| #[trigger]
                after_message(after, WorkerMessage::SearchStep(previous), now).pending_search
                    is None
        }),
{
}

/// A step through the results takes the query that waits with it, so that it is
/// searched for first, and an empty query is taken over at once.
pub proof fn steps_take_the_waiting_query(
    state: WorkerView,
    previous: bool,
    empty: String,
    action: WorkerAction,
    now: int,
)
    requires
        empty@.len() == 0,
    ensures
        answers_message(state, WorkerMessage::SearchStep(previous), action) ==> action is SearchStep
            && action->previous == previous && (state.pending_search is None ==> action->query
            is None) && (state.pending_search matches Some(pending) ==> (
        action->query matches Some(query) && query@ == pending.0)),
        answers_message(state, WorkerMessage::Search(empty), action) ==> action
            == WorkerAction::UpdateSearch(empty) && after_message(
            state,
            WorkerMessage::Search(empty),
            now,
        ).pending_search is None,
{
}

/// Any message has a frame taken afterwards; none but those about a query changes
/// the waiting query, and none but the one that says so changes whether the
/// terminal is shown.
pub proof fn messages_change_little_else(state: WorkerView, message: WorkerMessage, now: int)
    ensures
        ({
            let after = after_message(state, message, now);
            &&& after.frame_pending
            &&& after.next_frame == state.next_frame
            &&& !(message is SetActive) ==> after.active == state.active
            &&& message matches WorkerMessage::SetActive(active) ==> after.active == active
            &&& !(message is Search) && !(message is SearchStep) ==> after.pending_search
                == state.pending_search
        }),
{
}

/// What the user does is passed on as it is: keys, mouse events, sizes and scroll
/// positions reach the terminal unchanged, and a query for a colour names the same
/// slot. A text that a program sets reaches the clipboard if it has no more than
/// 1048576 bytes.
pub proof fn messages_are_passed_on(
    state: WorkerView,
    message: WorkerMessage,
    action: WorkerAction,
)
    requires
        answers_message(state, message, action),
    ensures
        message is Input ==> action is SendKey && action->SendKey_input == message->input
            && action->control == message->control && action->alt == message->alt && action->shift
            == message->shift && action->altgr == message->altgr,
        message matches WorkerMessage::Mouse(input) ==> action == WorkerAction::Mouse(input),
        message matches WorkerMessage::MouseScroll(input) ==> action == WorkerAction::MouseScroll(
            input,
        ),
        message matches WorkerMessage::Resize(Some(size)) ==> action == WorkerAction::Resize(size),
        message matches WorkerMessage::Resize(None) ==> action is Nothing,
        message matches WorkerMessage::ScrollTo(Some(offset)) ==> action == WorkerAction::ScrollTo(
            offset,
        ),
        message matches WorkerMessage::ScrollTo(None) ==> action is Nothing,
        message matches WorkerMessage::ColorRequest(slot) ==> action == WorkerAction::AnswerColor(
            slot,
        ),
        message matches WorkerMessage::SetOptions(options) ==> action == WorkerAction::SetOptions(
            options,
        ),
        message matches WorkerMessage::ClipboardStore(stored) ==> (if encode_utf8(stored@).len()
            <= 1_048_576 {
            action == WorkerAction::CopyToClipboard(stored)
        } else {
            action is Nothing
        }),
        message is PasteClipboard <==> action is PasteClipboard,
        message is ClipboardLoad <==> action is AnswerClipboard,
        message is CopySelection <==> action is CopySelection,
        message is SelectAll <==> action is SelectAll,
        message is ForceFullRedraw <==> action is RequestFullRedraw,
        message is Shutdown <==> action is Stop,
        message is Render || message is SetActive ==> action is Nothing,
{
}

/// Frames of a terminal are at least sixteen milliseconds apart.
pub proof fn frames_are_sixteen_milliseconds_apart(state: WorkerView, taken: int, now: int)
    requires
        0 <= taken,
        taken + 16_000_000 <= u64::MAX,
        state.next_frame == later(taken, FRAME_INTERVAL as int),
        state.frame_pending,
    ensures
        frame_is_due(state, now) <==> now >= taken + 16_000_000,
{
}

} // verus!
