//! What the user interface tells the worker of a terminal.

use vstd::prelude::*;
use crate::terminal::command;
use crate::terminal::command::{
    CoalescedCommand,
    MouseAction,
    MouseButton,
    MouseInput,
    TerminalSize,
};
use crate::terminal::frame::{FramePatch, FrameView};
use crate::terminal::worker;
use crate::terminal::worker::MailboxState;

verus! {

/// The button that a number of the user interface stands for.
pub open spec fn button_of(code: int) -> MouseButton {
    if code == 0 {
        MouseButton::Left
    } else if code == 1 {
        MouseButton::Middle
    } else if code == 2 {
        MouseButton::Right
    } else {
        MouseButton::Other
    }
}

/// The action that a number of the user interface stands for.
pub open spec fn action_of(code: int) -> MouseAction {
    if code == 0 {
        MouseAction::Press
    } else if code == 1 {
        MouseAction::Release
    } else if code == 2 {
        MouseAction::Move
    } else if code == 4 {
        MouseAction::DoubleClick
    } else {
        MouseAction::Cancel
    }
}

/// The mouse event that the numbers of the user interface stand for.
pub fn mouse_input(
    column: usize,
    row: usize,
    button: i32,
    action: i32,
    shift: bool,
    alt: bool,
    control: bool,
    right_half: bool,
) -> (input: MouseInput)
    ensures
        input == (MouseInput {
            column,
            row,
            button: button_of(button as int),
            action: action_of(action as int),
            shift,
            alt,
            control,
            right_half,
        }),
{
    let button = match button {
        0 => MouseButton::Left,
        1 => MouseButton::Middle,
        2 => MouseButton::Right,
        _ => MouseButton::Other,
    };
    let action = match action {
        0 => MouseAction::Press,
        1 => MouseAction::Release,
        2 => MouseAction::Move,
        4 => MouseAction::DoubleClick,
        _ => MouseAction::Cancel,
    };
    MouseInput { column, row, button, action, shift, alt, control, right_half }
}

/// Whether an event is dropped rather than waited for where the worker is busy:
/// a later move takes the place of a move, and of nothing else.
pub fn may_be_dropped(input: &MouseInput) -> (droppable: bool)
    ensures
        droppable == (input.action == MouseAction::Move),
{
    input.action == MouseAction::Move
}

/// What lies between the user interface and the worker of a terminal.
#[derive(Debug)]
pub struct TerminalController {
    active: bool,
    notification_pending: bool,
    latest_frame: Option<FramePatch>,
    pending_resize: CoalescedCommand<TerminalSize>,
    pending_scroll: CoalescedCommand<usize>,
}

/// What a `TerminalController` holds.
#[verifier::ext_equal]
pub struct ControllerView {
    /// The worker was told that its terminal is shown.
    pub active: bool,
    /// The user interface was told of a frame that it has not taken.
    pub notification_pending: bool,
    pub latest_frame: Option<FrameView>,
    /// The size that the worker has not taken.
    pub pending_resize: Option<TerminalSize>,
    /// The worker was told of a size that it has not taken.
    pub resize_queued: bool,
    /// The scroll position that the worker has not taken.
    pub pending_scroll: Option<usize>,
    /// The worker was told of a scroll position that it has not taken.
    pub scroll_queued: bool,
}

impl View for TerminalController {
    type V = ControllerView;

    closed spec fn view(&self) -> ControllerView {
        ControllerView {
            active: self.active,
            notification_pending: self.notification_pending,
            latest_frame: worker::mailbox(self.latest_frame),
            pending_resize: self.pending_resize.value,
            resize_queued: self.pending_resize.queued,
            pending_scroll: self.pending_scroll.value,
            scroll_queued: self.pending_scroll.queued,
        }
    }
}

impl ControllerView {
    /// Nothing waits of which the other side was not told.
    pub open spec fn announced(self) -> bool {
        &&& self.latest_frame is Some ==> self.notification_pending
        &&& self.pending_resize is Some ==> self.resize_queued
        &&& self.pending_scroll is Some ==> self.scroll_queued
    }
}

impl TerminalController {
    /// A terminal starts as one that is shown.
    pub fn new() -> (controller: TerminalController)
        ensures
            controller@ == (ControllerView {
                active: true,
                notification_pending: false,
                latest_frame: None,
                pending_resize: None,
                resize_queued: false,
                pending_scroll: None,
                scroll_queued: false,
            }),
            controller@.announced(),
    {
        TerminalController {
            active: true,
            notification_pending: false,
            latest_frame: None,
            pending_resize: CoalescedCommand::new(),
            pending_scroll: CoalescedCommand::new(),
        }
    }

    /// Whether the worker has to be told that its terminal is shown, or not.
    pub fn set_active(&mut self, active: bool) -> (tell: bool)
        ensures
            tell == (old(self)@.active != active),
            final(self)@ == (ControllerView { active, ..old(self)@ }),
            old(self)@.announced() ==> final(self)@.announced(),
    {
        let tell = self.active != active;
        self.active = active;
        tell
    }

    /// Leaves a size for the worker, in the place of an earlier one; tells
    /// whether the worker has to be told. The size of a cell comes as the bits
    /// of two 32-bit floats.
    pub fn resize(&mut self, columns: usize, rows: usize, cell_width: u32, cell_height: u32) -> (
        tell: bool)
        ensures
            tell == !old(self)@.resize_queued,
            final(self)@ == (ControllerView {
                pending_resize: Some(command::size_for(columns, rows, cell_width, cell_height)),
                resize_queued: true,
                ..old(self)@
            }),
            old(self)@.announced() ==> final(self)@.announced(),
    {
        let size = TerminalSize::new(columns, rows, cell_width, cell_height);
        self.pending_resize.put(size)
    }

    /// The worker takes the size.
    pub fn take_resize(&mut self) -> (size: Option<TerminalSize>)
        ensures
            size == old(self)@.pending_resize,
            final(self)@ == (ControllerView {
                pending_resize: None,
                resize_queued: false,
                ..old(self)@
            }),
            old(self)@.announced() ==> final(self)@.announced(),
    {
        self.pending_resize.take()
    }

    /// Leaves a scroll position for the worker, in the place of an earlier one;
    /// tells whether the worker has to be told.
    pub fn scroll_to(&mut self, display_offset: usize) -> (tell: bool)
        ensures
            tell == !old(self)@.scroll_queued,
            final(self)@ == (ControllerView {
                pending_scroll: Some(display_offset),
                scroll_queued: true,
                ..old(self)@
            }),
            old(self)@.announced() ==> final(self)@.announced(),
    {
        self.pending_scroll.put(display_offset)
    }

    /// The worker takes the scroll position.
    pub fn take_scroll(&mut self) -> (display_offset: Option<usize>)
        ensures
            display_offset == old(self)@.pending_scroll,
            final(self)@ == (ControllerView {
                pending_scroll: None,
                scroll_queued: false,
                ..old(self)@
            }),
            old(self)@.announced() ==> final(self)@.announced(),
    {
        self.pending_scroll.take()
    }

    /// The worker puts a frame into the mailbox. The second result tells whether
    /// the user interface has to be told: not where it was told of an earlier
    /// frame that it has not taken.
    pub fn publish(&mut self, incoming: FramePatch) -> (result: (MailboxState, bool))
        ensures
            result.0 == worker::published(old(self)@.latest_frame, incoming@).1,
            result.1 == !old(self)@.notification_pending,
            final(self)@ == (ControllerView {
                latest_frame: Some(worker::published(old(self)@.latest_frame, incoming@).0),
                notification_pending: true,
                ..old(self)@
            }),
            old(self)@.announced() ==> final(self)@.announced(),
    {
        let state = worker::publish_frame(&mut self.latest_frame, incoming);
        let tell = !self.notification_pending;
        self.notification_pending = true;
        (state, tell)
    }

    /// The user interface takes the frame; it is told of the next one.
    pub fn take_latest_frame(&mut self) -> (taken: Option<FramePatch>)
        ensures
            worker::mailbox(taken) == old(self)@.latest_frame,
            final(self)@ == (ControllerView {
                latest_frame: None,
                notification_pending: false,
                ..old(self)@
            }),
            old(self)@.announced() ==> final(self)@.announced(),
    {
        self.notification_pending = false;
        self.latest_frame.take()
    }
}

/// The numbers of the user interface: the buttons are counted from the left, and the
/// actions are press, release, move, cancel and double click.
pub proof fn numbers_stand_for_events(code: int)
    ensures
        button_of(code) is Left <==> code == 0,
        button_of(code) is Middle <==> code == 1,
        button_of(code) is Right <==> code == 2,
        button_of(code) is Other <==> code < 0 || code > 2,
        action_of(code) is Press <==> code == 0,
        action_of(code) is Release <==> code == 1,
        action_of(code) is Move <==> code == 2,
        action_of(code) is DoubleClick <==> code == 4,
        action_of(code) is Cancel <==> code < 0 || code == 3 || code > 4,
{
}

} // verus!
