//! What a terminal's events mean for its worker and for the program that runs
//! in it.

use vstd::prelude::*;
use vstd::string::*;
use crate::text;

verus! {

/// The size that a program is told when it asks for it.
#[derive(Clone, Copy, Debug, PartialEq, Eq, Structural)]
pub struct WindowSize {
    pub num_lines: u16,
    pub num_cols: u16,
    pub cell_width: u16,
    pub cell_height: u16,
}

/// What a terminal reports.
#[derive(Debug)]
pub enum TerminalEvent {
    Title(String),
    ResetTitle,
    PtyWrite(String),
    TextAreaSizeRequest,
    Wakeup,
    MouseCursorDirty,
    CursorBlinkingChange,
    Bell,
    Exit,
    /// The exit code, where the program was not killed.
    ChildExit(Option<i32>),
    ClipboardStore(String),
    ClipboardLoad,
    ColorRequest(usize),
}

/// What has to be done about an event.
#[derive(Debug, PartialEq, Eq)]
pub enum NotifierAction {
    Nothing,
    /// Tell the worker that there is something to draw.
    WakeWorker,
    WriteToPty(String),
    /// Answer the program with the size.
    ReportSize(WindowSize),
    StoreClipboard(String),
    LoadClipboard,
    RequestColor(usize),
}

/// What the threads of one terminal share.
pub struct Notifier {
    dirty: bool,
    default_title: String,
    title: Option<String>,
    exit_message: Option<String>,
    window_size: WindowSize,
}

/// What a `Notifier` holds.
#[verifier::ext_equal]
pub struct NotifierView {
    /// Something changed since the last frame.
    pub dirty: bool,
    pub default_title: Seq<char>,
    pub title: Option<Seq<char>>,
    pub exit_message: Option<Seq<char>>,
    pub window_size: WindowSize,
}

impl View for Notifier {
    type V = NotifierView;

    closed spec fn view(&self) -> NotifierView {
        NotifierView {
            dirty: self.dirty,
            default_title: self.default_title@,
            title: text::optional(self.title),
            exit_message: text::optional(self.exit_message),
            window_size: self.window_size,
        }
    }
}

/// What is shown when a program ends.
pub open spec fn exit_text(code: Option<i32>) -> Seq<char> {
    match code {
        Some(code) => "Process exited with code "@ + text::signed_decimal(code as int),
        None => "Process terminated"@,
    }
}

pub fn exit_message_for(code: Option<i32>) -> (shown: String)
    ensures
        shown@ == exit_text(code),
{
    match code {
        Some(code) => text::concat(
            "Process exited with code ",
            text::signed_decimal_text(code).as_str(),
        ),
        None => "Process terminated".to_owned(),
    }
}

/// What is shared after an event.
pub open spec fn after_event(state: NotifierView, event: TerminalEvent) -> NotifierView {
    match event {
        TerminalEvent::Title(title) => NotifierView { title: Some(title@), dirty: true, ..state },
        TerminalEvent::ResetTitle => NotifierView {
            title: Some(state.default_title),
            dirty: true,
            ..state
        },
        TerminalEvent::Wakeup => NotifierView { dirty: true, ..state },
        TerminalEvent::MouseCursorDirty => NotifierView { dirty: true, ..state },
        TerminalEvent::CursorBlinkingChange => NotifierView { dirty: true, ..state },
        TerminalEvent::Bell => NotifierView { dirty: true, ..state },
        TerminalEvent::Exit => NotifierView {
            exit_message: if state.exit_message is None {
                Some("Process exited"@)
            } else {
                state.exit_message
            },
            dirty: true,
            ..state
        },
        TerminalEvent::ChildExit(code) => NotifierView {
            exit_message: Some(exit_text(code)),
            dirty: true,
            ..state
        },
        _ => state,
    }
}

/// Whether an action is the one that an event calls for.
pub open spec fn answers_event(
    state: NotifierView,
    event: TerminalEvent,
    action: NotifierAction,
) -> bool {
    match event {
        TerminalEvent::PtyWrite(written) => action matches NotifierAction::WriteToPty(sent) && sent@
            == written@,
        TerminalEvent::TextAreaSizeRequest => action == NotifierAction::ReportSize(
            state.window_size,
        ),
        TerminalEvent::ClipboardStore(stored) => action matches NotifierAction::StoreClipboard(sent)
            && sent@ == stored@,
        TerminalEvent::ClipboardLoad => action is LoadClipboard,
        TerminalEvent::ColorRequest(index) => action == NotifierAction::RequestColor(index),
        _ => if state.dirty {
            action is Nothing
        } else {
            action is WakeWorker
        },
    }
}

impl Notifier {
    pub fn new(window_size: WindowSize, default_title: String) -> (notifier: Notifier)
        ensures
            notifier@ == (NotifierView {
                dirty: false,
                default_title: default_title@,
                title: None,
                exit_message: None,
                window_size,
            }),
    {
        Notifier { dirty: false, default_title, title: None, exit_message: None, window_size }
    }

    /// Starts a frame; tells whether anything changed since the last one.
    pub fn begin_frame(&mut self) -> (changed: bool)
        ensures
            changed == old(self)@.dirty,
            final(self)@ == (NotifierView { dirty: false, ..old(self)@ }),
    {
        let changed = self.dirty;
        self.dirty = false;
        changed
    }

    pub fn take_title(&mut self) -> (title: Option<String>)
        ensures
            text::optional(title) == old(self)@.title,
            final(self)@ == (NotifierView { title: None, ..old(self)@ }),
    {
        self.title.take()
    }

    pub fn take_exit_message(&mut self) -> (shown: Option<String>)
        ensures
            text::optional(shown) == old(self)@.exit_message,
            final(self)@ == (NotifierView { exit_message: None, ..old(self)@ }),
    {
        self.exit_message.take()
    }

    pub fn update_window_size(&mut self, size: WindowSize)
        ensures
            final(self)@ == (NotifierView { window_size: size, ..old(self)@ }),
    {
        self.window_size = size;
    }

    /// Notes that something changed; tells whether the worker has to be woken.
    /// It is woken once for all the changes before the next frame.
    pub fn mark_dirty(&mut self) -> (wake: bool)
        ensures
            wake == !old(self)@.dirty,
            final(self)@ == (NotifierView { dirty: true, ..old(self)@ }),
    {
        let wake = !self.dirty;
        self.dirty = true;
        wake
    }

    fn changed(&mut self) -> (action: NotifierAction)
        ensures
            final(self)@ == (NotifierView { dirty: true, ..old(self)@ }),
            if old(self)@.dirty {
                action is Nothing
            } else {
                action is WakeWorker
            },
    {
        if self.mark_dirty() {
            NotifierAction::WakeWorker
        } else {
            NotifierAction::Nothing
        }
    }

    fn set_exit_message(&mut self, shown: String, overwrite: bool) -> (action: NotifierAction)
        ensures
            final(self)@ == (NotifierView {
                exit_message: if overwrite || old(self)@.exit_message is None {
                    Some(shown@)
                } else {
                    old(self)@.exit_message
                },
                dirty: true,
                ..old(self)@
            }),
            if old(self)@.dirty {
                action is Nothing
            } else {
                action is WakeWorker
            },
    {
        if overwrite || self.exit_message.is_none() {
            self.exit_message = Some(shown);
        }
        self.changed()
    }

    /// Takes in an event of the terminal.
    pub fn send_event(&mut self, event: TerminalEvent) -> (action: NotifierAction)
        ensures
            final(self)@ == after_event(old(self)@, event),
            answers_event(old(self)@, event, action),
    {
        match event {
            TerminalEvent::Title(title) => {
                self.title = Some(title);
                self.changed()
            },
            TerminalEvent::ResetTitle => {
                self.title = Some(self.default_title.clone());
                self.changed()
            },
            TerminalEvent::PtyWrite(written) => NotifierAction::WriteToPty(written),
            TerminalEvent::TextAreaSizeRequest => NotifierAction::ReportSize(self.window_size),
            TerminalEvent::Wakeup
            | TerminalEvent::MouseCursorDirty
            | TerminalEvent::CursorBlinkingChange
            | TerminalEvent::Bell => self.changed(),
            TerminalEvent::Exit => self.set_exit_message("Process exited".to_owned(), false),
            TerminalEvent::ChildExit(code) => self.set_exit_message(exit_message_for(code), true),
            TerminalEvent::ClipboardStore(stored) => NotifierAction::StoreClipboard(stored),
            TerminalEvent::ClipboardLoad => NotifierAction::LoadClipboard,
            TerminalEvent::ColorRequest(index) => NotifierAction::RequestColor(index),
        }
    }
}

/// The exit code of a program stays on record: neither a plain exit nor any
/// other event but another exit code replaces it before it is taken.
pub proof fn exit_codes_are_not_overwritten(state: NotifierView, event: TerminalEvent)
    requires
        state.exit_message is Some,
        !(event is ChildExit),
    ensures
        after_event(state, event).exit_message == state.exit_message,
{
}

/// While a change is on record, no event wakes the worker again.
pub proof fn workers_are_woken_once(
    state: NotifierView,
    first: TerminalEvent,
    second: TerminalEvent,
    action: NotifierAction,
)
    requires
        state.dirty || after_event(state, first).dirty,
        answers_event(after_event(state, first), second, action),
    ensures
        !(action is WakeWorker),
{
}

/// A title that a program sets is the one that the next frame carries, and a reset
/// brings the default title back. No other event changes the title.
pub proof fn titles_are_those_of_the_program(state: NotifierView, event: TerminalEvent)
    ensures
        event matches TerminalEvent::Title(title) ==> after_event(state, event).title == Some(
            title@,
        ),
        event is ResetTitle ==> after_event(state, event).title == Some(state.default_title),
        !(event is Title) && !(event is ResetTitle) ==> after_event(state, event).title
            == state.title,
        after_event(state, event).default_title == state.default_title,
        after_event(state, event).window_size == state.window_size,
{
}

/// When a program ends, its exit code is shown in decimal notation, with a minus
/// sign where it is negative; without a code it was killed. A plain exit says less
/// and counts only where nothing else is known. No other event ends anything.
pub proof fn ends_are_told(state: NotifierView, event: TerminalEvent)
    ensures
        event matches TerminalEvent::ChildExit(Some(code)) ==> after_event(
            state,
            event,
        ).exit_message == Some(
            "Process exited with code "@ + (if code < 0 {
                seq!['-'] + text::decimal(-code as nat)
            } else {
                text::decimal(code as nat)
            }),
        ),
        event matches TerminalEvent::ChildExit(None) ==> after_event(state, event).exit_message
            == Some("Process terminated"@),
        event is Exit && state.exit_message is None ==> after_event(state, event).exit_message
            == Some("Process exited"@),
        event is Exit && state.exit_message is Some ==> after_event(state, event).exit_message
            == state.exit_message,
        !(event is Exit) && !(event is ChildExit) ==> after_event(state, event).exit_message
            == state.exit_message,
{
}

/// What the program writes, stores and asks for is passed on as it is, and has
/// nothing drawn. Everything else has a frame drawn: the worker is woken unless it
/// was before.
pub proof fn events_are_answered(
    state: NotifierView,
    event: TerminalEvent,
    action: NotifierAction,
)
    requires
        answers_event(state, event, action),
    ensures
        ({
            let request = event is PtyWrite || event is TextAreaSizeRequest || event
                is ClipboardStore || event is ClipboardLoad || event is ColorRequest;
            &&& request ==> after_event(state, event) == state
            &&& !request ==> after_event(state, event).dirty && (action is WakeWorker
                <==> !state.dirty) && (action is Nothing <==> state.dirty)
            &&& event matches TerminalEvent::PtyWrite(written) ==> (
            action matches NotifierAction::WriteToPty(sent) && sent@ == written@)
            &&& event matches TerminalEvent::ClipboardStore(stored) ==> (
            action matches NotifierAction::StoreClipboard(sent) && sent@ == stored@)
            &&& event is TextAreaSizeRequest ==> action == NotifierAction::ReportSize(
                state.window_size,
            )
            &&& event is ClipboardLoad <==> action is LoadClipboard
            &&& event matches TerminalEvent::ColorRequest(slot) ==> action
                == NotifierAction::RequestColor(slot)
        }),
{
}

} // verus!
