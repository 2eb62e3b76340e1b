//! What a terminal session decides between its grid, its program and its mouse.

use vstd::prelude::*;
use vstd::string::*;
use vstd::utf8::encode_utf8;
use crate::app::settings::{ProfileView, ShellProfile};
use crate::terminal::command::{
    MouseAction, MouseButton, MouseInput, MouseScrollInput, TerminalSize,
};
use crate::terminal::frame;
use crate::terminal::frame::{CursorPatch, FramePatch, FrameView, FullRedrawReason, TerminalContent};
use crate::terminal::input;
use crate::terminal::input::KeyInput;
use crate::terminal::mode::TermMode;
use crate::terminal::mouse;
use crate::terminal::notifier::{Notifier, NotifierView, WindowSize};
use crate::terminal::palette::TerminalTheme;
use crate::terminal::search;
use crate::terminal::search::{
    GridPoint, SearchHighlight, SearchMatch, SearchSnapshot, SearchView, Viewport,
};
use crate::text;

verus! {

/// How a selection grows.
#[derive(Clone, Copy, Debug, PartialEq, Eq, Structural)]
pub enum SelectionKind {
    /// Cell by cell.
    Simple,
    /// Word by word.
    Semantic,
}

/// The half of a cell at which a selection ends.
#[derive(Clone, Copy, Debug, PartialEq, Eq, Structural)]
pub enum Side {
    Left,
    Right,
}

/// What a mouse event comes to.
#[derive(Debug, PartialEq, Eq)]
pub enum MouseOutcome {
    Nothing,
    /// These bytes go to the program.
    Report(Vec<u8>),
    /// A selection starts; the view changed.
    StartSelection { kind: SelectionKind, point: GridPoint, side: Side },
    /// The selection, where there is one, grows; the view changed.
    ExtendSelection { point: GridPoint, side: Side },
    /// The view changed.
    Redraw,
}

/// What a turn of the wheel comes to.
#[derive(Debug, PartialEq, Eq)]
pub enum ScrollOutcome {
    Nothing,
    /// These bytes go to the program, this many times.
    Send { bytes: Vec<u8>, times: u32 },
    /// The view scrolls by so many lines.
    ScrollDisplay(i32),
}

/// What a new size comes to.
#[derive(Clone, Copy, Debug, PartialEq, Eq, Structural)]
pub enum ResizeOutcome {
    Unchanged,
    /// The program is told the size; where the grid changed, the terminal gets
    /// a new grid and a query is searched anew.
    Changed { window_size: WindowSize, grid_changed: bool },
}

/// Where a session on another machine goes.
pub open spec fn destination(profile: ProfileView) -> Seq<char> {
    if profile.ssh_user.len() == 0 {
        profile.ssh_host
    } else {
        profile.ssh_user + "@"@ + profile.ssh_host
    }
}

/// The arguments of the SSH client for a profile. The variable with the password
/// is kept from the other machine.
pub open spec fn client_arguments(profile: ProfileView) -> Seq<Seq<char>> {
    let secret = if profile.ssh_password.len() == 0 {
        Seq::empty()
    } else {
        seq!["-o"@, "SendEnv=-SLINT_TERMINAL_SSH_PASSWORD"@]
    };
    let port = if profile.ssh_port == 22 {
        Seq::empty()
    } else {
        seq!["-p"@, text::decimal(profile.ssh_port as nat)]
    };
    let identity = match profile.ssh_identity_file {
        Some(file) => seq!["-i"@, file],
        None => Seq::empty(),
    };
    (secret + port + identity + profile.arguments).push(destination(profile))
}

/// The arguments of the SSH client for a profile.
pub fn ssh_arguments(profile: &ShellProfile) -> (arguments: Vec<String>)
    ensures
        text::texts(arguments@) == client_arguments(profile@),
{
    let mut arguments: Vec<String> = Vec::new();
    if !text::is_empty_text(profile.ssh_password.as_str()) {
        arguments.push("-o".to_owned());
        arguments.push("SendEnv=-SLINT_TERMINAL_SSH_PASSWORD".to_owned());
    }
    if profile.ssh_port != 22 {
        arguments.push("-p".to_owned());
        arguments.push(text::decimal_text(profile.ssh_port as u64));
    }
    if let Some(file) = &profile.ssh_identity_file {
        arguments.push("-i".to_owned());
        arguments.push(file.clone());
    }
    let ghost options = text::texts(arguments@);
    let mut extra = text::copy_texts(&profile.arguments);
    let ghost added = extra@;
    let ghost before = arguments@;
    arguments.append(&mut extra);
    proof {
        assert(text::texts(arguments@) =~= text::texts(before) + text::texts(added));
    }
    let ghost listed = arguments@;
    let target = if text::is_empty_text(profile.ssh_user.as_str()) {
        profile.ssh_host.clone()
    } else {
        text::concat3(profile.ssh_user.as_str(), "@", profile.ssh_host.as_str())
    };
    assert(target@ == destination(profile@));
    arguments.push(target);
    proof {
        assert(text::texts(arguments@) =~= text::texts(listed).push(destination(profile@)));
        assert(text::texts(arguments@) =~= client_arguments(profile@));
    }
    arguments
}

/// The last argument of the SSH client is the destination, whatever arguments
/// the profile adds, and a password is kept from the other machine before
/// anything else.
pub proof fn destinations_come_last(profile: ProfileView)
    ensures
        client_arguments(profile).last() == destination(profile),
        profile.ssh_password.len() > 0 ==> client_arguments(profile)[0] == "-o"@
            && client_arguments(profile)[1] == "SendEnv=-SLINT_TERMINAL_SSH_PASSWORD"@,
{
}

/// The state of a session beside its grid.
#[derive(Clone, Copy, Debug, PartialEq, Eq, Structural)]
pub struct TerminalBackend {
    pub size: TerminalSize,
    /// Counts the sizes the grid has had.
    pub generation: u64,
    /// The mouse is dragging a selection.
    pub selecting: bool,
    /// The button whose press was reported to the program.
    pub pressed_button: Option<MouseButton>,
    pub forced_full_redraw: Option<FullRedrawReason>,
    pub theme: TerminalTheme,
}

/// Whether a mouse event belongs to the program. A drag stays with the side
/// that got its press, whatever the shift key does meanwhile.
pub open spec fn reports_to_program(
    state: TerminalBackend,
    mode: TermMode,
    input: MouseInput,
) -> bool {
    mode.meets(TermMode::MOUSE_MODE) && !state.selecting && (state.pressed_button is Some
        || !input.shift)
}

/// Whether an event that belongs to the program is reported to it.
pub open spec fn is_reported(state: TerminalBackend, mode: TermMode, action: MouseAction) -> bool {
    match action {
        MouseAction::Press => true,
        MouseAction::Release => true,
        MouseAction::Move => mode.has(TermMode::MOUSE_MOTION) || (mode.has(TermMode::MOUSE_DRAG)
            && state.pressed_button is Some),
        MouseAction::Cancel => false,
        MouseAction::DoubleClick => false,
    }
}

/// The bytes of the report for an event that belongs to the program. A release
/// is reported for the button that was pressed.
pub open spec fn report_bytes(state: TerminalBackend, mode: TermMode, input: MouseInput) -> Seq<u8> {
    if is_reported(state, mode, input.action) {
        mouse::mouse_report(
            if input.action == MouseAction::Release && state.pressed_button is Some {
                state.pressed_button->0
            } else {
                input.button
            },
            input.action,
            input.column,
            input.row,
            input.shift,
            input.alt,
            input.control,
            mode,
        )
    } else {
        Seq::empty()
    }
}

/// The session after a mouse event.
pub open spec fn after_mouse(
    state: TerminalBackend,
    mode: TermMode,
    input: MouseInput,
) -> TerminalBackend {
    if reports_to_program(state, mode, input) {
        TerminalBackend {
            pressed_button: match input.action {
                MouseAction::Press => Some(input.button),
                MouseAction::Release => None,
                MouseAction::Cancel => None,
                MouseAction::Move => state.pressed_button,
                MouseAction::DoubleClick => state.pressed_button,
            },
            ..state
        }
    } else {
        TerminalBackend {
            selecting: match input.action {
                MouseAction::Press => input.button == MouseButton::Left || state.selecting,
                MouseAction::DoubleClick => input.button != MouseButton::Left && state.selecting,
                MouseAction::Release => input.button != MouseButton::Left && state.selecting,
                MouseAction::Cancel => false,
                MouseAction::Move => state.selecting,
            },
            ..state
        }
    }
}

/// The half of the cell that the pointer is over.
pub open spec fn pointed_side(input: MouseInput) -> Side {
    if input.right_half {
        Side::Right
    } else {
        Side::Left
    }
}

/// Whether an outcome is the one that a mouse event has.
pub open spec fn answers_mouse(
    state: TerminalBackend,
    mode: TermMode,
    display_offset: int,
    input: MouseInput,
    outcome: MouseOutcome,
) -> bool {
    if reports_to_program(state, mode, input) {
        if report_bytes(state, mode, input).len() == 0 {
            outcome is Nothing
        } else {
            outcome matches MouseOutcome::Report(bytes) && bytes@ == report_bytes(
                state,
                mode,
                input,
            )
        }
    } else {
        let seen = mouse::point_in_view(
            display_offset,
            state.size,
            input.column as int,
            input.row as int,
        );
        let point = GridPoint { line: seen.0 as i32, column: seen.1 as usize };
        let left = input.button == MouseButton::Left;
        match input.action {
            MouseAction::Press => if left {
                outcome == (MouseOutcome::StartSelection {
                    kind: SelectionKind::Simple,
                    point,
                    side: pointed_side(input),
                })
            } else {
                outcome is Nothing
            },
            MouseAction::DoubleClick => if left {
                outcome == (MouseOutcome::StartSelection {
                    kind: SelectionKind::Semantic,
                    point,
                    side: Side::Left,
                })
            } else {
                outcome is Nothing
            },
            MouseAction::Move => if state.selecting {
                outcome == (MouseOutcome::ExtendSelection { point, side: pointed_side(input) })
            } else {
                outcome is Nothing
            },
            MouseAction::Release => if left {
                outcome == (MouseOutcome::ExtendSelection { point, side: pointed_side(input) })
            } else {
                outcome is Nothing
            },
            MouseAction::Cancel => outcome is Redraw,
        }
    }
}

/// The arrow key that the wheel stands for on the alternate screen.
pub open spec fn arrow_bytes(up: bool, app_cursor: bool) -> Seq<u8> {
    seq![
        0x1bu8,
        if app_cursor {
            0x4fu8
        } else {
            0x5bu8
        },
        if up {
            0x41u8
        } else {
            0x42u8
        },
    ]
}

/// How often a report is sent for so many lines.
pub open spec fn repeats(lines: int) -> int {
    let count = if lines < 0 {
        -lines
    } else {
        lines
    };
    if count > 20 {
        20
    } else {
        count
    }
}

/// Whether an outcome is the one that scrolling by whole lines has.
pub open spec fn answers_scroll(
    mode: TermMode,
    input: MouseScrollInput,
    lines: int,
    outcome: ScrollOutcome,
) -> bool {
    if lines == 0 {
        outcome is Nothing
    } else if mode.meets(TermMode::MOUSE_MODE) && !input.shift {
        &&& outcome is Send
        &&& outcome->times == repeats(lines)
        &&& outcome->bytes@ == mouse::button_report(
            if lines > 0 {
                64
            } else {
                65
            },
            input.column,
            input.row,
            input.shift,
            input.alt,
            input.control,
            mode,
            false,
        )
    } else if mode.has(TermMode::ALT_SCREEN) && mode.has(TermMode::ALTERNATE_SCROLL) {
        &&& outcome is Send
        &&& outcome->times == repeats(lines)
        &&& outcome->bytes@ == arrow_bytes(lines > 0, mode.has(TermMode::APP_CURSOR))
    } else {
        outcome == ScrollOutcome::ScrollDisplay(lines as i32)
    }
}

/// The size that a program is told.
pub open spec fn told_size(size: TerminalSize) -> WindowSize {
    WindowSize {
        num_lines: frame::least(size.rows as int, u16::MAX as int) as u16,
        num_cols: frame::least(size.columns as int, u16::MAX as int) as u16,
        cell_width: size.cell_width,
        cell_height: size.cell_height,
    }
}

pub fn window_size(size: TerminalSize) -> (window: WindowSize)
    ensures
        window == told_size(size),
{
    WindowSize {
        num_lines: if size.rows < u16::MAX as usize {
            size.rows as u16
        } else {
            u16::MAX
        },
        num_cols: if size.columns < u16::MAX as usize {
            size.columns as u16
        } else {
            u16::MAX
        },
        cell_width: size.cell_width,
        cell_height: size.cell_height,
    }
}

/// Whether two sizes have different grids.
pub open spec fn other_grid(left: TerminalSize, right: TerminalSize) -> bool {
    left.columns != right.columns || left.rows != right.rows
}

/// The scroll that leads to a position of the scroll bar.
pub open spec fn scroll_delta(view: Viewport, wanted: int) -> int {
    let delta = frame::least(wanted, view.history()) - view.display_offset;
    if delta > i32::MAX {
        i32::MAX as int
    } else if delta < i32::MIN {
        i32::MIN as int
    } else {
        delta
    }
}

impl TerminalBackend {
    pub fn new(size: TerminalSize, theme: TerminalTheme) -> (state: TerminalBackend)
        ensures
            state == (TerminalBackend {
                size,
                generation: 0,
                selecting: false,
                pressed_button: None,
                forced_full_redraw: None,
                theme,
            }),
    {
        TerminalBackend {
            size,
            generation: 0,
            selecting: false,
            pressed_button: None,
            forced_full_redraw: None,
            theme,
        }
    }

    /// Captures the frame that `Notifier::begin_frame` announced, with the title
    /// and the exit message that came since the last one.
    pub fn take_frame(
        &mut self,
        notifier: &mut Notifier,
        content: &TerminalContent,
        search: SearchSnapshot,
        search_matches: &Vec<(SearchMatch, SearchHighlight)>,
    ) -> (patch: FramePatch)
        requires
            content.well_formed(old(self).size.columns as int, old(self).size.rows as int),
        ensures
            *final(self) == (TerminalBackend { forced_full_redraw: None, ..*old(self) }),
            final(notifier)@ == (NotifierView { title: None, exit_message: None, ..old(notifier)@ }),
            patch@ == (FrameView {
                title: old(notifier)@.title,
                exit_message: old(notifier)@.exit_message,
                ..frame::captured_frame(
                    *content,
                    old(self).size.columns as int,
                    old(self).size.rows as int,
                    old(self).generation,
                    old(self).forced_full_redraw,
                    old(self).theme,
                    search@,
                    search_matches@,
                )
            }),
    {
        let forced = self.forced_full_redraw;
        self.forced_full_redraw = None;
        let mut patch = frame::capture_frame(
            content,
            self.size.columns,
            self.size.rows,
            self.generation,
            forced,
            self.theme,
            search,
            search_matches,
        );
        patch.title = notifier.take_title();
        patch.exit_message = notifier.take_exit_message();
        patch
    }

    /// The frame of a terminal in the background: its title and its end, where
    /// there is any news of them.
    pub fn take_metadata_frame(&self, notifier: &mut Notifier, search: SearchSnapshot) -> (taken:
        Option<FramePatch>)
        ensures
            !old(notifier)@.dirty ==> taken is None && final(notifier)@ == old(notifier)@,
            old(notifier)@.dirty ==> final(notifier)@ == (NotifierView {
                dirty: false,
                title: None,
                exit_message: None,
                ..old(notifier)@
            }),
            taken is Some <==> old(notifier)@.dirty && (old(notifier)@.title is Some || old(
                notifier,
            )@.exit_message is Some),
            taken matches Some(patch) ==> patch@ == (FrameView {
                generation: self.generation,
                columns: self.size.columns as int,
                rows: self.size.rows as int,
                full_redraw: false,
                full_redraw_reason: None,
                metadata_only: true,
                changed_rows: Seq::empty(),
                cursor: CursorPatch {
                    column: 0,
                    row: 0,
                    visible: false,
                    shape: 0,
                    blinking: false,
                },
                scroll_offset: 0,
                scroll_history_lines: 0,
                search: search@,
                decorations: Seq::empty(),
                title: old(notifier)@.title,
                exit_message: old(notifier)@.exit_message,
            }),
            taken matches Some(patch) ==> patch@ == metadata_frame(*self, old(notifier)@, search@),
    {
        if !notifier.begin_frame() {
            return None;
        }
        let title = notifier.take_title();
        let exit_message = notifier.take_exit_message();
        if title.is_none() && exit_message.is_none() {
            return None;
        }
        let patch = FramePatch {
            generation: self.generation,
            columns: self.size.columns,
            rows: self.size.rows,
            full_redraw: false,
            full_redraw_reason: None,
            metadata_only: true,
            changed_rows: Vec::new(),
            cursor: CursorPatch { column: 0, row: 0, visible: false, shape: 0, blinking: false },
            scroll_offset: 0,
            scroll_history_lines: 0,
            search,
            decorations: Vec::new(),
            title,
            exit_message,
        };
        assert(patch@.changed_rows == Seq::<frame::RowView>::empty());
        Some(patch)
    }

    /// Asks for a frame that redraws everything; tells whether the worker has to
    /// be woken.
    pub fn request_full_redraw(&mut self, notifier: &mut Notifier) -> (wake: bool)
        ensures
            *final(self) == (TerminalBackend {
                forced_full_redraw: Some(FullRedrawReason::RendererRequest),
                ..*old(self)
            }),
            final(notifier)@ == (NotifierView { dirty: true, ..old(notifier)@ }),
            *final(self) == with_redraw_request(*old(self)),
            wake == !old(notifier)@.dirty,
    {
        self.forced_full_redraw = Some(FullRedrawReason::RendererRequest);
        notifier.mark_dirty()
    }

    /// Takes over a new size. A new grid starts a new generation of frames.
    pub fn resize(&mut self, size: TerminalSize) -> (outcome: ResizeOutcome)
        ensures
            old(self).size == size ==> outcome is Unchanged && *final(self) == *old(self),
            old(self).size != size ==> outcome == (ResizeOutcome::Changed {
                window_size: told_size(size),
                grid_changed: other_grid(old(self).size, size),
            }) && *final(self) == (if other_grid(old(self).size, size) {
                TerminalBackend {
                    size,
                    generation: if old(self).generation == u64::MAX {
                        0
                    } else {
                        (old(self).generation + 1) as u64
                    },
                    forced_full_redraw: Some(FullRedrawReason::Resize),
                    ..*old(self)
                }
            } else {
                TerminalBackend { size, ..*old(self) }
            }),
            *final(self) == after_resize(*old(self), size),
    {
        if self.size == size {
            return ResizeOutcome::Unchanged;
        }
        let grid_changed = self.size.columns != size.columns || self.size.rows != size.rows;
        self.size = size;
        if grid_changed {
            self.generation = self.generation.wrapping_add(1);
            self.forced_full_redraw = Some(FullRedrawReason::Resize);
        }
        ResizeOutcome::Changed { window_size: window_size(size), grid_changed }
    }

    /// Sends a mouse event to the program or to the selection.
    pub fn mouse_input(&mut self, input: MouseInput, mode: TermMode, display_offset: usize) -> (
    outcome: MouseOutcome)
        requires
            display_offset <= i32::MAX,
            old(self).size.rows <= i32::MAX,
        ensures
            *final(self) == after_mouse(*old(self), mode, input),
            answers_mouse(*old(self), mode, display_offset as int, input, outcome),
    {
        let to_program = mode.intersects(TermMode::MOUSE_MODE) && !self.selecting && (
        self.pressed_button.is_some() || !input.shift);
        if to_program {
            let reported = match input.action {
                MouseAction::Press | MouseAction::Release => true,
                MouseAction::Move => mode.contains(TermMode::MOUSE_MOTION) || (mode.contains(
                    TermMode::MOUSE_DRAG,
                ) && self.pressed_button.is_some()),
                MouseAction::Cancel | MouseAction::DoubleClick => false,
            };
            let button = if input.action == MouseAction::Release {
                match self.pressed_button {
                    Some(button) => button,
                    None => input.button,
                }
            } else {
                input.button
            };
            match input.action {
                MouseAction::Press => {
                    self.pressed_button = Some(input.button);
                },
                MouseAction::Release | MouseAction::Cancel => {
                    self.pressed_button = None;
                },
                MouseAction::Move | MouseAction::DoubleClick => {},
            }
            if !reported {
                return MouseOutcome::Nothing;
            }
            let bytes = mouse::encode_mouse_report(
                button,
                input.action,
                input.column,
                input.row,
                input.shift,
                input.alt,
                input.control,
                mode,
            );
            if bytes.len() == 0 {
                return MouseOutcome::Nothing;
            }
            return MouseOutcome::Report(bytes);
        }
        let point = mouse::visible_point(display_offset, self.size, input.column, input.row);
        let side = if input.right_half {
            Side::Right
        } else {
            Side::Left
        };
        let left = input.button == MouseButton::Left;
        match input.action {
            MouseAction::Press => if left {
                self.selecting = true;
                MouseOutcome::StartSelection { kind: SelectionKind::Simple, point, side }
            } else {
                MouseOutcome::Nothing
            },
            MouseAction::DoubleClick => if left {
                self.selecting = false;
                MouseOutcome::StartSelection {
                    kind: SelectionKind::Semantic,
                    point,
                    side: Side::Left,
                }
            } else {
                MouseOutcome::Nothing
            },
            MouseAction::Move => if self.selecting {
                MouseOutcome::ExtendSelection { point, side }
            } else {
                MouseOutcome::Nothing
            },
            MouseAction::Release => if left {
                self.selecting = false;
                MouseOutcome::ExtendSelection { point, side }
            } else {
                MouseOutcome::Nothing
            },
            MouseAction::Cancel => {
                self.selecting = false;
                MouseOutcome::Redraw
            },
        }
    }
}

/// Sends whole lines of the wheel to the program, as reports or as arrow keys,
/// or scrolls the view.
pub fn mouse_scroll(input: MouseScrollInput, lines: i32, mode: TermMode) -> (outcome: ScrollOutcome)
    ensures
        answers_scroll(mode, input, lines as int, outcome),
{
    if lines == 0 {
        return ScrollOutcome::Nothing;
    }
    let count: i64 = if lines < 0 {
        -(lines as i64)
    } else {
        lines as i64
    };
    let times: u32 = if count > 20 {
        20
    } else {
        count as u32
    };
    if mode.intersects(TermMode::MOUSE_MODE) && !input.shift {
        let button: u8 = if lines > 0 {
            64
        } else {
            65
        };
        let bytes = mouse::encode_mouse_button_code(
            button,
            input.column,
            input.row,
            input.shift,
            input.alt,
            input.control,
            mode,
            false,
        );
        ScrollOutcome::Send { bytes, times }
    } else if mode.contains(TermMode::ALT_SCREEN) && mode.contains(TermMode::ALTERNATE_SCROLL) {
        let mut bytes: Vec<u8> = Vec::new();
        bytes.push(0x1b);
        bytes.push(
            if mode.contains(TermMode::APP_CURSOR) {
                0x4f
            } else {
                0x5b
            },
        );
        bytes.push(
            if lines > 0 {
                0x41
            } else {
                0x42
            },
        );
        assert(bytes@ == arrow_bytes(lines > 0, mode.has(TermMode::APP_CURSOR)));
        ScrollOutcome::Send { bytes, times }
    } else {
        ScrollOutcome::ScrollDisplay(lines)
    }
}

/// Selects everything from the first line of the history to the last line of the
/// screen: where the selection starts, and how far it grows.
pub fn select_all(topmost_line: i32, bottommost_line: i32, last_column: usize) -> (steps: (
    MouseOutcome,
    MouseOutcome,
))
    ensures
        steps.0 == (MouseOutcome::StartSelection {
            kind: SelectionKind::Simple,
            point: GridPoint { line: topmost_line, column: 0 },
            side: Side::Left,
        }),
        steps.1 == (MouseOutcome::ExtendSelection {
            point: GridPoint { line: bottommost_line, column: last_column },
            side: Side::Right,
        }),
{
    (
        MouseOutcome::StartSelection {
            kind: SelectionKind::Simple,
            point: GridPoint { line: topmost_line, column: 0 },
            side: Side::Left,
        },
        MouseOutcome::ExtendSelection {
            point: GridPoint { line: bottommost_line, column: last_column },
            side: Side::Right,
        },
    )
}

/// The scroll that leads to a position of the scroll bar, as far as there is
/// history.
pub fn scroll_to(view: Viewport, display_offset: usize) -> (delta: i32)
    ensures
        delta == scroll_delta(view, display_offset as int),
{
    let history: usize = view.total_lines.saturating_sub(view.screen_lines);
    let target: usize = if display_offset < history {
        display_offset
    } else {
        history
    };
    let delta: i128 = target as i128 - view.display_offset as i128;
    if delta > i32::MAX as i128 {
        i32::MAX
    } else if delta < i32::MIN as i128 {
        i32::MIN
    } else {
        delta as i32
    }
}

/// A scroll to a position of the scroll bar ends at that position, or at the
/// end of the history.
pub proof fn scrolling_reaches_its_target(view: Viewport, wanted: usize)
    requires
        view.display_offset <= i32::MAX,
        view.history() <= i32::MAX,
    ensures
        view.display_offset + scroll_delta(view, wanted as int) == frame::least(
            wanted as int,
            view.history(),
        ),
{
}

/// A text with every kind of line end as a newline.
pub open spec fn with_newlines(pasted: Seq<char>) -> Seq<char>
    decreases pasted.len(),
{
    if pasted.len() == 0 {
        pasted
    } else {
        let before = with_newlines(pasted.drop_last());
        if pasted.last() == '\r' {
            before.push('\n')
        } else if pasted.last() == '\n' && pasted.len() >= 2 && pasted[pasted.len() - 2] == '\r' {
            before
        } else {
            before.push(pasted.last())
        }
    }
}

/// A text without escape characters.
pub open spec fn without_escapes(plain: Seq<char>) -> Seq<char>
    decreases plain.len(),
{
    if plain.len() == 0 {
        plain
    } else if plain.last() == '\x1b' {
        without_escapes(plain.drop_last())
    } else {
        without_escapes(plain.drop_last()).push(plain.last())
    }
}

/// A text with carriage returns in place of newlines.
pub open spec fn with_returns(plain: Seq<char>) -> Seq<char> {
    plain.map_values(
        |character: char|
            if character == '\n' {
                '\r'
            } else {
                character
            },
    )
}

/// What a paste sends. Between brackets there is no escape character, so that
/// nothing in the text can close the bracket.
pub open spec fn pasted_text(pasted: Seq<char>, bracketed: bool) -> Seq<char> {
    if bracketed {
        "\x1b[200~"@ + without_escapes(with_newlines(pasted)) + "\x1b[201~"@
    } else {
        with_returns(with_newlines(pasted))
    }
}

/// Encodes a paste.
pub fn encode_paste(pasted: &str, bracketed: bool) -> (bytes: Vec<u8>)
    ensures
        bytes@ == encode_utf8(pasted_text(pasted@, bracketed)),
{
    let list = text::characters(pasted);
    let mut body = String::new();
    let mut index: usize = 0;
    assert(with_returns(Seq::<char>::empty()) == Seq::<char>::empty());
    while index < list.len()
        invariant
            index <= list@.len(),
            body@ == (if bracketed {
                without_escapes(with_newlines(list@.take(index as int)))
            } else {
                with_returns(with_newlines(list@.take(index as int)))
            }),
        decreases list.len() - index,
    {
        let character = list[index];
        let ghost taken = list@.take(index + 1);
        let ghost before = with_newlines(list@.take(index as int));
        proof {
            assert(taken.drop_last() == list@.take(index as int));
            assert(taken.last() == character);
            assert(index > 0 ==> taken[taken.len() - 2] == list@[index - 1]);
            assert(before.push('\n').drop_last() == before);
            assert(before.push(character).drop_last() == before);
        }
        if character == '\n' && index > 0 && list[index - 1] == '\r' {
            assert(with_newlines(taken) == before);
        } else {
            let plain = if character == '\r' {
                '\n'
            } else {
                character
            };
            assert(with_newlines(taken) == before.push(plain));
            if bracketed {
                if plain != '\x1b' {
                    body.push(plain);
                }
            } else if plain == '\n' {
                body.push('\r');
                assert(body@ == with_returns(before.push(plain)));
            } else {
                body.push(plain);
                assert(body@ == with_returns(before.push(plain)));
            }
        }
        index += 1;
    }
    assert(list@.take(index as int) == list@);
    if bracketed {
        let framed = text::concat3("\x1b[200~", body.as_str(), "\x1b[201~");
        text::utf8_bytes(framed.as_str())
    } else {
        text::utf8_bytes(body.as_str())
    }
}

proof fn lemma_without_escapes(plain: Seq<char>)
    ensures
        !without_escapes(plain).contains('\x1b'),
    decreases plain.len(),
{
    if plain.len() > 0 {
        let shorter = without_escapes(plain.drop_last());
        lemma_without_escapes(plain.drop_last());
        let all = without_escapes(plain);
        assert forall|i: int| 0 <= i < all.len() implies all[i] != '\x1b' by {
            if i < shorter.len() {
                assert(shorter.contains(shorter[i]));
            }
        }
    }
}

proof fn lemma_with_newlines(pasted: Seq<char>)
    ensures
        !with_newlines(pasted).contains('\r'),
    decreases pasted.len(),
{
    if pasted.len() > 0 {
        let shorter = with_newlines(pasted.drop_last());
        lemma_with_newlines(pasted.drop_last());
        let all = with_newlines(pasted);
        assert forall|i: int| 0 <= i < all.len() implies all[i] != '\r' by {
            if i < shorter.len() {
                assert(shorter.contains(shorter[i]));
            }
        }
    }
}

/// Pasted text cannot break out of its brackets: between them there is no
/// escape character, so neither a second start nor an early end.
pub proof fn brackets_cannot_be_closed_from_inside(pasted: Seq<char>)
    ensures
        !without_escapes(with_newlines(pasted)).contains('\x1b'),
        pasted_text(pasted, true) == "\x1b[200~"@ + without_escapes(with_newlines(pasted))
            + "\x1b[201~"@,
{
    lemma_without_escapes(with_newlines(pasted));
}

/// Without brackets every line of a paste ends as the return key does: no
/// newline is left.
pub proof fn plain_pastes_hold_no_newline(pasted: Seq<char>)
    ensures
        !pasted_text(pasted, false).contains('\n'),
        !with_newlines(pasted).contains('\r'),
{
    lemma_with_newlines(pasted);
    let all = pasted_text(pasted, false);
    assert forall|i: int| 0 <= i < all.len() implies all[i] != '\n' by {
        assert(with_newlines(pasted).contains(with_newlines(pasted)[i]));
    }
}

proof fn lemma_newlines_join(left: Seq<char>, right: Seq<char>)
    requires
        !(left.len() > 0 && left.last() == '\r' && right.len() > 0 && right[0] == '\n'),
    ensures
        with_newlines(left + right) == with_newlines(left) + with_newlines(right),
    decreases right.len(),
{
    let all = left + right;
    if right.len() == 0 {
        assert(all =~= left);
        assert(with_newlines(left) + with_newlines(right) =~= with_newlines(left));
    } else {
        lemma_newlines_join(left, right.drop_last());
        assert(all.drop_last() =~= left + right.drop_last());
        assert(all.last() == right.last());
        if right.len() >= 2 {
            assert(all[all.len() - 2] == right[right.len() - 2]);
        } else if left.len() > 0 {
            assert(all[all.len() - 2] == left.last());
        }
        assert(with_newlines(all) =~= with_newlines(left) + with_newlines(right));
    }
}

/// Without brackets a paste is made of its parts: two texts are sent one after
/// the other as if they were pasted one after the other, unless a line end of two
/// characters lies across them.
pub proof fn plain_pastes_join(left: Seq<char>, right: Seq<char>)
    requires
        !(left.len() > 0 && left.last() == '\r' && right.len() > 0 && right[0] == '\n'),
    ensures
        pasted_text(left + right, false) == pasted_text(left, false) + pasted_text(right, false),
{
    lemma_newlines_join(left, right);
    assert(pasted_text(left + right, false) =~= pasted_text(left, false) + pasted_text(
        right,
        false,
    ));
}

/// Without brackets each line end is sent as one carriage return, and every other
/// character as itself.
pub proof fn line_ends_become_returns(character: char)
    ensures
        pasted_text(Seq::empty(), false) == Seq::<char>::empty(),
        pasted_text(seq!['\n'], false) == seq!['\r'],
        pasted_text(seq!['\r'], false) == seq!['\r'],
        pasted_text(seq!['\r', '\n'], false) == seq!['\r'],
        character != '\n' ==> pasted_text(seq![character], false) == seq![character],
{
    reveal_with_fuel(with_newlines, 3);
    assert(seq!['\r', '\n'].drop_last() =~= seq!['\r']);
    assert(pasted_text(Seq::empty(), false) =~= Seq::<char>::empty());
    assert(pasted_text(seq!['\n'], false) =~= seq!['\r']);
    assert(pasted_text(seq!['\r'], false) =~= seq!['\r']);
    assert(pasted_text(seq!['\r', '\n'], false) =~= seq!['\r']);
    if character != '\n' {
        assert(pasted_text(seq![character], false) =~= seq![character]);
    }
}

proof fn lemma_escapes_are_filtered(plain: Seq<char>)
    requires
        !plain.contains('\r'),
    ensures
        without_escapes(plain) == with_returns(plain).filter(
            |character: char| character != '\x1b',
        ).map_values(
            |character: char|
                if character == '\r' {
                    '\n'
                } else {
                    character
                },
        ),
    decreases plain.len(),
{
    reveal(Seq::filter);
    let back = |character: char|
        if character == '\r' {
            '\n'
        } else {
            character
        };
    let kept = |character: char| character != '\x1b';
    if plain.len() == 0 {
        assert(with_returns(plain).filter(kept).map_values(back) =~= plain);
    } else {
        let shorter = plain.drop_last();
        assert forall|i: int| 0 <= i < shorter.len() implies shorter[i] != '\r' by {
            assert(plain.contains(plain[i]));
        }
        assert(plain.contains(plain.last()));
        lemma_escapes_are_filtered(shorter);
        assert(with_returns(plain).drop_last() =~= with_returns(shorter));
        assert(with_returns(plain).filter(kept).map_values(back) =~= without_escapes(plain));
    }
}

/// Between brackets a paste sends what it sends without them, with newlines in
/// place of the returns and without any escape character.
pub proof fn brackets_hold_the_plain_paste(pasted: Seq<char>)
    ensures
        pasted_text(pasted, true) == seq!['\x1b', '[', '2', '0', '0', '~'] + pasted_text(
            pasted,
            false,
        ).filter(|character: char| character != '\x1b').map_values(
            |character: char|
                if character == '\r' {
                    '\n'
                } else {
                    character
                },
        ) + seq!['\x1b', '[', '2', '0', '1', '~'],
{
    lemma_with_newlines(pasted);
    lemma_escapes_are_filtered(with_newlines(pasted));
    reveal_strlit("\x1b[200~");
    reveal_strlit("\x1b[201~");
    assert("\x1b[200~"@ =~= seq!['\x1b', '[', '2', '0', '0', '~']);
    assert("\x1b[201~"@ =~= seq!['\x1b', '[', '2', '0', '1', '~']);
}

proof fn lemma_plain_text_stays(pasted: Seq<char>)
    requires
        !pasted.contains('\r'),
        !pasted.contains('\x1b'),
    ensures
        with_newlines(pasted) == pasted,
        without_escapes(pasted) == pasted,
    decreases pasted.len(),
{
    if pasted.len() > 0 {
        let shorter = pasted.drop_last();
        assert forall|i: int| 0 <= i < shorter.len() implies shorter[i] != '\r' && shorter[i]
            != '\x1b' by {
            assert(pasted.contains(pasted[i]));
        }
        assert(pasted.contains(pasted.last()));
        if pasted.len() >= 2 {
            assert(pasted.contains(pasted[pasted.len() - 2]));
        }
        lemma_plain_text_stays(shorter);
        assert(shorter.push(pasted.last()) =~= pasted);
    }
}

/// A text without line ends and escape characters is pasted as it is.
pub proof fn plain_text_is_pasted_as_it_is(pasted: Seq<char>)
    requires
        !pasted.contains('\r'),
        !pasted.contains('\n'),
        !pasted.contains('\x1b'),
    ensures
        pasted_text(pasted, false) == pasted,
        pasted_text(pasted, true) == seq!['\x1b', '[', '2', '0', '0', '~'] + pasted + seq![
            '\x1b',
            '[',
            '2',
            '0',
            '1',
            '~',
        ],
{
    lemma_plain_text_stays(pasted);
    assert forall|i: int| 0 <= i < pasted.len() implies pasted[i] != '\n' by {
        assert(pasted.contains(pasted[i]));
    }
    assert(pasted_text(pasted, false) =~= pasted);
    reveal_strlit("\x1b[200~");
    reveal_strlit("\x1b[201~");
    assert("\x1b[200~"@ =~= seq!['\x1b', '[', '2', '0', '0', '~']);
    assert("\x1b[201~"@ =~= seq!['\x1b', '[', '2', '0', '1', '~']);
}

proof fn lemma_pastes_keep_text(pasted: Seq<char>)
    ensures
        with_returns(with_newlines(pasted)).filter(
            |character: char| character != '\r' && character != '\n',
        ) == pasted.filter(|character: char| character != '\r' && character != '\n'),
    decreases pasted.len(),
{
    reveal(Seq::filter);
    let kept = |character: char| character != '\r' && character != '\n';
    if pasted.len() == 0 {
        assert(with_returns(pasted) =~= pasted);
    } else {
        lemma_pastes_keep_text(pasted.drop_last());
        let before = with_newlines(pasted.drop_last());
        let after = with_newlines(pasted);
        if after != before {
            assert(with_returns(after).drop_last() =~= with_returns(before));
        }
    }
}

/// A paste without brackets loses nothing but line ends, and nothing comes in.
pub proof fn plain_pastes_keep_the_text(pasted: Seq<char>)
    ensures
        pasted_text(pasted, false).filter(
            |character: char| character != '\r' && character != '\n',
        ) == pasted.filter(|character: char| character != '\r' && character != '\n'),
{
    lemma_pastes_keep_text(pasted);
}

/// The bytes of a key that go to the program; none for a key without any.
pub fn send_key(
    key: KeyInput,
    control: bool,
    alt: bool,
    shift: bool,
    altgr: bool,
    mode: TermMode,
) -> (sent: Option<Vec<u8>>)
    ensures
        ({
            let bytes = input::key_bytes(key, control, alt, shift, altgr, mode);
            match sent {
                Some(sent) => sent@ == bytes && bytes.len() > 0,
                None => bytes.len() == 0,
            }
        }),
{
    let bytes = input::encode_key(key, control, alt, shift, altgr, mode);
    if bytes.len() > 0 {
        Some(bytes)
    } else {
        None
    }
}

/// The bytes of a paste, for the mode that the program set.
pub fn paste(pasted: &str, mode: TermMode) -> (bytes: Vec<u8>)
    ensures
        bytes@ == encode_utf8(pasted_text(pasted@, mode.has(TermMode::BRACKETED_PASTE))),
        bytes@ == encode_utf8(pasted_text(pasted@, mode.bits & 0x10 == 0x10)),
{
    encode_paste(pasted, mode.contains(TermMode::BRACKETED_PASTE))
}

/// A drag belongs to the side that got its press: while a button is held that
/// the program was told of, events go to the program, and while a selection is
/// dragged they go to the selection, whatever the shift key does. Moving the
/// mouse changes nothing about it.
pub proof fn drags_keep_their_owner(
    state: TerminalBackend,
    mode: TermMode,
    press: MouseInput,
    moved: MouseInput,
    next: MouseInput,
)
    requires
        press.action == MouseAction::Press,
        press.button == MouseButton::Left || reports_to_program(state, mode, press),
        mode.meets(TermMode::MOUSE_MODE),
        moved.action == MouseAction::Move,
    ensures
        reports_to_program(after_mouse(state, mode, press), mode, next) == reports_to_program(
            state,
            mode,
            press,
        ),
        after_mouse(after_mouse(state, mode, press), mode, moved) == after_mouse(
            state,
            mode,
            press,
        ),
{
}

/// The program gets mouse events only where it asked for them and only while no
/// selection is dragged, and shift keeps an event from it unless it was told of a
/// press before. An event goes to the program or to the selection, never to both.
pub proof fn events_go_to_one_side(
    state: TerminalBackend,
    mode: TermMode,
    display_offset: int,
    input: MouseInput,
    outcome: MouseOutcome,
)
    requires
        answers_mouse(state, mode, display_offset, input, outcome),
    ensures
        mode.bits & 0x2048 == 0 || state.selecting || (input.shift && state.pressed_button is None)
            ==> !(outcome is Report) && after_mouse(state, mode, input) == (TerminalBackend {
            selecting: after_mouse(state, mode, input).selecting,
            ..state
        }),
        mode.bits & 0x2048 != 0 && !state.selecting && (!input.shift || state.pressed_button
            is Some) ==> (outcome is Report || outcome is Nothing) && after_mouse(
            state,
            mode,
            input,
        ) == (TerminalBackend {
            pressed_button: after_mouse(state, mode, input).pressed_button,
            ..state
        }),
{
}

/// What happens to the selection while the program does not follow the mouse. A
/// press of the left button starts it at the cell under the pointer and a double
/// click starts a selection of words; moving the mouse with the button down and
/// releasing it extend it to the cell under the pointer. Other buttons do nothing.
pub proof fn mice_select_text(
    state: TerminalBackend,
    mode: TermMode,
    display_offset: int,
    input: MouseInput,
    outcome: MouseOutcome,
    point: GridPoint,
    side: Side,
)
    requires
        answers_mouse(state, mode, display_offset, input, outcome),
        mode.bits & 0x2048 == 0,
        0 <= display_offset <= i32::MAX,
        input.row < state.size.rows <= i32::MAX,
        input.column < state.size.columns,
        point.line + display_offset == input.row,
        point.column == input.column,
        side == if input.right_half {
            Side::Right
        } else {
            Side::Left
        },
    ensures
        input.action is Press && input.button is Left ==> outcome == (
        MouseOutcome::StartSelection { kind: SelectionKind::Simple, point, side }) && after_mouse(
            state,
            mode,
            input,
        ).selecting,
        input.action is DoubleClick && input.button is Left ==> outcome == (
        MouseOutcome::StartSelection { kind: SelectionKind::Semantic, point, side: Side::Left })
            && !after_mouse(state, mode, input).selecting,
        input.action is Move && state.selecting ==> outcome == (MouseOutcome::ExtendSelection {
            point,
            side,
        }) && after_mouse(state, mode, input).selecting,
        input.action is Move && !state.selecting ==> outcome is Nothing && !after_mouse(
            state,
            mode,
            input,
        ).selecting,
        input.action is Release && input.button is Left ==> outcome == (
        MouseOutcome::ExtendSelection { point, side }) && !after_mouse(state, mode, input).selecting,
        input.action is Cancel ==> outcome is Redraw && !after_mouse(state, mode, input).selecting,
        !(input.button is Left) && !(input.action is Move) && !(input.action is Cancel) ==> outcome
            is Nothing && after_mouse(state, mode, input).selecting == state.selecting,
{
    let seen = mouse::point_in_view(
        display_offset,
        state.size,
        input.column as int,
        input.row as int,
    );
    assert(seen == (point.line as int, point.column as int));
}

/// What the program is told while it follows the mouse without shift: every press
/// and every release, a movement where it asked for all of them or for those with
/// a button down, and neither a double click nor a cancelled drag. A release names
/// the button that was pressed.
pub proof fn programs_follow_the_mouse(
    state: TerminalBackend,
    mode: TermMode,
    display_offset: int,
    input: MouseInput,
    outcome: MouseOutcome,
)
    requires
        answers_mouse(state, mode, display_offset, input, outcome),
        mode.bits & 0x2048 != 0,
        !state.selecting,
        !input.shift,
        !(input.button is Other),
        state.pressed_button != Some(MouseButton::Other),
    ensures
        ({
            let told = outcome is Report;
            let after = after_mouse(state, mode, input);
            let button = if input.action is Release && state.pressed_button is Some {
                state.pressed_button->0
            } else {
                input.button
            };
            &&& input.action is Press ==> told && after.pressed_button == Some(input.button)
            &&& input.action is Release ==> told && after.pressed_button is None
            &&& input.action is Move ==> (told <==> mode.bits & 0x40 == 0x40 || (mode.bits & 0x2000
                == 0x2000 && state.pressed_button is Some)) && after.pressed_button
                == state.pressed_button
            &&& input.action is Cancel ==> !told && after.pressed_button is None
            &&& input.action is DoubleClick ==> !told && after.pressed_button
                == state.pressed_button
            &&& !told ==> outcome is Nothing
            &&& outcome matches MouseOutcome::Report(bytes) ==> bytes@ == mouse::mouse_report(
                button,
                input.action,
                input.column,
                input.row,
                false,
                input.alt,
                input.control,
                mode,
            )
        }),
{
    let reported = report_bytes(state, mode, input);
    if is_reported(state, mode, input.action) {
        lemma_reports_are_not_empty(
            if input.action is Release && state.pressed_button is Some {
                state.pressed_button->0
            } else {
                input.button
            },
            input,
            mode,
        );
    }
}

proof fn lemma_reports_are_not_empty(button: MouseButton, input: MouseInput, mode: TermMode)
    requires
        !(button is Other),
    ensures
        mouse::mouse_report(
            button,
            input.action,
            input.column,
            input.row,
            input.shift,
            input.alt,
            input.control,
            mode,
        ).len() > 0,
{
    let code = mouse::button_number(button, input.action, mode)->0;
    let whole = mouse::button_with_modifiers(code, input.shift, input.alt, input.control);
    if mode.has(TermMode::SGR_MOUSE) {
        let report = mouse::sgr_report(
            whole,
            mouse::next_number(input.column),
            mouse::next_number(input.row),
            input.action == MouseAction::Release,
        );
        reveal_strlit("\x1b[<");
        assert(report.len() > 0);
        vstd::utf8::encode_utf8_decode_utf8(report);
        if encode_utf8(report).len() == 0 {
            assert(vstd::utf8::decode_utf8(encode_utf8(report)).len() == 0);
        }
    }
}

/// What the wheel does. Where the program follows the mouse, and shift is up, it
/// gets button 64 for each line up and 65 for each line down; on the alternate
/// screen it gets what the arrow keys send; else the view scrolls. At most twenty
/// lines are sent at once, and no turn does nothing.
pub proof fn wheels_scroll_what_is_shown(
    mode: TermMode,
    scroll: MouseScrollInput,
    lines: int,
    outcome: ScrollOutcome,
)
    requires
        answers_scroll(mode, scroll, lines, outcome),
        i32::MIN <= lines <= i32::MAX,
    ensures
        lines == 0 <==> outcome is Nothing,
        outcome is Send ==> 0 < outcome->times <= 20 && (outcome->times == 20 || outcome->times
            == lines || outcome->times == -lines),
        outcome is Send && -20 <= lines <= 20 ==> outcome->times == lines || outcome->times == -lines,
        lines != 0 && mode.bits & 0x2048 != 0 && !scroll.shift ==> outcome is Send
            && outcome->bytes@ == mouse::button_report(
            if lines > 0 {
                64
            } else {
                65
            },
            scroll.column,
            scroll.row,
            false,
            scroll.alt,
            scroll.control,
            mode,
            false,
        ),
        lines != 0 && !(mode.bits & 0x2048 != 0 && !scroll.shift) && mode.bits & 0x1000 == 0x1000
            && mode.bits & 0x8000 == 0x8000 ==> outcome is Send && outcome->bytes@
            == input::key_bytes(
            if lines > 0 {
                KeyInput::Up
            } else {
                KeyInput::Down
            },
            false,
            false,
            false,
            false,
            mode,
        ),
        lines != 0 && !(mode.bits & 0x2048 != 0 && !scroll.shift) && !(mode.bits & 0x1000 == 0x1000
            && mode.bits & 0x8000 == 0x8000) ==> outcome == ScrollOutcome::ScrollDisplay(
            lines as i32,
        ),
{
    input::plain_cursor_keys_send_three_bytes(false, false, false, false, mode);
}

/// A program is told the size of the grid and of a cell as they are, with 65535 as
/// the greatest number of lines and columns.
pub proof fn programs_know_their_size(size: TerminalSize)
    ensures
        size.rows <= 65535 ==> told_size(size).num_lines == size.rows,
        size.rows > 65535 ==> told_size(size).num_lines == 65535,
        size.columns <= 65535 ==> told_size(size).num_cols == size.columns,
        size.columns > 65535 ==> told_size(size).num_cols == 65535,
        told_size(size).cell_width == size.cell_width,
        told_size(size).cell_height == size.cell_height,
{
}

/// A scroll to a position of the scroll bar gets there, and no further than the
/// oldest line.
pub proof fn scroll_bars_lead_to_their_place(view: Viewport, wanted: int)
    requires
        view.screen_lines <= view.total_lines <= i32::MAX,
        view.display_offset <= i32::MAX,
        0 <= wanted,
    ensures
        wanted + view.screen_lines <= view.total_lines ==> view.display_offset + scroll_delta(
            view,
            wanted,
        ) == wanted,
        wanted + view.screen_lines > view.total_lines ==> view.display_offset + scroll_delta(
            view,
            wanted,
        ) + view.screen_lines == view.total_lines,
{
}

/// The destination of a session on another machine is the host, with the user and
/// an at sign before it where a user is named.
pub proof fn destinations_name_the_host(profile: ProfileView)
    ensures
        profile.ssh_user.len() == 0 ==> destination(profile) == profile.ssh_host,
        profile.ssh_user.len() > 0 ==> destination(profile) == profile.ssh_user.push('@')
            + profile.ssh_host,
{
    reveal_strlit("@");
    assert("@"@ =~= seq!['@']);
    assert(profile.ssh_user + seq!['@'] =~= profile.ssh_user.push('@'));
}

/// The arguments of the SSH client: those that the profile adds come right before
/// the destination, in their order. A port other than 22, an identity file and a
/// password each add two arguments before them, and nothing else does.
pub proof fn clients_get_what_the_profile_says(profile: ProfileView)
    ensures
        ({
            let list = client_arguments(profile);
            let extra = profile.arguments.len();
            let secret = if profile.ssh_password.len() > 0 {
                2int
            } else {
                0
            };
            let port = if profile.ssh_port != 22 {
                2int
            } else {
                0
            };
            let identity = if profile.ssh_identity_file is Some {
                2int
            } else {
                0
            };
            &&& list.len() == secret + port + identity + extra + 1
            &&& list.last() == destination(profile)
            &&& forall|i: int|
                0 <= i < extra ==> #[trigger] profile.arguments[i] == list[secret + port + identity
                    + i]
            &&& profile.ssh_port != 22 ==> list[secret] == seq!['-', 'p'] && list[secret + 1]
                == text::decimal(profile.ssh_port as nat)
            &&& profile.ssh_identity_file matches Some(file) ==> list[secret + port] == seq![
                '-',
                'i',
            ] && list[secret + port + 1] == file
            &&& profile.ssh_password.len() > 0 ==> list[0] == seq!['-', 'o'] && list[1]
                == "SendEnv=-SLINT_TERMINAL_SSH_PASSWORD"@
        }),
{
    reveal_strlit("-p");
    reveal_strlit("-i");
    reveal_strlit("-o");
    assert("-p"@ =~= seq!['-', 'p']);
    assert("-i"@ =~= seq!['-', 'i']);
    assert("-o"@ =~= seq!['-', 'o']);
}

/// The frame of a terminal in the background.
pub open spec fn metadata_frame(
    state: TerminalBackend,
    notifier: NotifierView,
    search: SearchView,
) -> FrameView {
    FrameView {
        generation: state.generation,
        columns: state.size.columns as int,
        rows: state.size.rows as int,
        full_redraw: false,
        full_redraw_reason: None,
        metadata_only: true,
        changed_rows: Seq::empty(),
        cursor: CursorPatch { column: 0, row: 0, visible: false, shape: 0, blinking: false },
        scroll_offset: 0,
        scroll_history_lines: 0,
        search,
        decorations: Seq::empty(),
        title: notifier.title,
        exit_message: notifier.exit_message,
    }
}

/// A frame of a terminal in the background carries the title and the end that there
/// is news of, and nothing that is drawn.
pub proof fn background_frames_carry_news_only(
    state: TerminalBackend,
    notifier: NotifierView,
    search: SearchView,
)
    ensures
        ({
            let frame = metadata_frame(state, notifier, search);
            &&& frame.metadata_only
            &&& !frame.full_redraw
            &&& frame.changed_rows.len() == 0
            &&& frame.decorations.len() == 0
            &&& !frame.cursor.visible
            &&& frame.title == notifier.title
            &&& frame.exit_message == notifier.exit_message
            &&& frame.generation == state.generation
        }),
{
}

/// The session after a redraw of everything was asked for.
pub open spec fn with_redraw_request(state: TerminalBackend) -> TerminalBackend {
    TerminalBackend { forced_full_redraw: Some(FullRedrawReason::RendererRequest), ..state }
}

/// The session after it has taken over a size.
pub open spec fn after_resize(state: TerminalBackend, size: TerminalSize) -> TerminalBackend {
    if other_grid(state.size, size) {
        TerminalBackend {
            size,
            generation: if state.generation == u64::MAX {
                0
            } else {
                (state.generation + 1) as u64
            },
            forced_full_redraw: Some(FullRedrawReason::Resize),
            ..state
        }
    } else {
        TerminalBackend { size, ..state }
    }
}

/// The frame after a request, or after a grid of another size, redraws everything,
/// and frames of the new grid have a generation of their own. Another size of the
/// cells alone starts no new grid.
pub proof fn requests_redraw_the_next_frame(
    state: TerminalBackend,
    size: TerminalSize,
    content: TerminalContent,
    search: SearchView,
    matches: Seq<(SearchMatch, SearchHighlight)>,
    columns: int,
    rows: int,
)
    ensures
        frame::captured_frame(
            content,
            columns,
            rows,
            state.generation,
            with_redraw_request(state).forced_full_redraw,
            state.theme,
            search,
            matches,
        ).full_redraw,
        after_resize(state, size).size == size,
        size.columns != state.size.columns || size.rows != state.size.rows ==> after_resize(
            state,
            size,
        ).generation != state.generation && frame::captured_frame(
            content,
            columns,
            rows,
            after_resize(state, size).generation,
            after_resize(state, size).forced_full_redraw,
            state.theme,
            search,
            matches,
        ).full_redraw,
        size.columns == state.size.columns && size.rows == state.size.rows ==> after_resize(
            state,
            size,
        ).generation == state.generation && after_resize(state, size).forced_full_redraw
            == state.forced_full_redraw,
        after_resize(state, size).selecting == state.selecting,
        after_resize(state, size).pressed_button == state.pressed_button,
{
}

} // verus!
