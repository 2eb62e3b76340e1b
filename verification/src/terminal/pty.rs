//! The mailbox for frames of whole rows, the wheel without a remainder, and the
//! worker that needs neither search nor background.

use vstd::prelude::*;
use vstd::arithmetic::power2::pow2;
use vstd::string::*;
use vstd::utf8::encode_utf8;
use crate::ordering;
use crate::terminal::backend;
use crate::terminal::backend::MouseOutcome;
use crate::terminal::command;
use crate::terminal::command::{MouseInput, MouseScrollInput};
use crate::terminal::input::KeyInput;
use crate::terminal::mouse;
use crate::terminal::snapshot::{FramePatch, RowPatch};
use crate::terminal::worker;

verus! {

/// Where the patch of a row stands, or the number of patches.
pub open spec fn place_of_row(rows: Seq<RowPatch>, row: usize) -> int
    decreases rows.len(),
{
    if rows.len() == 0 || rows.first().row == row {
        0
    } else {
        1 + place_of_row(rows.drop_first(), row)
    }
}

/// A list of rows with one more row, in the place of an older patch of that row.
pub open spec fn with_row(rows: Seq<RowPatch>, row: RowPatch) -> Seq<RowPatch> {
    let place = place_of_row(rows, row.row);
    if place < rows.len() {
        rows.update(place, row)
    } else {
        rows.push(row)
    }
}

/// A list of rows with the rows of another list, one after another.
pub open spec fn with_rows(rows: Seq<RowPatch>, newer: Seq<RowPatch>) -> Seq<RowPatch>
    decreases newer.len(),
{
    if newer.len() == 0 {
        rows
    } else {
        with_row(with_rows(rows, newer.drop_last()), newer.last())
    }
}

/// Whether the mailbox holds a frame of another grid.
pub open spec fn other_grid(pending: FramePatch, incoming: FramePatch) -> bool {
    pending.generation != incoming.generation || pending.columns != incoming.columns || pending.rows
        != incoming.rows
}

/// Whether `merged` is the frame that the mailbox holds after `incoming` was put
/// to `pending`.
pub open spec fn is_merged(pending: FramePatch, incoming: FramePatch, merged: FramePatch) -> bool {
    if other_grid(pending, incoming) {
        merged == incoming
    } else {
        &&& merged.generation == pending.generation
        &&& merged.columns == pending.columns
        &&& merged.rows == pending.rows
        &&& merged.full_redraw == (pending.full_redraw || incoming.full_redraw)
        &&& merged.changed_rows@ == ordering::sorted_by_key(
            with_rows(pending.changed_rows@, incoming.changed_rows@),
        )
        &&& merged.cursor == incoming.cursor
        &&& merged.title == (if incoming.title is Some {
            incoming.title
        } else {
            pending.title
        })
        &&& merged.exit_message == (if incoming.exit_message is Some {
            incoming.exit_message
        } else {
            pending.exit_message
        })
    }
}

fn put_row(rows: &mut Vec<RowPatch>, row: RowPatch)
    ensures
        final(rows)@ == with_row(old(rows)@, row),
{
    let ghost all = rows@;
    let mut index: usize = 0;
    assert(all.skip(0) == all);
    while index < rows.len() && rows[index].row != row.row
        invariant
            index <= rows@.len(),
            rows@ == all,
            place_of_row(all, row.row) == index + place_of_row(all.skip(index as int), row.row),
        decreases rows.len() - index,
    {
        assert(all.skip(index as int).drop_first() == all.skip(index + 1));
        index += 1;
    }
    if index < rows.len() {
        rows.set(index, row);
    } else {
        rows.push(row);
    }
}

/// Puts a frame into the mailbox: a row takes the place of its older patch, and
/// the rows are in order.
pub fn publish_frame(slot: &mut Option<FramePatch>, incoming: FramePatch)
    ensures
        *final(slot) is Some,
        match *old(slot) {
            None => final(slot)->0 == incoming,
            Some(pending) => is_merged(pending, incoming, final(slot)->0),
        },
{
    let mut pending = match slot.take() {
        Some(pending) => pending,
        None => {
            *slot = Some(incoming);
            return;
        },
    };
    if pending.generation != incoming.generation || pending.columns != incoming.columns
        || pending.rows != incoming.rows {
        *slot = Some(incoming);
        return;
    }
    let ghost before = pending.changed_rows@;
    let ghost newer = incoming.changed_rows@;
    let mut rows: Vec<RowPatch> = pending.changed_rows;
    let mut rest: Vec<RowPatch> = incoming.changed_rows;
    let ghost mut count: int = 0;
    assert(newer.skip(0) == newer);
    assert(newer.take(0) == Seq::<RowPatch>::empty());
    while rest.len() > 0
        invariant
            0 <= count <= newer.len(),
            rest@ == newer.skip(count),
            rows@ == with_rows(before, newer.take(count)),
        decreases rest.len(),
    {
        let row = rest.remove(0);
        proof {
            assert(rest@ == newer.skip(count + 1));
            assert(newer.take(count + 1).drop_last() == newer.take(count));
            assert(newer.take(count + 1).last() == row);
            count = count + 1;
        }
        put_row(&mut rows, row);
    }
    assert(newer.take(count) == newer);
    pending.changed_rows = ordering::sort_by_key(rows);
    pending.full_redraw = pending.full_redraw || incoming.full_redraw;
    pending.cursor = incoming.cursor;
    if incoming.title.is_some() {
        pending.title = incoming.title;
    }
    if incoming.exit_message.is_some() {
        pending.exit_message = incoming.exit_message;
    }
    *slot = Some(pending);
}

/// Whether no row has two patches.
pub open spec fn rows_distinct(rows: Seq<RowPatch>) -> bool {
    forall|i: int, j: int| 0 <= i < j < rows.len() ==> rows[i].row != rows[j].row
}

proof fn lemma_place_of_row(rows: Seq<RowPatch>, row: usize)
    ensures
        0 <= place_of_row(rows, row) <= rows.len(),
        forall|i: int| 0 <= i < place_of_row(rows, row) ==> (#[trigger] rows[i]).row != row,
        place_of_row(rows, row) < rows.len() ==> rows[place_of_row(rows, row)].row == row,
    decreases rows.len(),
{
    if rows.len() > 0 && rows.first().row != row {
        lemma_place_of_row(rows.drop_first(), row);
        assert forall|i: int| 0 <= i < place_of_row(rows, row) implies (#[trigger] rows[i]).row
            != row by {
            if i > 0 {
                assert(rows.drop_first()[i - 1] == rows[i]);
            }
        }
    }
}

proof fn lemma_with_rows(rows: Seq<RowPatch>, newer: Seq<RowPatch>)
    requires
        rows_distinct(rows),
    ensures
        rows_distinct(with_rows(rows, newer)),
    decreases newer.len(),
{
    if newer.len() > 0 {
        lemma_with_rows(rows, newer.drop_last());
        lemma_place_of_row(with_rows(rows, newer.drop_last()), newer.last().row);
    }
}

/// In the mailbox every row has one patch at most, and the rows ascend.
pub proof fn mailbox_rows_are_distinct(rows: Seq<RowPatch>, newer: Seq<RowPatch>)
    requires
        rows_distinct(rows),
    ensures
        rows_distinct(with_rows(rows, newer)),
        ordering::ascending(ordering::sorted_by_key(with_rows(rows, newer))),
        ordering::sorted_by_key(with_rows(rows, newer)).to_multiset() == with_rows(
            rows,
            newer,
        ).to_multiset(),
{
    lemma_with_rows(rows, newer);
    ordering::sort_is_stable(with_rows(rows, newer));
}

/// The text as it goes to the program.
pub fn encode_paste(pasted: &str, bracketed: bool) -> (bytes: Vec<u8>)
    ensures
        bytes@ == vstd::utf8::encode_utf8(backend::pasted_text(pasted@, bracketed)),
{
    backend::encode_paste(pasted, bracketed)
}

/// How many lines a turn of the wheel scrolls: the nearest whole number, at
/// least one and at most twenty in the direction of the turn. The turn is given
/// by the bits of a 32-bit float; no turn, and what is not finite, scrolls
/// nothing.
pub open spec fn wheel_lines(bits: u32) -> int {
    let exponent = command::exponent_field(bits);
    if exponent == 255 || bits % 0x8000_0000 == 0 {
        0
    } else {
        let unit = pow2((150 - exponent) as nat) as int;
        let magnitude = if exponent < 127 {
            1
        } else if exponent >= 132 {
            20
        } else {
            let nearest = (2 * command::significand(bits) + unit) / (2 * unit);
            if nearest > 20 {
                20
            } else {
                nearest
            }
        };
        if command::sign_bit(bits) {
            -magnitude
        } else {
            magnitude
        }
    }
}

pub fn scroll_lines(bits: u32) -> (lines: i32)
    ensures
        lines == wheel_lines(bits),
{
    let exponent: u32 = (bits / 0x80_0000) % 256;
    if exponent == 255 || bits % 0x8000_0000 == 0 {
        return 0;
    }
    let magnitude: i32 = if exponent < 127 {
        1
    } else if exponent >= 132 {
        20
    } else {
        let unit: u32 = command::power_of_two(150 - exponent);
        let significand: u32 = 0x80_0000 + bits % 0x80_0000;
        let nearest: u32 = (2 * significand + unit) / (2 * unit);
        if nearest > 20 {
            20
        } else {
            nearest as i32
        }
    };
    if bits >= 0x8000_0000 {
        -magnitude
    } else {
        magnitude
    }
}

/// A turn of the wheel is never lost and scrolls twenty lines at most, in its
/// own direction.
pub proof fn wheel_turns_are_never_lost(bits: u32)
    requires
        command::exponent_field(bits) != 255,
        bits % 0x8000_0000 != 0,
    ensures
        command::sign_bit(bits) ==> -20 <= wheel_lines(bits) <= -1,
        !command::sign_bit(bits) ==> 1 <= wheel_lines(bits) <= 20,
{
    let exponent = command::exponent_field(bits);
    if 127 <= exponent < 132 {
        let unit = pow2((150 - exponent) as nat) as int;
        vstd::arithmetic::power2::lemma2_to64();
        let sum = 2 * command::significand(bits) + unit;
        if 150 - exponent < 23 {
            vstd::arithmetic::power2::lemma_pow2_strictly_increases((150 - exponent) as nat, 23);
        }
        vstd::arithmetic::power2::lemma_pow2_pos((150 - exponent) as nat);
        assert(sum / (2 * unit) >= 1) by (nonlinear_arith)
            requires
                sum >= 2 * unit,
                unit > 0,
        ;
    }
}

/// What the worker of a single terminal is told to do.
#[derive(Debug)]
pub enum PtyMessage {
    Input { input: KeyInput, control: bool, alt: bool, shift: bool, altgr: bool },
    Resize { columns: usize, rows: usize },
    PasteClipboard,
    ClipboardStore(String),
    ClipboardLoad,
    Mouse(MouseInput),
    MouseScroll(MouseScrollInput),
    CopySelection,
    Render,
    Shutdown,
}

/// What the worker of a single terminal does about a message.
#[derive(Debug, PartialEq, Eq)]
pub enum PtyAction {
    Nothing,
    SendKey { input: KeyInput, control: bool, alt: bool, shift: bool, altgr: bool },
    Resize { columns: usize, rows: usize },
    PasteClipboard,
    CopyToClipboard(String),
    AnswerClipboard,
    Mouse(MouseInput),
    MouseScroll(MouseScrollInput),
    CopySelection,
    Stop,
}

/// The action that a message calls for. A text that is too long does not get to
/// the clipboard.
pub open spec fn action_for(message: PtyMessage) -> PtyAction {
    match message {
        PtyMessage::Input { input, control, alt, shift, altgr } => PtyAction::SendKey {
            input,
            control,
            alt,
            shift,
            altgr,
        },
        PtyMessage::Resize { columns, rows } => PtyAction::Resize { columns, rows },
        PtyMessage::PasteClipboard => PtyAction::PasteClipboard,
        PtyMessage::ClipboardStore(stored) => if encode_utf8(stored@).len()
            <= worker::OSC52_CLIPBOARD_LIMIT {
            PtyAction::CopyToClipboard(stored)
        } else {
            PtyAction::Nothing
        },
        PtyMessage::ClipboardLoad => PtyAction::AnswerClipboard,
        PtyMessage::Mouse(input) => PtyAction::Mouse(input),
        PtyMessage::MouseScroll(input) => PtyAction::MouseScroll(input),
        PtyMessage::CopySelection => PtyAction::CopySelection,
        PtyMessage::Render => PtyAction::Nothing,
        PtyMessage::Shutdown => PtyAction::Stop,
    }
}

/// When the worker of a single terminal takes frames. Times are in nanoseconds
/// on one clock.
#[derive(Clone, Copy, Debug, PartialEq, Eq, Structural)]
pub struct PtyWorker {
    /// There may be something to draw.
    pub frame_pending: bool,
    /// Before this time no frame is taken.
    pub next_frame: u64,
}

impl PtyWorker {
    /// A worker that takes its first frame at once.
    pub fn new(now: u64) -> (state: PtyWorker)
        ensures
            state == (PtyWorker { frame_pending: true, next_frame: now }),
    {
        PtyWorker { frame_pending: true, next_frame: now }
    }

    /// How long to wait for a message; none means for ever.
    pub fn wait(&self, now: u64) -> (time: Option<u64>)
        ensures
            time is Some <==> self.frame_pending,
            time matches Some(time) ==> time == worker::left_until(
                self.next_frame as int,
                now as int,
            ),
    {
        if self.frame_pending {
            Some(self.next_frame.saturating_sub(now))
        } else {
            None
        }
    }

    /// Takes in a message. A frame is pending where the terminal says so, or
    /// where its size changes.
    pub fn receive(&mut self, message: PtyMessage) -> (action: PtyAction)
        ensures
            action == action_for(message),
            *final(self) == (PtyWorker {
                frame_pending: old(self).frame_pending || message is Render || message is Resize,
                ..*old(self)
            }),
    {
        match message {
            PtyMessage::Input { input, control, alt, shift, altgr } => PtyAction::SendKey {
                input,
                control,
                alt,
                shift,
                altgr,
            },
            PtyMessage::Resize { columns, rows } => {
                self.frame_pending = true;
                PtyAction::Resize { columns, rows }
            },
            PtyMessage::PasteClipboard => PtyAction::PasteClipboard,
            PtyMessage::ClipboardStore(stored) => {
                if stored.as_str().as_bytes().len() <= worker::OSC52_CLIPBOARD_LIMIT {
                    PtyAction::CopyToClipboard(stored)
                } else {
                    PtyAction::Nothing
                }
            },
            PtyMessage::ClipboardLoad => PtyAction::AnswerClipboard,
            PtyMessage::Mouse(input) => PtyAction::Mouse(input),
            PtyMessage::MouseScroll(input) => PtyAction::MouseScroll(input),
            PtyMessage::CopySelection => PtyAction::CopySelection,
            PtyMessage::Render => {
                self.frame_pending = true;
                PtyAction::Nothing
            },
            PtyMessage::Shutdown => PtyAction::Stop,
        }
    }

    /// Whether a frame is to be taken now; the next one comes an interval later.
    pub fn take_due_frame(&mut self, now: u64) -> (due: bool)
        ensures
            due == (old(self).frame_pending && old(self).next_frame <= now),
            *final(self) == (if due {
                PtyWorker {
                    frame_pending: false,
                    next_frame: worker::later(now as int, worker::FRAME_INTERVAL as int) as u64,
                }
            } else {
                *old(self)
            }),
    {
        if self.frame_pending && self.next_frame <= now {
            self.frame_pending = false;
            self.next_frame = now.saturating_add(worker::FRAME_INTERVAL);
            true
        } else {
            false
        }
    }
}

/// Whether a mouse event makes the next frame redraw everything: the selection
/// is part of the cells here.
pub fn redraws_everything(outcome: &MouseOutcome) -> (redraws: bool)
    ensures
        redraws == !(outcome is Nothing || outcome is Report),
{
    match outcome {
        MouseOutcome::Nothing => false,
        MouseOutcome::Report(_) => false,
        _ => true,
    }
}

proof fn lemma_put_members(rows: Seq<RowPatch>, row: RowPatch, patch: RowPatch)
    requires
        rows_distinct(rows),
    ensures
        with_row(rows, row).contains(patch) <==> patch == row || (rows.contains(patch) && patch.row
            != row.row),
{
    let all = with_row(rows, row);
    let place = place_of_row(rows, row.row);
    lemma_place_of_row(rows, row.row);
    if all.contains(patch) && patch != row {
        let i = choose|i: int| 0 <= i < all.len() && all[i] == patch;
        assert(rows[i] == patch);
        if place < rows.len() {
            assert(rows[i].row != rows[place].row);
        }
    }
    if patch == row {
        assert(all[place] == row);
    }
    if rows.contains(patch) && patch.row != row.row {
        let i = choose|i: int| 0 <= i < rows.len() && rows[i] == patch;
        assert(all[i] == patch);
    }
}

/// Of each row the mailbox holds the newest patch: the last one among the newer
/// patches of that row, and where there is none, the one that was there before.
pub proof fn newest_rows_are_kept(rows: Seq<RowPatch>, newer: Seq<RowPatch>, patch: RowPatch)
    requires
        rows_distinct(rows),
    ensures
        with_rows(rows, newer).contains(patch) <==> (exists|i: int|
            0 <= i < newer.len() && #[trigger] newer[i] == patch && forall|j: int|
                i < j < newer.len() ==> (#[trigger] newer[j]).row != patch.row) || (rows.contains(
            patch,
        ) && forall|j: int| 0 <= j < newer.len() ==> (#[trigger] newer[j]).row != patch.row),
    decreases newer.len(),
{
    if newer.len() > 0 {
        let shorter = newer.drop_last();
        let last = newer.last();
        newest_rows_are_kept(rows, shorter, patch);
        lemma_with_rows(rows, shorter);
        lemma_put_members(with_rows(rows, shorter), last, patch);
        assert(newer[newer.len() - 1] == last);
        assert forall|j: int| 0 <= j < shorter.len() implies shorter[j] == #[trigger] newer[j] by {}
        if exists|i: int|
            0 <= i < shorter.len() && #[trigger] shorter[i] == patch && forall|j: int|
                i < j < shorter.len() ==> (#[trigger] shorter[j]).row != patch.row {
            let i = choose|i: int|
                0 <= i < shorter.len() && #[trigger] shorter[i] == patch && forall|j: int|
                    i < j < shorter.len() ==> (#[trigger] shorter[j]).row != patch.row;
            assert(newer[i] == patch);
            if patch.row != last.row {
                assert forall|j: int| i < j < newer.len() implies (#[trigger] newer[j]).row
                    != patch.row by {
                    if j < shorter.len() {
                        assert(shorter[j].row != patch.row);
                    }
                }
            }
        }
        if exists|i: int|
            0 <= i < newer.len() && #[trigger] newer[i] == patch && forall|j: int|
                i < j < newer.len() ==> (#[trigger] newer[j]).row != patch.row {
            let i = choose|i: int|
                0 <= i < newer.len() && #[trigger] newer[i] == patch && forall|j: int|
                    i < j < newer.len() ==> (#[trigger] newer[j]).row != patch.row;
            if i < shorter.len() {
                assert(shorter[i] == patch);
                assert forall|j: int| i < j < shorter.len() implies (#[trigger] shorter[j]).row
                    != patch.row by {
                    assert(newer[j].row != patch.row);
                }
                assert(newer[newer.len() - 1].row != patch.row);
            }
        }
        if rows.contains(patch) && forall|j: int|
            0 <= j < newer.len() ==> (#[trigger] newer[j]).row != patch.row {
            assert forall|j: int| 0 <= j < shorter.len() implies (#[trigger] shorter[j]).row
                != patch.row by {
                assert(newer[j].row != patch.row);
            }
        }
        if rows.contains(patch) && patch.row != last.row && forall|j: int|
            0 <= j < shorter.len() ==> (#[trigger] shorter[j]).row != patch.row {
            assert forall|j: int| 0 <= j < newer.len() implies (#[trigger] newer[j]).row
                != patch.row by {
                if j < shorter.len() {
                    assert(shorter[j].row != patch.row);
                }
            }
        }
    }
}

/// What is read from the mailbox has the newest cursor, and the newest title and
/// exit message that there was; a redraw of everything is never lost. A frame of
/// another grid takes the place of the one that waits.
pub proof fn newest_frames_are_read(pending: FramePatch, incoming: FramePatch, merged: FramePatch)
    requires
        is_merged(pending, incoming, merged),
    ensures
        merged.cursor == incoming.cursor,
        merged.generation == incoming.generation,
        merged.columns == incoming.columns,
        merged.rows == incoming.rows,
        incoming.full_redraw ==> merged.full_redraw,
        incoming.title is Some ==> merged.title == incoming.title,
        incoming.exit_message is Some ==> merged.exit_message == incoming.exit_message,
        pending.generation == incoming.generation && pending.columns == incoming.columns
            && pending.rows == incoming.rows ==> {
            &&& pending.full_redraw ==> merged.full_redraw
            &&& !pending.full_redraw && !incoming.full_redraw ==> !merged.full_redraw
            &&& incoming.title is None ==> merged.title == pending.title
            &&& incoming.exit_message is None ==> merged.exit_message == pending.exit_message
        },
        pending.generation != incoming.generation || pending.columns != incoming.columns
            || pending.rows != incoming.rows ==> merged == incoming,
{
}

/// A turn of the wheel scrolls the nearest number of whole lines, twenty at most:
/// no more than half a line is gained or lost, but for turns of less than a line,
/// which scroll one.
pub proof fn wheel_turns_are_rounded(bits: u32)
    requires
        bits < 0x8000_0000,
        command::exponent_field(bits) != 255,
        bits != 0,
    ensures
        ({
            let lines = wheel_lines(bits);
            let turn = mouse::float_value(bits);
            let line = mouse::one_line();
            &&& turn <= line ==> lines == 1
            &&& line <= turn && lines < 20 ==> lines * 2 * line - line <= 2 * turn && 2 * turn
                < lines * 2 * line + line
            &&& lines == 20 ==> 2 * turn >= 39 * line
        }),
        wheel_lines((bits + 0x8000_0000) as u32) == -wheel_lines(bits),
{
    let signed = (bits + 0x8000_0000) as u32;
    assert(signed / 0x80_0000 == bits / 0x80_0000 + 256 && signed % 0x80_0000 == bits % 0x80_0000);
    assert(signed % 0x8000_0000 == bits % 0x8000_0000);
    let exponent = command::exponent_field(bits);
    let turn = mouse::float_value(bits);
    let line = mouse::one_line();
    mouse::lemma_sizes_of_turns(bits);
    if 127 <= exponent < 132 {
        let scale = pow2((exponent - 1) as nat) as int;
        let unit = pow2((150 - exponent) as nat) as int;
        let significand = command::significand(bits);
        let sum = 2 * significand + unit;
        let nearest = sum / (2 * unit);
        vstd::arithmetic::div_mod::lemma_fundamental_div_mod(sum, 2 * unit);
        vstd::arithmetic::div_mod::lemma_mod_bound(sum, 2 * unit);
        let rest = sum % (2 * unit);
        assert((2 * unit) * nearest == 2 * (nearest * unit)) by (nonlinear_arith);
        assert(2 * significand + unit == 2 * (nearest * unit) + rest);
        let product = nearest * unit;
        assert(product * scale == nearest * line) by (nonlinear_arith)
            requires
                product == nearest * unit,
                unit * scale == line,
        ;
        assert(2 * turn + line >= 2 * (nearest * line) && 2 * turn + line < 2 * (nearest * line) + 2
            * line) by (nonlinear_arith)
            requires
                turn == significand * scale,
                2 * significand + unit == 2 * product + rest,
                0 <= rest < 2 * unit,
                unit * scale == line,
                scale > 0,
                product * scale == nearest * line,
        ;
        let lines = wheel_lines(bits);
        assert(lines * 2 * line == 2 * (lines * line)) by (nonlinear_arith);
        if nearest > 20 {
            assert(nearest * line >= 21 * line) by (nonlinear_arith)
                requires
                    nearest > 20,
                    line > 0,
            ;
        }
        if turn <= line {
            assert(nearest <= 1) by (nonlinear_arith)
                requires
                    2 * turn + line >= 2 * (nearest * line),
                    turn <= line,
                    line > 0,
            ;
            wheel_turns_are_never_lost(bits);
        }
    }
}

/// What the user does is passed on as it is, and a text that a program sets reaches
/// the clipboard if it has no more than 1048576 bytes.
pub proof fn messages_are_passed_on(message: PtyMessage)
    ensures
        ({
            let action = action_for(message);
            &&& message is Input ==> action is SendKey && action->SendKey_input == message->input
                && action->control == message->control && action->alt == message->alt
                && action->shift == message->shift && action->altgr == message->altgr
            &&& message is Resize ==> action is Resize && action->columns == message->columns
                && action->rows == message->rows
            &&& message matches PtyMessage::Mouse(input) ==> action == PtyAction::Mouse(input)
            &&& message matches PtyMessage::MouseScroll(input) ==> action == PtyAction::MouseScroll(
                input,
            )
            &&& message matches PtyMessage::ClipboardStore(stored) ==> if encode_utf8(
                stored@,
            ).len() <= 1_048_576 {
                action == PtyAction::CopyToClipboard(stored)
            } else {
                action is Nothing
            }
            &&& message is PasteClipboard <==> action is PasteClipboard
            &&& message is ClipboardLoad <==> action is AnswerClipboard
            &&& message is CopySelection <==> action is CopySelection
            &&& message is Shutdown <==> action is Stop
            &&& message is Render ==> action is Nothing
        }),
{
}

} // verus!
