//! The rows that a view made of models shows.

use vstd::prelude::*;
use crate::terminal::frame::CursorPatch;
use crate::terminal::palette::RgbColor;
use crate::terminal::snapshot;
use crate::terminal::snapshot::{FramePatch, TerminalCellPatch};
use crate::text;

verus! {

/// A cell as the view shows it.
#[derive(Debug, PartialEq, Eq)]
pub struct UiCell {
    pub text: String,
    pub foreground: RgbColor,
    pub background: RgbColor,
    pub column: i32,
    pub width_in_columns: i32,
    pub bold: bool,
    pub italic: bool,
    pub underline_style: i32,
    pub underline_decoration: String,
    pub strikeout: bool,
    pub hidden: bool,
}

/// What a `UiCell` holds.
#[verifier::ext_equal]
pub struct UiCellView {
    pub text: Seq<char>,
    pub foreground: RgbColor,
    pub background: RgbColor,
    pub column: i32,
    pub width_in_columns: i32,
    pub bold: bool,
    pub italic: bool,
    pub underline_style: i32,
    pub underline_decoration: Seq<char>,
    pub strikeout: bool,
    pub hidden: bool,
}

impl View for UiCell {
    type V = UiCellView;

    open spec fn view(&self) -> UiCellView {
        UiCellView {
            text: self.text@,
            foreground: self.foreground,
            background: self.background,
            column: self.column,
            width_in_columns: self.width_in_columns,
            bold: self.bold,
            italic: self.italic,
            underline_style: self.underline_style,
            underline_decoration: self.underline_decoration@,
            strikeout: self.strikeout,
            hidden: self.hidden,
        }
    }
}

/// The cell that is shown for a cell of a frame; columns beyond the range of the
/// view wrap around.
pub open spec fn shown_cell(cell: TerminalCellPatch) -> UiCellView {
    UiCellView {
        text: cell.text@,
        foreground: cell.foreground,
        background: cell.background,
        column: cell.column as i32,
        width_in_columns: cell.width_in_columns as i32,
        bold: cell.bold,
        italic: cell.italic,
        underline_style: cell.underline_style,
        underline_decoration: cell.underline_decoration@,
        strikeout: cell.strikeout,
        hidden: cell.hidden,
    }
}

pub fn to_ui_cell(cell: TerminalCellPatch) -> (shown: UiCell)
    ensures
        shown@ == shown_cell(cell),
{
    UiCell {
        text: cell.text,
        foreground: cell.foreground,
        background: cell.background,
        column: cell.column as i32,
        width_in_columns: cell.width_in_columns as i32,
        bold: cell.bold,
        italic: cell.italic,
        underline_style: cell.underline_style,
        underline_decoration: cell.underline_decoration,
        strikeout: cell.strikeout,
        hidden: cell.hidden,
    }
}

/// What a row of shown cells holds.
pub open spec fn shown_views(cells: Seq<UiCell>) -> Seq<UiCellView> {
    cells.map_values(|cell: UiCell| cell@)
}

/// The cells that are shown for the cells of a frame.
pub open spec fn shown_cells(cells: Seq<TerminalCellPatch>) -> Seq<UiCellView> {
    cells.map_values(|cell: TerminalCellPatch| shown_cell(cell))
}

fn to_ui_cells(cells: Vec<TerminalCellPatch>) -> (shown: Vec<UiCell>)
    ensures
        shown_views(shown@) == shown_cells(cells@),
{
    let ghost all = cells@;
    let mut rest = cells;
    let mut shown: Vec<UiCell> = Vec::new();
    let mut count: usize = 0;
    let total: usize = rest.len();
    assert(shown_views(shown@) == shown_cells(all).take(0));
    while count < total
        invariant
            count <= total,
            total == all.len(),
            rest@ == all.skip(count as int),
            shown_views(shown@) == shown_cells(all).take(count as int),
        decreases total - count,
    {
        let ghost before = shown_views(shown@);
        assert(rest@.len() == total - count);
        let cell = rest.remove(0);
        assert(cell == all[count as int]);
        assert(rest@ =~= all.skip(count + 1));
        let next = to_ui_cell(cell);
        let ghost view = next@;
        shown.push(next);
        assert(shown_views(shown@) == before.push(view));
        assert(shown_cells(all).take(count + 1) == shown_cells(all).take(count as int).push(
            shown_cells(all)[count as int],
        ));
        count += 1;
    }
    assert(shown_cells(all).take(total as int) == shown_cells(all));
    shown
}

/// What else the view shows of a frame.
#[derive(Debug, PartialEq, Eq)]
pub struct ViewportUpdate {
    pub cursor: CursorPatch,
    pub title: Option<String>,
    /// Where there is one, the program has ended.
    pub exit_message: Option<String>,
}

/// The rows of the view.
pub struct UiViewport {
    rows: Vec<Vec<UiCell>>,
    generation: u64,
    columns: usize,
}

/// What a `UiViewport` holds.
#[verifier::ext_equal]
pub struct ViewportView {
    pub rows: Seq<Seq<UiCellView>>,
    pub generation: u64,
    pub columns: int,
}

/// What some rows hold.
pub open spec fn lines(rows: Seq<Vec<UiCell>>) -> Seq<Seq<UiCellView>> {
    rows.map_values(|row: Vec<UiCell>| shown_views(row@))
}

impl View for UiViewport {
    type V = ViewportView;

    closed spec fn view(&self) -> ViewportView {
        ViewportView {
            rows: lines(self.rows@),
            generation: self.generation,
            columns: self.columns as int,
        }
    }
}

/// Rows without cells.
pub open spec fn empty_lines(count: int) -> Seq<Seq<UiCellView>> {
    Seq::new(count as nat, |row: int| Seq::<UiCellView>::empty())
}

/// The view, made ready for a frame: another grid starts empty.
pub open spec fn ready_for(view: ViewportView, patch: FramePatch) -> ViewportView {
    if patch.generation != view.generation || patch.rows != view.rows.len() || patch.columns
        != view.columns {
        ViewportView {
            rows: empty_lines(patch.rows as int),
            generation: patch.generation,
            columns: patch.columns as int,
        }
    } else {
        view
    }
}

/// The rows with the rows of a frame.
pub open spec fn with_rows(
    rows: Seq<Seq<UiCellView>>,
    patches: Seq<snapshot::RowPatch>,
) -> Seq<Seq<UiCellView>>
    decreases patches.len(),
{
    if patches.len() == 0 {
        rows
    } else {
        let before = with_rows(rows, patches.drop_last());
        let patch = patches.last();
        if patch.row < before.len() {
            before.update(patch.row as int, shown_cells(patch.cells@))
        } else {
            before
        }
    }
}

/// Whether a frame is older than what the view shows.
pub open spec fn outdated(view: ViewportView, patch: FramePatch) -> bool {
    patch.generation < view.generation
}

/// Whether a frame that should redraw everything does not have all rows.
pub open spec fn incomplete(patch: FramePatch) -> bool {
    patch.full_redraw && patch.changed_rows@.len() != patch.rows
}

fn empty_rows(count: usize) -> (rows: Vec<Vec<UiCell>>)
    ensures
        lines(rows@) == empty_lines(count as int),
{
    let mut rows: Vec<Vec<UiCell>> = Vec::new();
    while rows.len() < count
        invariant
            rows@.len() <= count,
            forall|i: int| 0 <= i < rows@.len() ==> (#[trigger] rows@[i])@ == Seq::<UiCell>::empty(),
        decreases count - rows.len(),
    {
        let row: Vec<UiCell> = Vec::new();
        rows.push(row);
    }
    proof {
        assert forall|i: int| 0 <= i < count implies lines(rows@)[i] == empty_lines(
            count as int,
        )[i] by {
            assert(rows@[i]@ == Seq::<UiCell>::empty());
            assert(shown_views(rows@[i]@) =~= Seq::<UiCellView>::empty());
        }
        assert(lines(rows@) =~= empty_lines(count as int));
    }
    rows
}

impl UiViewport {
    pub fn new(row_count: usize) -> (view: UiViewport)
        ensures
            view@ == (ViewportView {
                rows: empty_lines(row_count as int),
                generation: 0,
                columns: 0,
            }),
    {
        UiViewport { rows: empty_rows(row_count), generation: 0, columns: 0 }
    }

    /// The cells of a row, where the view has that row.
    pub fn row(&self, row: usize) -> (cells: Option<&Vec<UiCell>>)
        ensures
            match cells {
                Some(cells) => row < self@.rows.len() && shown_views(cells@)
                    == self@.rows[row as int],
                None => row >= self@.rows.len(),
            },
    {
        assert(lines(self.rows@).len() == self.rows@.len());
        if row < self.rows.len() {
            Some(&self.rows[row])
        } else {
            None
        }
    }

    /// Shows a frame. An older frame changes nothing; one that should redraw
    /// everything and does not, leaves no more than its empty grid.
    pub fn apply(&mut self, patch: FramePatch) -> (update: Option<ViewportUpdate>)
        ensures
            update is Some <==> !outdated(old(self)@, patch) && !incomplete(patch),
            update matches Some(update) ==> {
                &&& update.cursor == patch.cursor
                &&& update.title == patch.title
                &&& update.exit_message == patch.exit_message
            },
            final(self)@ == (if outdated(old(self)@, patch) {
                old(self)@
            } else if incomplete(patch) {
                ready_for(old(self)@, patch)
            } else {
                let ready = ready_for(old(self)@, patch);
                ViewportView { rows: with_rows(ready.rows, patch.changed_rows@), ..ready }
            }),
    {
        if patch.generation < self.generation {
            return None;
        }
        let ghost before = self@;
        assert(lines(self.rows@).len() == self.rows@.len());
        if patch.generation != self.generation || patch.rows != self.rows.len() || patch.columns
            != self.columns {
            self.rows = empty_rows(patch.rows);
            self.generation = patch.generation;
            self.columns = patch.columns;
        }
        assert(self@ =~= ready_for(before, patch));
        let ghost ready = self@;
        if patch.full_redraw && patch.changed_rows.len() != patch.rows {
            return None;
        }
        let ghost all = patch.changed_rows@;
        let mut rest = patch.changed_rows;
        let total: usize = rest.len();
        let mut count: usize = 0;
        assert(all.take(0) == Seq::<snapshot::RowPatch>::empty());
        while count < total
            invariant
                count <= total,
                total == all.len(),
                rest@ == all.skip(count as int),
                self@ == (ViewportView {
                    rows: with_rows(ready.rows, all.take(count as int)),
                    ..ready
                }),
            decreases total - count,
        {
            assert(rest@.len() == total - count);
            let row = rest.remove(0);
            proof {
                assert(row == all[count as int]);
                assert(rest@ =~= all.skip(count + 1));
                assert(all.take(count + 1).drop_last() == all.take(count as int));
                assert(all.take(count + 1).last() == row);
                assert(lines(self.rows@).len() == self.rows@.len());
            }
            let place: usize = row.row;
            let cells = to_ui_cells(row.cells);
            if place < self.rows.len() {
                let ghost earlier = self.rows@;
                let ghost shown = shown_views(cells@);
                self.rows.set(place, cells);
                assert(lines(self.rows@) =~= lines(earlier).update(place as int, shown));
            }
            count += 1;
        }
        assert(all.take(total as int) == all);
        Some(
            ViewportUpdate {
                cursor: patch.cursor,
                title: patch.title,
                exit_message: patch.exit_message,
            },
        )
    }
}

/// What a key does in a view with a single terminal.
#[derive(Clone, Copy, Debug, PartialEq, Eq, Structural)]
pub enum PlainKeyAction {
    Paste,
    Copy,
    /// The key goes to the terminal.
    Send,
}

/// What a key does: the two chords of the clipboard, else it is sent.
pub open spec fn plain_action(typed: Seq<char>, control: bool, shift: bool) -> PlainKeyAction {
    if control && shift && text::same_ignoring_case(typed, "v"@) {
        PlainKeyAction::Paste
    } else if control && shift && text::same_ignoring_case(typed, "c"@) {
        PlainKeyAction::Copy
    } else {
        PlainKeyAction::Send
    }
}

pub fn plain_key_action(typed: &str, control: bool, shift: bool) -> (action: PlainKeyAction)
    ensures
        action == plain_action(typed@, control, shift),
{
    if control && shift && text::eq_ignore_ascii_case(typed, "v") {
        PlainKeyAction::Paste
    } else if control && shift && text::eq_ignore_ascii_case(typed, "c") {
        PlainKeyAction::Copy
    } else {
        PlainKeyAction::Send
    }
}

/// The view shows of each row the last patch that a frame has for it, and keeps the
/// rows that the frame does not name; a patch for a row beyond the view is dropped.
pub proof fn rows_show_their_last_patch(
    rows: Seq<Seq<UiCellView>>,
    patches: Seq<snapshot::RowPatch>,
    row: int,
)
    requires
        0 <= row < rows.len(),
    ensures
        with_rows(rows, patches).len() == rows.len(),
        (forall|i: int| 0 <= i < patches.len() ==> (#[trigger] patches[i]).row != row)
            ==> with_rows(rows, patches)[row] == rows[row],
        forall|i: int|
            0 <= i < patches.len() && (#[trigger] patches[i]).row == row && (forall|j: int|
                i < j < patches.len() ==> (#[trigger] patches[j]).row != row) ==> with_rows(
                rows,
                patches,
            )[row] == shown_cells(patches[i].cells@),
    decreases patches.len(),
{
    if patches.len() > 0 {
        let shorter = patches.drop_last();
        rows_show_their_last_patch(rows, shorter, row);
        let last = patches.len() - 1;
        assert(patches[last] == patches.last());
        assert forall|i: int| 0 <= i < shorter.len() implies shorter[i] == #[trigger] patches[i] by {}
        if forall|i: int| 0 <= i < patches.len() ==> (#[trigger] patches[i]).row != row {
            assert forall|i: int| 0 <= i < shorter.len() implies (#[trigger] shorter[i]).row
                != row by {
                assert(patches[i].row != row);
            }
        }
        assert forall|i: int|
            0 <= i < patches.len() && (#[trigger] patches[i]).row == row && (forall|j: int|
                i < j < patches.len() ==> (#[trigger] patches[j]).row != row) implies with_rows(
            rows,
            patches,
        )[row] == shown_cells(patches[i].cells@) by {
            if i < last {
                assert(patches[last].row != row);
                assert(shorter[i].row == row);
                assert forall|j: int| i < j < shorter.len() implies (#[trigger] shorter[j]).row
                    != row by {
                    assert(patches[j].row != row);
                }
            }
        }
    }
}

/// A cell is shown with its own text, colours, style and place.
pub proof fn cells_are_shown_as_they_are(cells: Seq<TerminalCellPatch>, place: int)
    requires
        0 <= place < cells.len(),
    ensures
        ({
            let cell = cells[place];
            let shown = shown_cells(cells)[place];
            &&& shown_cells(cells).len() == cells.len()
            &&& shown.text == cell.text@
            &&& shown.foreground == cell.foreground
            &&& shown.background == cell.background
            &&& cell.column <= i32::MAX ==> shown.column == cell.column
            &&& cell.width_in_columns <= i32::MAX ==> shown.width_in_columns
                == cell.width_in_columns
            &&& shown.bold == cell.bold
            &&& shown.italic == cell.italic
            &&& shown.underline_style == cell.underline_style
            &&& shown.underline_decoration == cell.underline_decoration@
            &&& shown.strikeout == cell.strikeout
            &&& shown.hidden == cell.hidden
        }),
{
}

/// A frame of another grid starts with an empty view of its own size; one of the same
/// grid builds on what is shown. Only a frame of an earlier grid is outdated, and
/// only one that should redraw everything and has another number of rows is
/// incomplete.
pub proof fn frames_build_on_their_own_grid(view: ViewportView, patch: FramePatch)
    ensures
        ({
            let ready = ready_for(view, patch);
            let same = patch.generation == view.generation && patch.rows == view.rows.len()
                && patch.columns == view.columns;
            &&& same ==> ready == view
            &&& !same ==> ready.rows.len() == patch.rows && forall|row: int|
                0 <= row < patch.rows ==> (#[trigger] ready.rows[row]).len() == 0
            &&& ready.generation == patch.generation
            &&& ready.columns == patch.columns
        }),
        outdated(view, patch) <==> patch.generation < view.generation,
        incomplete(patch) <==> patch.full_redraw && patch.changed_rows@.len() != patch.rows,
{
}

/// Control and shift with V paste and with C copy, whatever the case of the letter;
/// every other key goes to the terminal.
pub proof fn clipboard_keys_need_control_and_shift(typed: Seq<char>, control: bool, shift: bool)
    ensures
        plain_action(typed, control, shift) is Paste <==> control && shift && (typed == seq!['v']
            || typed == seq!['V']),
        plain_action(typed, control, shift) is Copy <==> control && shift && (typed == seq!['c']
            || typed == seq!['C']),
{
    reveal_strlit("v");
    reveal_strlit("c");
    let lowered = text::ascii_lowered(typed);
    assert("v"@ =~= seq!['v']);
    assert("c"@ =~= seq!['c']);
    assert(text::ascii_lowered(seq!['v']) =~= seq!['v']);
    assert(text::ascii_lowered(seq!['c']) =~= seq!['c']);
    assert(text::ascii_lowered(seq!['V']) =~= seq!['v']);
    assert(text::ascii_lowered(seq!['C']) =~= seq!['c']);
    assert(lowered.len() == typed.len());
    if lowered == seq!['v'] {
        assert(lowered[0] == text::ascii_lower(typed[0]));
        assert(typed[0] == 'v' || typed[0] == 'V');
        assert(typed =~= seq!['v'] || typed =~= seq!['V']);
    }
    if lowered == seq!['c'] {
        assert(lowered[0] == text::ascii_lower(typed[0]));
        assert(typed[0] == 'c' || typed[0] == 'C');
        assert(typed =~= seq!['c'] || typed =~= seq!['C']);
    }
    assert(seq!['v'][0] != seq!['c'][0]);
}

} // verus!
