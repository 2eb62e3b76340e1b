//! Frames of whole rows, with the selection written into the cells.

use vstd::prelude::*;
use vstd::string::*;
use crate::ordering::Keyed;
use crate::terminal::frame;
use crate::terminal::frame::{
    CursorPatch, CursorShape, Damage, GridCell, LineDamage, SelectionSpan, TerminalContent,
};
use crate::terminal::mode::CellFlags;
use crate::terminal::notifier::{Notifier, NotifierView};
use crate::terminal::palette;
use crate::terminal::palette::{ColorOverrides, RgbColor, TerminalTheme};
use crate::terminal::search::GridPoint;
use crate::text;

verus! {

/// Everything that is drawn for one character.
#[derive(Debug, PartialEq, Eq)]
pub struct TerminalCellPatch {
    pub text: String,
    pub foreground: RgbColor,
    pub background: RgbColor,
    pub column: usize,
    pub width_in_columns: usize,
    pub bold: bool,
    pub italic: bool,
    pub underline_style: i32,
    /// The characters that draw an underline with a pattern.
    pub underline_decoration: String,
    pub strikeout: bool,
    pub hidden: bool,
}

/// What a `TerminalCellPatch` holds.
#[verifier::ext_equal]
pub struct CellView {
    pub text: Seq<char>,
    pub foreground: RgbColor,
    pub background: RgbColor,
    pub column: int,
    pub width_in_columns: int,
    pub bold: bool,
    pub italic: bool,
    pub underline_style: int,
    pub underline_decoration: Seq<char>,
    pub strikeout: bool,
    pub hidden: bool,
}

impl View for TerminalCellPatch {
    type V = CellView;

    open spec fn view(&self) -> CellView {
        CellView {
            text: self.text@,
            foreground: self.foreground,
            background: self.background,
            column: self.column as int,
            width_in_columns: self.width_in_columns as int,
            bold: self.bold,
            italic: self.italic,
            underline_style: self.underline_style as int,
            underline_decoration: self.underline_decoration@,
            strikeout: self.strikeout,
            hidden: self.hidden,
        }
    }
}

/// A row with all of its cells.
#[derive(Debug, PartialEq, Eq)]
pub struct RowPatch {
    pub row: usize,
    pub cells: Vec<TerminalCellPatch>,
}

impl Keyed for RowPatch {
    open spec fn key(&self) -> int {
        self.row as int
    }

    fn sort_key(&self) -> u64 {
        self.row as u64
    }
}

/// What a `RowPatch` holds.
#[verifier::ext_equal]
pub struct RowView {
    pub row: int,
    pub cells: Seq<CellView>,
}

/// What a list of cells holds.
pub open spec fn cell_views(cells: Seq<TerminalCellPatch>) -> Seq<CellView> {
    cells.map_values(|cell: TerminalCellPatch| cell@)
}

impl View for RowPatch {
    type V = RowView;

    open spec fn view(&self) -> RowView {
        RowView { row: self.row as int, cells: cell_views(self.cells@) }
    }
}

/// What a list of rows holds.
pub open spec fn row_views(rows: Seq<RowPatch>) -> Seq<RowView> {
    rows.map_values(|row: RowPatch| row@)
}

/// One frame.
#[derive(Debug)]
pub struct FramePatch {
    pub generation: u64,
    pub columns: usize,
    pub rows: usize,
    pub full_redraw: bool,
    pub changed_rows: Vec<RowPatch>,
    pub cursor: CursorPatch,
    pub title: Option<String>,
    pub exit_message: Option<String>,
}

/// A colour at two thirds of its strength.
pub fn dim_color(color: RgbColor) -> (dark: RgbColor)
    ensures
        dark == palette::dimmed(color),
{
    palette::dim(color)
}

pub fn cell_width_in_columns(flags: CellFlags) -> (width: usize)
    ensures
        width == frame::width_of(flags),
{
    frame::cell_width_in_columns(flags)
}

pub fn cursor_shape(shape: CursorShape) -> (code: i32)
    ensures
        code == frame::cursor_code(shape),
{
    frame::cursor_shape(shape)
}

pub fn underline_style(flags: CellFlags) -> (style: i32)
    ensures
        style == frame::underline_code(flags),
{
    frame::underline_style(flags)
}

/// A character, repeated.
pub open spec fn repeated(character: char, count: int) -> Seq<char> {
    Seq::new(count as nat, |index: int| character)
}

/// The characters that draw an underline under a number of columns.
pub open spec fn underline_pattern(style: int, columns: int) -> Seq<char> {
    if style == 3 {
        repeated('~', columns)
    } else if style == 4 {
        repeated('.', frame::least(columns * 2, usize::MAX as int))
    } else if style == 5 {
        repeated('-', columns)
    } else {
        Seq::empty()
    }
}

fn repeat(character: char, count: usize) -> (line: String)
    ensures
        line@ == repeated(character, count as int),
{
    let mut line = String::new();
    let mut done: usize = 0;
    assert(line@ == repeated(character, 0));
    while done < count
        invariant
            done <= count,
            line@ == repeated(character, done as int),
        decreases count - done,
    {
        line.push(character);
        assert(line@ == repeated(character, done + 1));
        done += 1;
    }
    line
}

pub fn underline_decoration(style: i32, columns: usize) -> (line: String)
    ensures
        line@ == underline_pattern(style as int, columns as int),
{
    if style == 3 {
        repeat('~', columns)
    } else if style == 4 {
        let count: usize = if columns > usize::MAX / 2 {
            usize::MAX
        } else {
            columns * 2
        };
        repeat('.', count)
    } else if style == 5 {
        repeat('-', columns)
    } else {
        let line = String::new();
        assert(line@ == Seq::<char>::empty());
        line
    }
}

impl SelectionSpan {
    /// Whether a cell is selected.
    pub open spec fn holds(self, point: GridPoint) -> bool {
        &&& self.start.line <= point.line <= self.end.line
        &&& self.start.column <= point.column || (self.start.line != point.line && !self.is_block)
        &&& self.end.column >= point.column || (self.end.line != point.line && !self.is_block)
    }

    pub fn contains(self, point: GridPoint) -> (inside: bool)
        ensures
            inside == self.holds(point),
    {
        self.start.line <= point.line && self.end.line >= point.line && (self.start.column
            <= point.column || (self.start.line != point.line && !self.is_block)) && (
        self.end.column >= point.column || (self.end.line != point.line && !self.is_block))
    }
}

/// Whether a character is selected: a wide one is, where one of its halves is.
pub open spec fn cell_selected(
    selection: Option<SelectionSpan>,
    line: i32,
    column: int,
    flags: CellFlags,
) -> bool {
    selection matches Some(range) && (range.holds(GridPoint { line, column: column as usize }) || (
    flags.has(CellFlags::WIDE_CHAR) && range.holds(
        GridPoint { line, column: (column + 1) as usize },
    )))
}

pub fn selection_contains_cell(
    selection: Option<SelectionSpan>,
    line: i32,
    column: usize,
    flags: CellFlags,
) -> (selected: bool)
    requires
        column < usize::MAX,
    ensures
        selected == cell_selected(selection, line, column as int, flags),
{
    match selection {
        Some(range) => range.contains(GridPoint { line, column }) || (flags.contains(
            CellFlags::WIDE_CHAR,
        ) && range.contains(GridPoint { line, column: column + 1 })),
        None => false,
    }
}

/// The text of a selected cell.
pub open spec fn selection_foreground() -> RgbColor {
    RgbColor { red: 0xe6, green: 0xed, blue: 0xf3 }
}

/// The background of a selected cell.
pub open spec fn selection_background() -> RgbColor {
    RgbColor { red: 0x26, green: 0x4f, blue: 0x78 }
}

/// What is drawn for one grid cell.
pub open spec fn drawn_cell(
    cell: GridCell,
    line: i32,
    column: int,
    selection: Option<SelectionSpan>,
    overrides: Seq<Option<RgbColor>>,
    theme: TerminalTheme,
) -> CellView {
    let plain = frame::drawn_cell(cell, column, overrides, theme);
    let selected = cell_selected(selection, line, column, cell.flags);
    CellView {
        text: if plain.hidden || cell.flags.has(CellFlags::LEADING_WIDE_CHAR_SPACER) {
            Seq::empty()
        } else {
            seq![cell.character] + cell.zerowidth@
        },
        foreground: if selected {
            selection_foreground()
        } else {
            plain.foreground
        },
        background: if selected {
            selection_background()
        } else {
            plain.background
        },
        column,
        width_in_columns: plain.width_in_columns,
        bold: plain.bold,
        italic: plain.italic,
        underline_style: plain.underline_style,
        underline_decoration: underline_pattern(plain.underline_style, plain.width_in_columns),
        strikeout: plain.strikeout,
        hidden: plain.hidden,
    }
}

fn draw_cell(
    cell: &GridCell,
    line: i32,
    column: usize,
    selection: Option<SelectionSpan>,
    colors: &ColorOverrides,
    theme: TerminalTheme,
) -> (patch: TerminalCellPatch)
    requires
        colors.well_formed(),
        column < usize::MAX,
    ensures
        patch@ == drawn_cell(*cell, line, column as int, selection, colors.entries@, theme),
{
    let first = palette::resolve_color(cell.foreground, colors, true, theme);
    let second = palette::resolve_color(cell.background, colors, false, theme);
    let (mut foreground, mut background) = if cell.flags.contains(CellFlags::INVERSE) {
        (second, first)
    } else {
        (first, second)
    };
    if cell.flags.contains(CellFlags::DIM) {
        foreground = dim_color(foreground);
    }
    if selection_contains_cell(selection, line, column, cell.flags) {
        foreground = RgbColor { red: 0xe6, green: 0xed, blue: 0xf3 };
        background = RgbColor { red: 0x26, green: 0x4f, blue: 0x78 };
    }
    let hidden = cell.flags.contains(CellFlags::HIDDEN);
    let width_in_columns = cell_width_in_columns(cell.flags);
    let style = underline_style(cell.flags);
    let mut shown = String::new();
    if !hidden && !cell.flags.contains(CellFlags::LEADING_WIDE_CHAR_SPACER) {
        shown.push(cell.character);
        let marks = text::string_of(&cell.zerowidth, 0, cell.zerowidth.len());
        assert(marks@ == cell.zerowidth@);
        shown.append(marks.as_str());
        assert(shown@ == seq![cell.character] + cell.zerowidth@);
    } else {
        assert(shown@ == Seq::<char>::empty());
    }
    TerminalCellPatch {
        text: shown,
        foreground,
        background,
        column,
        width_in_columns,
        bold: cell.flags.contains(CellFlags::BOLD),
        italic: cell.flags.contains(CellFlags::ITALIC),
        underline_style: style,
        underline_decoration: underline_decoration(style, width_in_columns),
        strikeout: cell.flags.contains(CellFlags::STRIKEOUT),
        hidden,
    }
}

/// What is drawn for the first `to` columns of a row.
pub open spec fn drawn_cells(
    row: Seq<GridCell>,
    line: i32,
    to: int,
    selection: Option<SelectionSpan>,
    overrides: Seq<Option<RgbColor>>,
    theme: TerminalTheme,
) -> Seq<CellView>
    decreases to,
{
    if to <= 0 {
        Seq::empty()
    } else {
        let before = drawn_cells(row, line, to - 1, selection, overrides, theme);
        if row[to - 1].flags.has(CellFlags::WIDE_CHAR_SPACER) {
            before
        } else {
            before.push(drawn_cell(row[to - 1], line, to - 1, selection, overrides, theme))
        }
    }
}

/// One whole row.
pub open spec fn whole_row(
    content: TerminalContent,
    row: int,
    columns: int,
    theme: TerminalTheme,
) -> RowView {
    RowView {
        row,
        cells: drawn_cells(
            content.grid@[row]@,
            (row - content.display_offset) as i32,
            columns,
            content.selection,
            content.colors.entries@,
            theme,
        ),
    }
}

fn draw_row(content: &TerminalContent, row: usize, columns: usize, rows: usize, theme: TerminalTheme) -> (
patch: RowPatch)
    requires
        content.well_formed(columns as int, rows as int),
        row < rows,
    ensures
        patch@ == whole_row(*content, row as int, columns as int, theme),
{
    let line: i32 = (row as i64 - content.display_offset as i64) as i32;
    let cells_of_row: &Vec<GridCell> = &content.grid[row];
    let mut cells: Vec<TerminalCellPatch> = Vec::new();
    let mut column: usize = 0;
    while column < columns
        invariant
            column <= columns <= cells_of_row@.len(),
            content.colors.well_formed(),
            cell_views(cells@) == drawn_cells(
                cells_of_row@,
                line,
                column as int,
                content.selection,
                content.colors.entries@,
                theme,
            ),
        decreases columns - column,
    {
        let cell: &GridCell = &cells_of_row[column];
        if !cell.flags.contains(CellFlags::WIDE_CHAR_SPACER) {
            let patch = draw_cell(cell, line, column, content.selection, &content.colors, theme);
            let ghost before = cell_views(cells@);
            cells.push(patch);
            assert(cell_views(cells@) == before.push(patch@));
        }
        column += 1;
    }
    RowPatch { row, cells }
}

/// Whether a row is reported as changed.
pub open spec fn row_damaged(lines: Seq<LineDamage>, row: int) -> bool {
    exists|i: int| 0 <= i < lines.len() && (#[trigger] lines[i]).line == row
}

/// The rows below `to` that have to be redrawn, in ascending order and each once.
pub open spec fn damaged_rows(damage: Damage, force: bool, to: int) -> Seq<int>
    decreases to,
{
    if to <= 0 {
        Seq::empty()
    } else {
        let before = damaged_rows(damage, force, to - 1);
        if force || damage is Full || row_damaged(damage->Partial_0@, to - 1) {
            before.push(to - 1)
        } else {
            before
        }
    }
}

/// Whole rows.
pub open spec fn whole_rows(
    content: TerminalContent,
    rows: Seq<int>,
    columns: int,
    theme: TerminalTheme,
) -> Seq<RowView> {
    rows.map_values(|row: int| whole_row(content, row, columns, theme))
}

fn is_damaged(damage: &Damage, row: usize) -> (damaged: bool)
    ensures
        damaged == (damage is Full || row_damaged(damage->Partial_0@, row as int)),
{
    match damage {
        Damage::Full => true,
        Damage::Partial(lines) => {
            let mut index: usize = 0;
            while index < lines.len()
                invariant
                    index <= lines@.len(),
                    damage is Partial,
                    lines@ == damage->Partial_0@,
                    forall|i: int| 0 <= i < index ==> (#[trigger] lines@[i]).line != row,
                decreases lines.len() - index,
            {
                if lines[index].line == row {
                    assert(lines@[index as int].line == row);
                    return true;
                }
                index += 1;
            }
            false
        },
    }
}

/// Takes a frame, where there is anything new. The selection counts as a
/// change of every row, so `force_full_redraw` goes with each change of it.
pub fn take_frame(
    notifier: &mut Notifier,
    content: &TerminalContent,
    columns: usize,
    rows: usize,
    generation: u64,
    force_full_redraw: &mut bool,
    theme: TerminalTheme,
) -> (taken: Option<FramePatch>)
    requires
        content.well_formed(columns as int, rows as int),
    ensures
        taken is Some == old(notifier)@.dirty,
        taken is None ==> *final(force_full_redraw) == *old(force_full_redraw) && final(notifier)@
            == old(notifier)@,
        taken matches Some(patch) ==> {
            &&& final(notifier)@ == (NotifierView {
                dirty: false,
                title: None,
                exit_message: None,
                ..old(notifier)@
            })
            &&& !*final(force_full_redraw)
            &&& patch.generation == generation
            &&& patch.columns == columns
            &&& patch.rows == rows
            &&& patch.full_redraw == (*old(force_full_redraw) || content.damage is Full)
            &&& row_views(patch.changed_rows@) == whole_rows(
                *content,
                damaged_rows(content.damage, *old(force_full_redraw), rows as int),
                columns as int,
                theme,
            )
            &&& patch.cursor == frame::frame_cursor(*content, rows as int)
            &&& text::optional(patch.title) == old(notifier)@.title
            &&& text::optional(patch.exit_message) == old(notifier)@.exit_message
        },
{
    if !notifier.begin_frame() {
        return None;
    }
    let force = *force_full_redraw;
    *force_full_redraw = false;
    let full = match content.damage {
        Damage::Full => true,
        Damage::Partial(_) => false,
    };
    let mut changed_rows: Vec<RowPatch> = Vec::new();
    let mut row: usize = 0;
    assert(row_views(changed_rows@) == whole_rows(
        *content,
        damaged_rows(content.damage, force, 0),
        columns as int,
        theme,
    ));
    while row < rows
        invariant
            row <= rows,
            content.well_formed(columns as int, rows as int),
            row_views(changed_rows@) == whole_rows(
                *content,
                damaged_rows(content.damage, force, row as int),
                columns as int,
                theme,
            ),
        decreases rows - row,
    {
        let ghost before = damaged_rows(content.damage, force, row as int);
        if force || is_damaged(&content.damage, row) {
            let patch = draw_row(content, row, columns, rows, theme);
            let ghost earlier = row_views(changed_rows@);
            changed_rows.push(patch);
            assert(row_views(changed_rows@) == earlier.push(patch@));
            assert(whole_rows(*content, before.push(row as int), columns as int, theme)
                == whole_rows(*content, before, columns as int, theme).push(
                whole_row(*content, row as int, columns as int, theme),
            ));
        }
        row += 1;
    }
    let cursor_row: i64 = content.cursor_point.line as i64 + content.display_offset as i64;
    let cursor = CursorPatch {
        column: content.cursor_point.column,
        row: if cursor_row < 0 {
            0
        } else {
            cursor_row as usize
        },
        visible: content.cursor_shape != CursorShape::Hidden && cursor_row >= 0 && cursor_row
            < rows as i64,
        shape: cursor_shape(content.cursor_shape),
        blinking: content.cursor_blinking,
    };
    let title = notifier.take_title();
    let exit_message = notifier.take_exit_message();
    Some(
        FramePatch {
            generation,
            columns,
            rows,
            full_redraw: force || full,
            changed_rows,
            cursor,
            title,
            exit_message,
        },
    )
}

/// The rows of a frame ascend, and there is none that was neither forced nor
/// reported.
pub proof fn damaged_rows_ascend(damage: Damage, force: bool, to: int)
    ensures
        forall|i: int, j: int|
            0 <= i < j < damaged_rows(damage, force, to).len() ==> damaged_rows(damage, force, to)[i]
                < damaged_rows(damage, force, to)[j],
        forall|row: int| #[trigger]
            damaged_rows(damage, force, to).contains(row) <==> 0 <= row < to && (force || damage
                is Full || row_damaged(damage->Partial_0@, row)),
    decreases to,
{
    if to > 0 {
        damaged_rows_ascend(damage, force, to - 1);
        let before = damaged_rows(damage, force, to - 1);
        let all = damaged_rows(damage, force, to);
        assert forall|i: int| 0 <= i < before.len() implies before[i] < to - 1 by {
            assert(before.contains(before[i]));
        }
        assert forall|row: int| #[trigger]
            all.contains(row) <==> 0 <= row < to && (force || damage is Full || row_damaged(
                damage->Partial_0@,
                row,
            )) by {
            if all.contains(row) && row != to - 1 {
                let i = choose|i: int| 0 <= i < all.len() && all[i] == row;
                assert(before[i] == row);
                assert(before.contains(row));
            }
            if before.contains(row) {
                let i = choose|i: int| 0 <= i < before.len() && before[i] == row;
                assert(all[i] == row);
            }
            if all.len() > before.len() {
                assert(all[before.len() as int] == to - 1);
            }
        }
    }
}

/// A cell is selected if and only if the selection holds it, or holds the second
/// half of the wide character in it.
pub proof fn selections_hold_their_cells(
    selection: Option<SelectionSpan>,
    line: i32,
    column: int,
    flags: CellFlags,
)
    requires
        0 <= column < usize::MAX,
    ensures
        selection is None ==> !cell_selected(selection, line, column, flags),
        selection matches Some(range) ==> (cell_selected(selection, line, column, flags) <==> (
        frame::range_holds(range.start, range.end, range.is_block, line as int, column) || (
        flags.bits & 0x0020 == 0x0020 && frame::range_holds(
            range.start,
            range.end,
            range.is_block,
            line as int,
            column + 1,
        )))),
{
}

/// A selected cell has the two colours of a selection. Any other cell has the
/// colours that it has in a frame without a selection; reverse video exchanges
/// them, and a dim cell has darker text. All cells keep their style.
pub proof fn selections_change_colors_only(
    cell: GridCell,
    line: i32,
    column: int,
    selection: Option<SelectionSpan>,
    overrides: Seq<Option<RgbColor>>,
    theme: TerminalTheme,
)
    ensures
        ({
            let drawn = drawn_cell(cell, line, column, selection, overrides, theme);
            let plain = drawn_cell(cell, line, column, None, overrides, theme);
            let first = palette::resolved_color(cell.foreground, overrides, theme);
            let second = palette::resolved_color(cell.background, overrides, theme);
            let bits = cell.flags.bits;
            &&& drawn == (CellView {
                foreground: drawn.foreground,
                background: drawn.background,
                ..plain
            })
            &&& cell_selected(selection, line, column, cell.flags) ==> palette::is_hex(
                drawn.foreground,
                0xe6edf3,
            ) && palette::is_hex(drawn.background, 0x264f78)
            &&& !cell_selected(selection, line, column, cell.flags) ==> drawn == plain
            &&& bits & 0x0001 == 0x0001 ==> plain.background == first
            &&& bits & 0x0001 != 0x0001 ==> plain.background == second
            &&& bits & 0x0080 != 0x0080 && bits & 0x0001 == 0x0001 ==> plain.foreground == second
            &&& bits & 0x0080 != 0x0080 && bits & 0x0001 != 0x0001 ==> plain.foreground == first
            &&& bits & 0x0080 == 0x0080 && bits & 0x0001 == 0x0001 ==> plain.foreground
                == palette::dimmed(second)
            &&& bits & 0x0080 == 0x0080 && bits & 0x0001 != 0x0001 ==> plain.foreground
                == palette::dimmed(first)
        }),
{
}

/// A cell shows its character with the marks on it and in the style of its flags;
/// a hidden cell shows nothing. An underline with a pattern is as long as the cell
/// is wide, and twice as many dots fit.
pub proof fn cells_show_their_text(
    cell: GridCell,
    line: i32,
    column: int,
    selection: Option<SelectionSpan>,
    overrides: Seq<Option<RgbColor>>,
    theme: TerminalTheme,
)
    ensures
        ({
            let drawn = drawn_cell(cell, line, column, selection, overrides, theme);
            let style = frame::drawn_cell(cell, column, overrides, theme);
            let bits = cell.flags.bits;
            let pattern = drawn.underline_decoration;
            &&& drawn.column == column
            &&& bits & 0x0100 == 0x0100 || bits & 0x0400 == 0x0400 ==> drawn.text.len() == 0
            &&& bits & 0x0100 != 0x0100 && bits & 0x0400 != 0x0400 ==> drawn.text.len() == 1
                + cell.zerowidth@.len() && drawn.text[0] == cell.character && drawn.text.skip(1)
                == cell.zerowidth@
            &&& drawn.hidden == (bits & 0x0100 == 0x0100)
            &&& drawn.bold == (bits & 0x0002 == 0x0002)
            &&& drawn.italic == (bits & 0x0004 == 0x0004)
            &&& drawn.strikeout == (bits & 0x0200 == 0x0200)
            &&& drawn.width_in_columns == style.width_in_columns
            &&& drawn.underline_style == style.underline_style
            &&& drawn.underline_style == 3 ==> pattern.len() == drawn.width_in_columns && forall|
                i: int,
            |
                0 <= i < pattern.len() ==> #[trigger] pattern[i] == '~'
            &&& drawn.underline_style == 4 ==> pattern.len() == 2 * drawn.width_in_columns
                && forall|i: int| 0 <= i < pattern.len() ==> #[trigger] pattern[i] == '.'
            &&& drawn.underline_style == 5 ==> pattern.len() == drawn.width_in_columns && forall|
                i: int,
            |
                0 <= i < pattern.len() ==> #[trigger] pattern[i] == '-'
            &&& drawn.underline_style < 3 ==> pattern.len() == 0
        }),
{
    assert((seq![cell.character] + cell.zerowidth@).skip(1) =~= cell.zerowidth@);
}

/// A row has one cell for each column that is not the second half of a wide
/// character, in the order of the columns.
pub proof fn rows_hold_every_character(
    row: Seq<GridCell>,
    line: i32,
    to: int,
    selection: Option<SelectionSpan>,
    overrides: Seq<Option<RgbColor>>,
    theme: TerminalTheme,
)
    requires
        to <= row.len(),
    ensures
        ({
            let cells = drawn_cells(row, line, to, selection, overrides, theme);
            &&& forall|i: int|
                0 <= i < cells.len() ==> 0 <= (#[trigger] cells[i]).column < to
                    && row[cells[i].column].flags.bits & 0x0040 != 0x0040 && cells[i] == drawn_cell(
                    row[cells[i].column],
                    line,
                    cells[i].column,
                    selection,
                    overrides,
                    theme,
                )
            &&& forall|i: int, j: int|
                0 <= i < j < cells.len() ==> (#[trigger] cells[i]).column < (
                #[trigger] cells[j]).column
            &&& forall|column: int|
                0 <= column < to && (#[trigger] row[column]).flags.bits & 0x0040 != 0x0040
                    ==> cells.contains(
                    drawn_cell(row[column], line, column, selection, overrides, theme),
                )
        }),
    decreases to,
{
    if 0 < to {
        rows_hold_every_character(row, line, to - 1, selection, overrides, theme);
        let before = drawn_cells(row, line, to - 1, selection, overrides, theme);
        let cells = drawn_cells(row, line, to, selection, overrides, theme);
        assert forall|column: int|
            0 <= column < to && (#[trigger] row[column]).flags.bits & 0x0040
                != 0x0040 implies cells.contains(
            drawn_cell(row[column], line, column, selection, overrides, theme),
        ) by {
            let wanted = drawn_cell(row[column], line, column, selection, overrides, theme);
            if column < to - 1 {
                assert(before.contains(wanted));
                let i = choose|i: int| 0 <= i < before.len() && before[i] == wanted;
                assert(cells[i] == wanted);
            } else {
                assert(cells[before.len() as int] == wanted);
            }
        }
    }
}

/// A row of the screen is drawn from the grid line that the view shows there: as
/// many lines up as the view is scrolled back.
pub proof fn rows_show_their_line(
    content: TerminalContent,
    row: int,
    columns: int,
    theme: TerminalTheme,
    place: int,
)
    requires
        0 <= row <= i32::MAX,
        content.display_offset <= i32::MAX,
        0 <= columns <= content.grid@[row]@.len(),
        0 <= place < whole_row(content, row, columns, theme).cells.len(),
    ensures
        whole_row(content, row, columns, theme).row == row,
        ({
            let cell = whole_row(content, row, columns, theme).cells[place];
            0 <= cell.column < columns && cell == drawn_cell(
                content.grid@[row]@[cell.column],
                (row - content.display_offset) as i32,
                cell.column,
                content.selection,
                content.colors.entries@,
                theme,
            )
        }),
{
    rows_hold_every_character(
        content.grid@[row]@,
        (row - content.display_offset) as i32,
        columns,
        content.selection,
        content.colors.entries@,
        theme,
    );
}

/// Every row on the screen that the terminal reports is redrawn, and every row at all
/// where a redraw was asked for or the terminal reports everything; no other row is.
pub proof fn reported_rows_are_redrawn(damage: Damage, force: bool, rows: int, row: int)
    requires
        0 <= row < rows,
    ensures
        damaged_rows(damage, force, rows).contains(row) <==> force || damage is Full || exists|
            i: int,
        |
            0 <= i < damage->Partial_0@.len() && (#[trigger] damage->Partial_0@[i]).line == row,
{
    damaged_rows_ascend(damage, force, rows);
}

} // verus!
