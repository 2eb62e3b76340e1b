//! The cells that the renderer keeps, which rows it has to draw anew, the
//! cursor, and the text of an input method.

use vstd::prelude::*;
use crate::ordering;
use crate::renderer::decoration;
use crate::renderer::decoration::DecorationLayer;
use crate::renderer::shaping;
use crate::terminal::frame;
use crate::terminal::frame::{
    CellView,
    CursorPatch,
    DecorationRange,
    FramePatch,
    FrameView,
    RowPatch,
    RowView,
    TerminalCellPatch,
};
use crate::terminal::palette::RgbColor;
use crate::text;

verus! {

/// How the background of a column is painted; a column without a cell of its
/// own has no width.
#[derive(Clone, Copy, Debug, PartialEq, Eq, Structural)]
pub struct CellPaint {
    pub width: usize,
    pub background: RgbColor,
    pub foreground: RgbColor,
    pub underline: u32,
    pub strikeout: bool,
}

/// The paint of a column without a cell of its own.
pub open spec fn no_paint() -> CellPaint {
    CellPaint {
        width: 0,
        background: RgbColor { red: 0, green: 0, blue: 0 },
        foreground: RgbColor { red: 0, green: 0, blue: 0 },
        underline: 0,
        strikeout: false,
    }
}

/// The paint of a cell.
pub open spec fn paint_of(cell: CellView) -> CellPaint {
    CellPaint {
        width: cell.width_in_columns as usize,
        background: cell.background,
        foreground: cell.foreground,
        underline: if cell.underline_style < 0 {
            0
        } else {
            cell.underline_style as u32
        },
        strikeout: cell.strikeout,
    }
}

/// The paint that some cells give a column: that of the last one in it.
pub open spec fn paint_at(cells: Seq<CellView>, column: int) -> CellPaint
    decreases cells.len(),
{
    if cells.len() == 0 {
        no_paint()
    } else if cells.last().column == column {
        paint_of(cells.last())
    } else {
        paint_at(cells.drop_last(), column)
    }
}

/// A row whose columns `start..end` are painted anew.
pub open spec fn painted(row: Seq<CellPaint>, start: int, end: int, cells: Seq<CellView>) -> Seq<
    CellPaint,
> {
    Seq::new(
        row.len(),
        |column: int|
            if start <= column < end {
                paint_at(cells, column)
            } else {
                row[column]
            },
    )
}

fn blank_paint() -> (paint: CellPaint)
    ensures
        paint == no_paint(),
{
    CellPaint {
        width: 0,
        background: RgbColor { red: 0, green: 0, blue: 0 },
        foreground: RgbColor { red: 0, green: 0, blue: 0 },
        underline: 0,
        strikeout: false,
    }
}

/// Paints the columns `start..end` of a row anew.
pub fn update_cell_range(
    row: &mut Vec<CellPaint>,
    start: usize,
    end: usize,
    cells: &Vec<TerminalCellPatch>,
)
    ensures
        final(row)@ == painted(
            old(row)@,
            start as int,
            end as int,
            frame::cell_views(cells@),
        ),
{
    let ghost before = row@;
    let ghost all = frame::cell_views(cells@);
    let limit: usize = if end < row.len() {
        end
    } else {
        row.len()
    };
    let mut column: usize = start;
    while column < limit
        invariant
            limit <= end,
            limit <= row@.len(),
            start <= column,
            row@.len() == before.len(),
            forall|i: int|
                0 <= i < row@.len() ==> #[trigger] row@[i] == (if start <= i < column && i
                    < limit {
                    no_paint()
                } else {
                    before[i]
                }),
        decreases limit - column,
    {
        row.set(column, blank_paint());
        column += 1;
    }
    assert(row@ =~= painted(before, start as int, end as int, all.take(0)));
    let mut index: usize = 0;
    while index < cells.len()
        invariant
            index <= cells@.len(),
            limit <= end,
            limit <= row@.len(),
            limit == end || limit == row@.len(),
            row@.len() == before.len(),
            all == frame::cell_views(cells@),
            row@ == painted(before, start as int, end as int, all.take(index as int)),
        decreases cells.len() - index,
    {
        let cell: &TerminalCellPatch = &cells[index];
        let ghost earlier = row@;
        proof {
            assert(all.take(index + 1).drop_last() == all.take(index as int));
            assert(all.take(index + 1).last() == cell@);
        }
        if cell.column >= start && cell.column < limit {
            let paint = CellPaint {
                width: cell.width_in_columns,
                background: cell.background,
                foreground: cell.foreground,
                underline: if cell.underline_style < 0 {
                    0
                } else {
                    cell.underline_style as u32
                },
                strikeout: cell.strikeout,
            };
            assert(paint == paint_of(cell@));
            row.set(cell.column, paint);
        }
        assert(row@ =~= painted(before, start as int, end as int, all.take(index + 1)));
        index += 1;
    }
    assert(all.take(index as int) == all);
}

/// The column behind a cell, as far as columns can be counted.
pub open spec fn cell_end(cell: CellView) -> int {
    let width = if cell.width_in_columns < 1 {
        1
    } else {
        cell.width_in_columns
    };
    frame::least(cell.column + width, usize::MAX as int)
}

/// The cells that lie outside the columns `start..end`.
pub open spec fn outside(cells: Seq<CellView>, start: int, end: int) -> Seq<CellView>
    decreases cells.len(),
{
    if cells.len() == 0 {
        Seq::empty()
    } else {
        let before = outside(cells.drop_last(), start, end);
        if cell_end(cells.last()) <= start || cells.last().column >= end {
            before.push(cells.last())
        } else {
            before
        }
    }
}

/// A row of cells in which those of a patch replace those of its columns.
pub open spec fn merged_row(cached: Seq<CellView>, start: int, end: int, cells: Seq<CellView>) -> Seq<
    CellView,
> {
    shaping::cells_sorted(outside(cached, start, end) + cells)
}

/// Merges the cells of a patch into a row; tells whether any glyph changed.
pub fn merge_row_cells(
    columns: usize,
    cached: Vec<TerminalCellPatch>,
    start: usize,
    end: usize,
    cells: &Vec<TerminalCellPatch>,
) -> (merged: (Vec<TerminalCellPatch>, bool))
    ensures
        frame::cell_views(merged.0@) == merged_row(
            frame::cell_views(cached@),
            start as int,
            end as int,
            frame::cell_views(cells@),
        ),
        merged.1 == !shaping::same_glyphs(
            shaping::with_glyphs(frame::cell_views(cached@), columns as int),
            shaping::with_glyphs(frame::cell_views(merged.0@), columns as int),
        ),
{
    let ghost all = frame::cell_views(cached@);
    let ghost added = frame::cell_views(cells@);
    let mut parts: Vec<TerminalCellPatch> = Vec::new();
    let mut index: usize = 0;
    assert(frame::cell_views(parts@) == outside(all.take(0), start as int, end as int));
    while index < cached.len()
        invariant
            index <= cached@.len(),
            all == frame::cell_views(cached@),
            frame::cell_views(parts@) == outside(all.take(index as int), start as int, end as int),
        decreases cached.len() - index,
    {
        let cell: &TerminalCellPatch = &cached[index];
        proof {
            assert(all.take(index + 1).drop_last() == all.take(index as int));
            assert(all.take(index + 1).last() == cell@);
        }
        let width: usize = if cell.width_in_columns < 1 {
            1
        } else {
            cell.width_in_columns
        };
        let behind: usize = cell.column.saturating_add(width);
        assert(behind == cell_end(cell@));
        if behind <= start || cell.column >= end {
            let ghost before = frame::cell_views(parts@);
            parts.push(cell.copy());
            assert(frame::cell_views(parts@) == before.push(cell@));
        }
        index += 1;
    }
    assert(all.take(index as int) == all);
    let ghost kept = frame::cell_views(parts@);
    let mut next: usize = 0;
    assert(added.take(0) == Seq::<CellView>::empty());
    assert(kept + added.take(0) == kept);
    while next < cells.len()
        invariant
            next <= cells@.len(),
            added == frame::cell_views(cells@),
            frame::cell_views(parts@) == kept + added.take(next as int),
        decreases cells.len() - next,
    {
        let ghost before = frame::cell_views(parts@);
        parts.push(cells[next].copy());
        assert(frame::cell_views(parts@) == before.push(cells@[next as int]@));
        assert(kept + added.take(next + 1) == (kept + added.take(next as int)).push(
            cells@[next as int]@,
        ));
        next += 1;
    }
    assert(added.take(next as int) == added);
    let ghost unsorted = parts@;
    let sorted = ordering::sort_by_key(parts);
    proof {
        shaping::lemma_sorted_views(unsorted);
    }
    let same = shaping::same_glyph_content(columns, &cached, &sorted);
    (sorted, !same)
}

/// The text of an input method over the row of the cursor.
pub struct ImePreedit {
    pub text: String,
    /// The cells of the row with the text over them.
    pub cells: Vec<TerminalCellPatch>,
    pub column: usize,
    pub row: usize,
    pub columns: usize,
}

/// What an `ImePreedit` holds.
#[verifier::ext_equal]
pub struct ImeView {
    pub text: Seq<char>,
    pub cells: Seq<CellView>,
    pub column: int,
    pub row: usize,
    pub columns: int,
}

impl View for ImePreedit {
    type V = ImeView;

    open spec fn view(&self) -> ImeView {
        ImeView {
            text: self.text@,
            cells: frame::cell_views(self.cells@),
            column: self.column as int,
            row: self.row,
            columns: self.columns as int,
        }
    }
}

/// What the renderer keeps between frames.
pub struct GridState {
    columns: usize,
    rows: usize,
    generation: Option<u64>,
    paint: Vec<Vec<CellPaint>>,
    cells: Vec<Vec<TerminalCellPatch>>,
    decorations: DecorationLayer,
    ime: Option<ImePreedit>,
    cursor: CursorPatch,
    cursor_phase: bool,
    dirty_rows: Vec<usize>,
    clear_pending: bool,
    render_pending: bool,
    width: u32,
    height: u32,
    font_family: String,
    foreground: RgbColor,
}

/// What a `GridState` holds.
#[verifier::ext_equal]
pub struct GridView {
    pub columns: int,
    pub rows: int,
    /// The size of the grid that the cells belong to.
    pub generation: Option<u64>,
    pub paint: Seq<Seq<CellPaint>>,
    pub cells: Seq<Seq<CellView>>,
    pub decorations: Seq<DecorationRange>,
    pub ime: Option<ImeView>,
    pub cursor: CursorPatch,
    /// Whether a blinking cursor shows.
    pub cursor_phase: bool,
    /// The rows to draw anew.
    pub dirty: Set<usize>,
    /// Whether everything is drawn anew.
    pub clear_pending: bool,
    pub render_pending: bool,
    pub width: int,
    pub height: int,
    pub font_family: Seq<char>,
    /// The colour of the text of an input method.
    pub foreground: RgbColor,
}

/// The rows of a list of lists.
pub open spec fn paint_lines(lines: Seq<Vec<CellPaint>>) -> Seq<Seq<CellPaint>> {
    lines.map_values(|line: Vec<CellPaint>| line@)
}

/// What the cells of some rows hold.
pub open spec fn cell_lines(lines: Seq<Vec<TerminalCellPatch>>) -> Seq<Seq<CellView>> {
    lines.map_values(|line: Vec<TerminalCellPatch>| frame::cell_views(line@))
}

/// The members of a list.
pub open spec fn members(list: Seq<usize>) -> Set<usize> {
    Set::new(|row: usize| list.contains(row))
}

impl View for GridState {
    type V = GridView;

    closed spec fn view(&self) -> GridView {
        GridView {
            columns: self.columns as int,
            rows: self.rows as int,
            generation: self.generation,
            paint: paint_lines(self.paint@),
            cells: cell_lines(self.cells@),
            decorations: self.decorations@,
            ime: match self.ime {
                Some(ime) => Some(ime@),
                None => None,
            },
            cursor: self.cursor,
            cursor_phase: self.cursor_phase,
            dirty: members(self.dirty_rows@),
            clear_pending: self.clear_pending,
            render_pending: self.render_pending,
            width: self.width as int,
            height: self.height as int,
            font_family: self.font_family@,
            foreground: self.foreground,
        }
    }
}

impl GridView {
    /// Whether every row of the grid has its cells, and every column its paint.
    pub open spec fn valid(self) -> bool {
        &&& 0 <= self.columns <= usize::MAX
        &&& 0 <= self.rows <= usize::MAX
        &&& self.paint.len() == self.rows
        &&& self.cells.len() == self.rows
        &&& forall|row: int| 0 <= row < self.rows ==> (#[trigger] self.paint[row]).len()
            == self.columns
        &&& ordering::ascending(self.decorations)
    }
}

/// All rows of a grid.
pub open spec fn all_rows(rows: int) -> Set<usize> {
    Set::new(|row: usize| row < rows)
}

/// The column where the text of an input method starts.
pub open spec fn ime_column(grid: GridView) -> int {
    let last = if grid.columns < 1 {
        0
    } else {
        grid.columns - 1
    };
    frame::least(grid.cursor.column as int, last)
}

/// The rows to draw when the text of an input method moves away.
pub open spec fn dirty_without_ime(grid: GridView) -> Set<usize> {
    match grid.ime {
        Some(ime) => grid.dirty.insert(ime.row),
        None => grid.dirty,
    }
}

/// The grid with a text of an input method at the cursor. An empty text takes
/// it away, as does a cursor that is not shown.
pub open spec fn with_preedit(grid: GridView, shown: Seq<char>) -> GridView {
    if shown.len() == 0 || !grid.cursor.visible || grid.cursor.row >= grid.rows {
        GridView {
            ime: None,
            dirty: dirty_without_ime(grid),
            render_pending: grid.render_pending || grid.ime is Some,
            ..grid
        }
    } else {
        let column = ime_column(grid);
        let overlay = shaping::overlay_of(
            shaping::measured_text(shown),
            column,
            grid.columns,
            grid.foreground,
        );
        GridView {
            ime: Some(
                ImeView {
                    text: shown,
                    cells: shaping::composed_cells(
                        grid.cells[grid.cursor.row as int],
                        overlay,
                        column,
                    ),
                    column,
                    row: grid.cursor.row,
                    columns: overlay.end - column,
                },
            ),
            dirty: dirty_without_ime(grid).insert(grid.cursor.row),
            render_pending: true,
            ..grid
        }
    }
}

/// The grid with the text of the input method, if there is one, at the cursor.
pub open spec fn relocated(grid: GridView) -> GridView {
    match grid.ime {
        Some(ime) => with_preedit(grid, ime.text),
        None => grid,
    }
}

/// An empty grid of another size.
pub open spec fn resized(grid: GridView, columns: int, rows: int) -> GridView {
    let empty = GridView {
        columns,
        rows,
        paint: Seq::new(rows as nat, |row: int| Seq::new(columns as nat, |column: int| no_paint())),
        cells: Seq::new(rows as nat, |row: int| Seq::<CellView>::empty()),
        ..grid
    };
    GridView {
        dirty: all_rows(rows),
        clear_pending: true,
        render_pending: true,
        ..relocated(empty)
    }
}

/// Whether a row patch touches the grid.
pub open spec fn touches(grid: GridView, patch: RowView) -> bool {
    patch.row < grid.rows && frame::least(patch.start_column, grid.columns) < frame::least(
        patch.end_column,
        grid.columns,
    )
}

/// The cells of a row with a patch.
pub open spec fn patched_cells(grid: GridView, patch: RowView) -> Seq<CellView> {
    merged_row(
        grid.cells[patch.row],
        frame::least(patch.start_column, grid.columns),
        frame::least(patch.end_column, grid.columns),
        patch.cells,
    )
}

/// The grid with a row patch.
pub open spec fn with_row(grid: GridView, patch: RowView) -> GridView {
    if touches(grid, patch) {
        GridView {
            paint: grid.paint.update(
                patch.row,
                painted(
                    grid.paint[patch.row],
                    frame::least(patch.start_column, grid.columns),
                    frame::least(patch.end_column, grid.columns),
                    patch.cells,
                ),
            ),
            cells: grid.cells.update(patch.row, patched_cells(grid, patch)),
            dirty: grid.dirty.insert(patch.row as usize),
            ..grid
        }
    } else {
        grid
    }
}

/// The grid with some row patches, one after another.
pub open spec fn with_rows(grid: GridView, patches: Seq<RowView>) -> GridView
    decreases patches.len(),
{
    if patches.len() == 0 {
        grid
    } else {
        with_row(with_rows(grid, patches.drop_last()), patches.last())
    }
}

/// Whether a row patch changes a glyph.
pub open spec fn changes_glyphs(grid: GridView, patch: RowView) -> bool {
    touches(grid, patch) && !shaping::same_glyphs(
        shaping::with_glyphs(grid.cells[patch.row], grid.columns),
        shaping::with_glyphs(patched_cells(grid, patch), grid.columns),
    )
}

/// Whether some row patches, one after another, change a glyph of a row.
pub open spec fn reshaped(grid: GridView, patches: Seq<RowView>, row: int) -> bool
    decreases patches.len(),
{
    patches.len() > 0 && (reshaped(grid, patches.drop_last(), row) || (patches.last().row == row
        && changes_glyphs(with_rows(grid, patches.drop_last()), patches.last())))
}

/// The grid with the decorations of a frame.
pub open spec fn with_decorations(grid: GridView, decorations: Seq<DecorationRange>) -> GridView {
    GridView {
        decorations,
        dirty: grid.dirty.union(
            Set::new(
                |row: usize| decoration::row_differs(grid.decorations, decorations, row as int),
            ),
        ),
        ..grid
    }
}

/// The grid with a cursor; one that moves or changes shows at once.
pub open spec fn with_cursor(grid: GridView, cursor: CursorPatch) -> GridView {
    if cursor == grid.cursor {
        grid
    } else {
        let left = if grid.cursor.row < grid.rows {
            grid.dirty.insert(grid.cursor.row)
        } else {
            grid.dirty
        };
        GridView {
            cursor,
            cursor_phase: true,
            dirty: if cursor.row < grid.rows {
                left.insert(cursor.row)
            } else {
                left
            },
            ..grid
        }
    }
}

/// Whether a frame redraws every row of its grid, in their order.
pub open spec fn complete(patch: FrameView) -> bool {
    patch.changed_rows.len() >= patch.rows && forall|row: int|
        0 <= row < patch.rows ==> (#[trigger] patch.changed_rows[row]).row == row
            && patch.changed_rows[row].start_column == 0 && patch.changed_rows[row].end_column
            == patch.columns
}

/// Whether a frame can be drawn over what the grid holds: it belongs to the
/// same grid, or it redraws everything.
pub open spec fn acceptable(grid: GridView, patch: FrameView) -> bool {
    if patch.full_redraw {
        complete(patch)
    } else {
        grid.generation == Some(patch.generation) && grid.columns == patch.columns && grid.rows
            == patch.rows
    }
}

/// The grid, made ready for the rows of a frame.
pub open spec fn ready_for(grid: GridView, patch: FrameView) -> GridView {
    let fitting = if grid.columns != patch.columns || grid.rows != patch.rows {
        resized(grid, patch.columns, patch.rows)
    } else {
        grid
    };
    GridView { generation: Some(patch.generation), ..fitting }
}

/// The grid with a frame.
pub open spec fn with_frame(grid: GridView, patch: FrameView) -> GridView {
    let rows = with_rows(ready_for(grid, patch), patch.changed_rows);
    let decorated = with_decorations(rows, patch.decorations);
    GridView { render_pending: true, ..relocated(with_cursor(decorated, patch.cursor)) }
}

/// What is to be drawn.
#[derive(Debug)]
pub struct RenderPlan {
    /// The rows, in ascending order.
    pub rows: Vec<usize>,
    /// Whether the surface is cleared first.
    pub clear: bool,
    /// Whether every row of the grid is drawn.
    pub full_surface: bool,
    pub draw_ime: bool,
    pub draw_cursor: bool,
}

/// A cell with the cursor. The shapes are counted from one: zero stands for a
/// cell without cursor.
#[derive(Clone, Copy, Debug, PartialEq, Eq, Structural)]
pub struct CursorMark {
    pub column: usize,
    pub row: usize,
    pub shape: u32,
}

/// Where the cursor is drawn: nowhere, where it is hidden or not on the grid.
pub open spec fn cursor_mark_of(grid: GridView) -> Option<CursorMark> {
    if grid.cursor.visible && grid.cursor.column < grid.columns && grid.cursor.row < grid.rows {
        Some(
            CursorMark {
                column: grid.cursor.column,
                row: grid.cursor.row,
                shape: (if grid.cursor.shape < 0 {
                    1
                } else {
                    grid.cursor.shape + 1
                }) as u32,
            },
        )
    } else {
        None
    }
}

/// The cells under the text of an input method.
#[derive(Clone, Copy, Debug, PartialEq, Eq, Structural)]
pub struct ImeMark {
    pub column: usize,
    pub row: usize,
    pub columns: usize,
}

/// The rows that are drawn.
pub open spec fn rows_to_draw(grid: GridView) -> Set<usize> {
    if grid.clear_pending {
        all_rows(grid.rows)
    } else {
        grid.dirty
    }
}

/// Which parts of the surface changed.
#[derive(Clone, Copy, Debug, PartialEq, Eq, Structural)]
pub struct SurfaceChange {
    pub texture_changed: bool,
    pub metrics_changed: bool,
    pub font_changed: bool,
}

/// At least one.
pub open spec fn at_least_one(value: int) -> int {
    if value < 1 {
        1
    } else {
        value
    }
}

/// What changes with a surface.
pub open spec fn surface_change(
    grid: GridView,
    width: int,
    height: int,
    metrics_changed: bool,
    font_family: Seq<char>,
) -> SurfaceChange {
    SurfaceChange {
        texture_changed: at_least_one(width) != grid.width || at_least_one(height) != grid.height,
        metrics_changed,
        font_changed: grid.font_family != font_family,
    }
}

/// The grid with another surface.
pub open spec fn with_surface(
    grid: GridView,
    width: int,
    height: int,
    metrics_changed: bool,
    font_family: Seq<char>,
) -> GridView {
    let change = surface_change(grid, width, height, metrics_changed, font_family);
    let base = GridView {
        width: at_least_one(width),
        height: at_least_one(height),
        font_family,
        clear_pending: grid.clear_pending || change.texture_changed || metrics_changed,
        ..grid
    };
    let composed = if change.font_changed {
        relocated(base)
    } else {
        base
    };
    if change.texture_changed || metrics_changed || change.font_changed {
        GridView { dirty: all_rows(grid.rows), render_pending: true, ..composed }
    } else {
        composed
    }
}

/// Whether a frame redraws every row of its grid, in their order.
pub fn frame_is_complete(patch: &FramePatch) -> (is_complete: bool)
    ensures
        is_complete == complete(patch@),
{
    if patch.changed_rows.len() < patch.rows {
        return false;
    }
    let mut row: usize = 0;
    while row < patch.rows
        invariant
            row <= patch.rows,
            patch.rows <= patch.changed_rows@.len(),
            forall|i: int|
                0 <= i < row ==> (#[trigger] patch@.changed_rows[i]).row == i
                    && patch@.changed_rows[i].start_column == 0
                    && patch@.changed_rows[i].end_column == patch@.columns,
        decreases patch.rows - row,
    {
        let found: &RowPatch = &patch.changed_rows[row];
        assert(patch@.changed_rows[row as int] == found@);
        if found.row != row || found.start_column != 0 || found.end_column != patch.columns {
            return false;
        }
        row += 1;
    }
    true
}

proof fn lemma_pushed_member(list: Seq<usize>, row: usize)
    ensures
        members(list.push(row)) == members(list).insert(row),
{
    assert forall|other: usize| #[trigger] list.push(row).contains(other) <==> list.contains(other)
        || other == row by {
        let longer = list.push(row);
        if longer.contains(other) {
            let i = choose|i: int| 0 <= i < longer.len() && longer[i] == other;
            if i < list.len() {
                assert(list[i] == other);
            }
        }
        if list.contains(other) {
            let i = choose|i: int| 0 <= i < list.len() && list[i] == other;
            assert(longer[i] == other);
        }
        assert(longer[list.len() as int] == row);
    }
    assert(members(list.push(row)) =~= members(list).insert(row));
}

fn every_row(rows: usize) -> (list: Vec<usize>)
    ensures
        members(list@) == all_rows(rows as int),
        list@.len() == rows,
        forall|i: int| 0 <= i < rows ==> list@[i] == i,
{
    let mut list: Vec<usize> = Vec::new();
    let mut row: usize = 0;
    while row < rows
        invariant
            row <= rows,
            list@.len() == row,
            forall|i: int| 0 <= i < row ==> list@[i] == i,
        decreases rows - row,
    {
        list.push(row);
        row += 1;
    }
    proof {
        assert forall|other: usize| #[trigger] list@.contains(other) <==> other < rows by {
            if other < rows {
                assert(list@[other as int] == other);
            }
        }
        assert(members(list@) =~= all_rows(rows as int));
    }
    list
}

fn blank_lines(columns: usize, rows: usize) -> (lines: Vec<Vec<CellPaint>>)
    ensures
        paint_lines(lines@) == Seq::new(
            rows as nat,
            |row: int| Seq::new(columns as nat, |column: int| no_paint()),
        ),
{
    let mut lines: Vec<Vec<CellPaint>> = Vec::new();
    while lines.len() < rows
        invariant
            lines@.len() <= rows,
            forall|i: int|
                0 <= i < lines@.len() ==> (#[trigger] lines@[i])@ == Seq::new(
                    columns as nat,
                    |column: int| no_paint(),
                ),
        decreases rows - lines.len(),
    {
        let mut line: Vec<CellPaint> = Vec::new();
        while line.len() < columns
            invariant
                line@.len() <= columns,
                forall|i: int| 0 <= i < line@.len() ==> line@[i] == no_paint(),
            decreases columns - line.len(),
        {
            line.push(blank_paint());
        }
        assert(line@ =~= Seq::new(columns as nat, |column: int| no_paint()));
        lines.push(line);
    }
    assert(paint_lines(lines@) =~= Seq::new(
        rows as nat,
        |row: int| Seq::new(columns as nat, |column: int| no_paint()),
    ));
    lines
}

fn empty_lines(rows: usize) -> (lines: Vec<Vec<TerminalCellPatch>>)
    ensures
        cell_lines(lines@) == Seq::new(rows as nat, |row: int| Seq::<CellView>::empty()),
{
    let mut lines: Vec<Vec<TerminalCellPatch>> = Vec::new();
    while lines.len() < rows
        invariant
            lines@.len() <= rows,
            forall|i: int|
                0 <= i < lines@.len() ==> (#[trigger] lines@[i])@ == Seq::<
                    TerminalCellPatch,
                >::empty(),
        decreases rows - lines.len(),
    {
        let line: Vec<TerminalCellPatch> = Vec::new();
        lines.push(line);
    }
    proof {
        let expected = Seq::new(rows as nat, |row: int| Seq::<CellView>::empty());
        assert forall|i: int| 0 <= i < rows implies cell_lines(lines@)[i] == expected[i] by {
            assert(lines@[i]@ == Seq::<TerminalCellPatch>::empty());
            assert(frame::cell_views(lines@[i]@) =~= Seq::<CellView>::empty());
        }
        assert(cell_lines(lines@) =~= expected);
    }
    lines
}

/// The grid of a renderer that has not drawn anything.
pub open spec fn new_grid(
    columns: int,
    rows: int,
    width: int,
    height: int,
    font_family: Seq<char>,
    foreground: RgbColor,
) -> GridView {
    GridView {
        columns,
        rows,
        generation: None,
        paint: Seq::new(rows as nat, |row: int| Seq::new(columns as nat, |column: int| no_paint())),
        cells: Seq::new(rows as nat, |row: int| Seq::<CellView>::empty()),
        decorations: Seq::empty(),
        ime: None,
        cursor: CursorPatch { column: 0, row: 0, visible: false, shape: 0, blinking: false },
        cursor_phase: true,
        dirty: all_rows(rows),
        clear_pending: true,
        render_pending: true,
        width,
        height,
        font_family,
        foreground,
    }
}

impl GridState {
    pub fn new(
        columns: usize,
        rows: usize,
        width: u32,
        height: u32,
        font_family: &str,
        foreground: RgbColor,
    ) -> (grid: GridState)
        ensures
            grid@ == new_grid(
                columns as int,
                rows as int,
                width as int,
                height as int,
                font_family@,
                foreground,
            ),
            grid@.valid(),
    {
        let grid = GridState {
            columns,
            rows,
            generation: None,
            paint: blank_lines(columns, rows),
            cells: empty_lines(rows),
            decorations: DecorationLayer::new(),
            ime: None,
            cursor: CursorPatch { column: 0, row: 0, visible: false, shape: 0, blinking: false },
            cursor_phase: true,
            dirty_rows: every_row(rows),
            clear_pending: true,
            render_pending: true,
            width,
            height,
            font_family: font_family.to_owned(),
            foreground,
        };
        assert(grid@ =~= new_grid(
            columns as int,
            rows as int,
            width as int,
            height as int,
            font_family@,
            foreground,
        ));
        grid
    }

    fn mark_row(&mut self, row: usize)
        ensures
            final(self)@ == (GridView { dirty: old(self)@.dirty.insert(row), ..old(self)@ }),
    {
        proof {
            lemma_pushed_member(self.dirty_rows@, row);
        }
        self.dirty_rows.push(row);
    }

    fn clear_ime(&mut self) -> (had_ime: bool)
        ensures
            final(self)@ == (GridView {
                ime: None,
                dirty: dirty_without_ime(old(self)@),
                render_pending: old(self)@.render_pending || old(self)@.ime is Some,
                ..old(self)@
            }),
            had_ime == (old(self)@.ime is Some),
    {
        let row: Option<usize> = match &self.ime {
            Some(ime) => Some(ime.row),
            None => None,
        };
        self.ime = None;
        if let Some(row) = row {
            self.mark_row(row);
            self.render_pending = true;
        }
        row.is_some()
    }

    /// Takes over the text of an input method; tells whether something is to be
    /// drawn.
    pub fn set_ime_preedit(&mut self, shown: &str) -> (changed: bool)
        requires
            old(self)@.valid(),
        ensures
            final(self)@ == with_preedit(old(self)@, shown@),
            final(self)@.valid(),
            changed == (old(self)@.ime is Some || final(self)@.ime is Some),
    {
        if text::is_empty_text(shown) || !self.cursor.visible || self.cursor.row >= self.rows {
            let had_ime = self.clear_ime();
            assert(self@ =~= with_preedit(old(self)@, shown@));
            return had_ime;
        }
        let last: usize = if self.columns < 1 {
            0
        } else {
            self.columns - 1
        };
        let column: usize = if self.cursor.column < last {
            self.cursor.column
        } else {
            last
        };
        let row: usize = self.cursor.row;
        assert(column == ime_column(self@));
        assert(cell_lines(self.cells@).len() == self.cells@.len());
        let (cells, columns) = shaping::compose_preedit(
            &self.cells[row],
            self.columns,
            column,
            shown,
            self.foreground,
        );
        assert(cell_lines(self.cells@)[row as int] == frame::cell_views(self.cells@[row as int]@));
        let ime = ImePreedit { text: shown.to_owned(), cells, column, row, columns };
        let ghost view = ime@;
        self.clear_ime();
        self.ime = Some(ime);
        self.mark_row(row);
        self.render_pending = true;
        assert(self@ =~= with_preedit(old(self)@, shown@));
        true
    }

    fn relocate_ime_to_cursor(&mut self)
        requires
            old(self)@.valid(),
        ensures
            final(self)@ == relocated(old(self)@),
            final(self)@.valid(),
    {
        let shown: Option<String> = match &self.ime {
            Some(ime) => Some(ime.text.clone()),
            None => None,
        };
        if let Some(shown) = shown {
            self.set_ime_preedit(shown.as_str());
        }
    }

    fn resize_grid(&mut self, columns: usize, rows: usize)
        requires
            old(self)@.valid(),
        ensures
            final(self)@ == resized(old(self)@, columns as int, rows as int),
            final(self)@.valid(),
    {
        self.columns = columns;
        self.rows = rows;
        self.paint = blank_lines(columns, rows);
        self.cells = empty_lines(rows);
        assert(self@ =~= GridView {
            columns: columns as int,
            rows: rows as int,
            paint: Seq::new(
                rows as nat,
                |row: int| Seq::new(columns as nat, |column: int| no_paint()),
            ),
            cells: Seq::new(rows as nat, |row: int| Seq::<CellView>::empty()),
            ..old(self)@
        });
        self.relocate_ime_to_cursor();
        self.dirty_rows = every_row(rows);
        self.clear_pending = true;
        self.render_pending = true;
        assert(self@ =~= resized(old(self)@, columns as int, rows as int));
    }

    fn apply_row(&mut self, patch: &RowPatch) -> (changed: bool)
        requires
            old(self)@.valid(),
        ensures
            final(self)@ == with_row(old(self)@, patch@),
            final(self)@.valid(),
            changed == changes_glyphs(old(self)@, patch@),
    {
        let start: usize = if patch.start_column < self.columns {
            patch.start_column
        } else {
            self.columns
        };
        let end: usize = if patch.end_column < self.columns {
            patch.end_column
        } else {
            self.columns
        };
        if patch.row >= self.rows || start >= end {
            return false;
        }
        let row: usize = patch.row;
        let ghost before = *self;
        assert(paint_lines(self.paint@).len() == self.paint@.len());
        assert(cell_lines(self.cells@).len() == self.cells@.len());
        assert(self@.paint[row as int] == self.paint@[row as int]@);
        assert(self@.cells[row as int] == frame::cell_views(self.cells@[row as int]@));
        let mut line: Vec<CellPaint> = Vec::new();
        std::mem::swap(&mut line, &mut self.paint[row]);
        update_cell_range(&mut line, start, end, &patch.cells);
        let ghost line_view = line@;
        self.paint.set(row, line);
        assert(paint_lines(self.paint@) =~= paint_lines(before.paint@).update(
            row as int,
            line_view,
        ));
        let mut cached: Vec<TerminalCellPatch> = Vec::new();
        std::mem::swap(&mut cached, &mut self.cells[row]);
        let (merged, changed) = merge_row_cells(self.columns, cached, start, end, &patch.cells);
        let ghost merged_view = frame::cell_views(merged@);
        self.cells.set(row, merged);
        assert(cell_lines(self.cells@) =~= cell_lines(before.cells@).update(
            row as int,
            merged_view,
        ));
        self.mark_row(row);
        assert(self@ =~= with_row(before@, patch@));
        changed
    }

    fn apply_rows(&mut self, patches: &Vec<RowPatch>) -> (changed: Vec<bool>)
        requires
            old(self)@.valid(),
        ensures
            final(self)@ == with_rows(old(self)@, frame::row_views(patches@)),
            final(self)@.valid(),
            changed@.len() == old(self)@.rows,
            forall|row: int|
                0 <= row < changed@.len() ==> #[trigger] changed@[row] == reshaped(
                    old(self)@,
                    frame::row_views(patches@),
                    row,
                ),
    {
        let ghost start = self@;
        let ghost all = frame::row_views(patches@);
        let mut changed: Vec<bool> = Vec::new();
        let rows: usize = self.rows;
        while changed.len() < rows
            invariant
                changed@.len() <= rows,
                forall|row: int| 0 <= row < changed@.len() ==> !changed@[row],
            decreases rows - changed.len(),
        {
            changed.push(false);
        }
        let mut index: usize = 0;
        assert(all.take(0) == Seq::<RowView>::empty());
        while index < patches.len()
            invariant
                index <= patches@.len(),
                all == frame::row_views(patches@),
                self@ == with_rows(start, all.take(index as int)),
                self@.valid(),
                rows == start.rows,
                self@.rows == rows,
                changed@.len() == rows,
                forall|row: int|
                    0 <= row < rows ==> #[trigger] changed@[row] == reshaped(
                        start,
                        all.take(index as int),
                        row,
                    ),
            decreases patches.len() - index,
        {
            let ghost before = changed@;
            proof {
                assert(all.take(index + 1).drop_last() == all.take(index as int));
                assert(all.take(index + 1).last() == patches@[index as int]@);
            }
            let touched = self.apply_row(&patches[index]);
            if touched {
                changed.set(patches[index].row, true);
            }
            assert forall|row: int| 0 <= row < rows implies #[trigger] changed@[row] == reshaped(
                start,
                all.take(index + 1),
                row,
            ) by {
                assert(before[row] == reshaped(start, all.take(index as int), row));
            }
            index += 1;
        }
        assert(all.take(index as int) == all);
        changed
    }

    fn apply_decorations(&mut self, decorations: &Vec<DecorationRange>)
        requires
            old(self)@.valid(),
            ordering::ascending(decorations@),
        ensures
            final(self)@ == with_decorations(old(self)@, decorations@),
            final(self)@.valid(),
    {
        let ghost before = self@;
        let rows = self.decorations.replace(decorations);
        let ghost base = self.dirty_rows@;
        let mut index: usize = 0;
        assert(members(base).union(members(rows@.take(0))) =~= members(base));
        while index < rows.len()
            invariant
                index <= rows@.len(),
                members(self.dirty_rows@) == members(base).union(members(rows@.take(index as int))),
                self@ == (GridView {
                    decorations: decorations@,
                    dirty: members(self.dirty_rows@),
                    ..before
                }),
            decreases rows.len() - index,
        {
            proof {
                lemma_pushed_member(rows@.take(index as int), rows@[index as int]);
                assert(rows@.take(index + 1) == rows@.take(index as int).push(
                    rows@[index as int],
                ));
            }
            self.mark_row(rows[index]);
            assert(members(self.dirty_rows@) =~= members(base).union(
                members(rows@.take(index + 1)),
            ));
            index += 1;
        }
        assert(rows@.take(index as int) == rows@);
        assert(members(rows@) =~= Set::new(
            |row: usize| decoration::row_differs(before.decorations, decorations@, row as int),
        ));
        assert(self@ =~= with_decorations(before, decorations@));
    }

    fn apply_cursor(&mut self, cursor: CursorPatch)
        requires
            old(self)@.valid(),
        ensures
            final(self)@ == with_cursor(old(self)@, cursor),
            final(self)@.valid(),
    {
        if cursor != self.cursor {
            self.cursor_phase = true;
            if self.cursor.row < self.rows {
                self.mark_row(self.cursor.row);
            }
            if cursor.row < self.rows {
                self.mark_row(cursor.row);
            }
            self.cursor = cursor;
        }
        assert(self@ =~= with_cursor(old(self)@, cursor));
    }

    /// Takes over a frame, whose decorations come in the order of their rows.
    /// Gives the rows to shape anew; none where the frame cannot be drawn over
    /// what the grid holds, and then nothing changes.
    pub fn apply_frame(&mut self, patch: &FramePatch) -> (reshaped_rows: Option<Vec<usize>>)
        requires
            old(self)@.valid(),
            ordering::ascending(patch.decorations@),
        ensures
            final(self)@.valid(),
            reshaped_rows is Some <==> acceptable(old(self)@, patch@),
            reshaped_rows is None ==> final(self)@ == old(self)@,
            reshaped_rows matches Some(rows) ==> {
                &&& final(self)@ == with_frame(old(self)@, patch@)
                &&& forall|i: int, j: int| 0 <= i < j < rows@.len() ==> rows@[i] < rows@[j]
                &&& forall|row: usize| #[trigger]
                    rows@.contains(row) <==> row < patch.rows && reshaped(
                        ready_for(old(self)@, patch@),
                        patch@.changed_rows,
                        row as int,
                    )
            },
    {
        let same_generation = match self.generation {
            Some(generation) => generation == patch.generation,
            None => false,
        };
        let grid_changed = patch.columns != self.columns || patch.rows != self.rows;
        if (!same_generation || grid_changed) && !patch.full_redraw {
            return None;
        }
        if patch.full_redraw && !frame_is_complete(patch) {
            return None;
        }
        let ghost before = self@;
        if grid_changed {
            self.resize_grid(patch.columns, patch.rows);
        }
        self.generation = Some(patch.generation);
        assert(self@ =~= ready_for(before, patch@));
        let changed = self.apply_rows(&patch.changed_rows);
        self.apply_decorations(&patch.decorations);
        self.apply_cursor(patch.cursor);
        self.relocate_ime_to_cursor();
        self.render_pending = true;
        assert(self@ =~= with_frame(before, patch@));
        Some(set_places(&changed))
    }

    /// What is to be drawn, if anything; it counts as drawn then.
    pub fn render_if_needed(&mut self) -> (plan: Option<RenderPlan>)
        requires
            old(self)@.valid(),
        ensures
            final(self)@.valid(),
            plan is Some <==> old(self)@.render_pending && exists|row: usize| #[trigger]
                rows_to_draw(old(self)@).contains(row),
            plan is None ==> final(self)@ == (GridView {
                dirty: if old(self)@.render_pending {
                    Set::empty()
                } else {
                    old(self)@.dirty
                },
                render_pending: false,
                ..old(self)@
            }),
            plan matches Some(plan) ==> {
                &&& final(self)@ == (GridView {
                    dirty: Set::empty(),
                    clear_pending: false,
                    render_pending: false,
                    ..old(self)@
                })
                &&& forall|i: int, j: int| 0 <= i < j < plan.rows@.len() ==> plan.rows@[i]
                    < plan.rows@[j]
                &&& forall|row: usize| #[trigger]
                    plan.rows@.contains(row) <==> rows_to_draw(old(self)@).contains(row)
                &&& plan.clear == old(self)@.clear_pending
                &&& plan.full_surface == (plan.rows@.len() == old(self)@.rows)
                &&& plan.draw_ime == (old(self)@.ime is Some && rows_to_draw(
                    old(self)@,
                ).contains(old(self)@.ime->0.row))
                &&& plan.draw_cursor == (rows_to_draw(old(self)@).contains(
                    old(self)@.cursor.row,
                ) && old(self)@.cursor.visible && (!old(self)@.cursor.blinking || old(
                    self
                )@.cursor_phase))
                &&& plan.draw_cursor == draws_cursor(old(self)@)
                &&& plan.draw_ime == draws_ime(old(self)@)
            },
    {
        if !self.render_pending {
            assert(self@ =~= GridView {
                dirty: self@.dirty,
                render_pending: false,
                ..old(self)@
            });
            return None;
        }
        let rows: Vec<usize> = if self.clear_pending {
            every_row(self.rows)
        } else {
            sorted_members(&self.dirty_rows)
        };
        assert forall|row: usize| #[trigger] rows@.contains(row) <==> rows_to_draw(
            old(self)@,
        ).contains(row) by {
            assert(members(rows@).contains(row) <==> rows@.contains(row));
            assert(members(self.dirty_rows@).contains(row) <==> self.dirty_rows@.contains(row));
        }
        self.dirty_rows = Vec::new();
        assert(members(self.dirty_rows@) =~= Set::<usize>::empty());
        self.render_pending = false;
        if rows.len() == 0 {
            assert forall|row: usize| !(#[trigger] rows_to_draw(old(self)@).contains(row)) by {
                assert(!rows@.contains(row));
            }
            assert(self@ =~= GridView {
                dirty: Set::empty(),
                render_pending: false,
                ..old(self)@
            });
            return None;
        }
        assert(rows@.contains(rows@[0]));
        let draw_ime = match &self.ime {
            Some(ime) => contains_row(&rows, ime.row),
            None => false,
        };
        let draw_cursor = contains_row(&rows, self.cursor.row) && self.cursor.visible && (
        !self.cursor.blinking || self.cursor_phase);
        let clear = self.clear_pending;
        let full_surface = rows.len() == self.rows;
        self.clear_pending = false;
        assert(self@ =~= GridView {
            dirty: Set::empty(),
            clear_pending: false,
            render_pending: false,
            ..old(self)@
        });
        Some(RenderPlan { rows, clear, full_surface, draw_ime, draw_cursor })
    }

    /// Lets a blinking cursor blink; tells whether it is to be drawn.
    pub fn tick_cursor(&mut self) -> (changed: bool)
        requires
            old(self)@.valid(),
        ensures
            final(self)@.valid(),
            changed == (old(self)@.cursor.visible && old(self)@.cursor.blinking),
            final(self)@ == ticked(old(self)@),
            final(self)@ == (if changed {
                GridView {
                    cursor_phase: !old(self)@.cursor_phase,
                    dirty: old(self)@.dirty.insert(old(self)@.cursor.row),
                    render_pending: true,
                    ..old(self)@
                }
            } else {
                old(self)@
            }),
    {
        if !self.cursor.visible || !self.cursor.blinking {
            return false;
        }
        self.cursor_phase = !self.cursor_phase;
        self.mark_row(self.cursor.row);
        self.render_pending = true;
        assert(self@ =~= ticked(old(self)@));
        true
    }

    /// Takes over the size of the surface and the font; tells what changed.
    pub fn sync_surface(
        &mut self,
        width: u32,
        height: u32,
        metrics_changed: bool,
        font_family: &str,
    ) -> (change: SurfaceChange)
        requires
            old(self)@.valid(),
        ensures
            final(self)@.valid(),
            change == surface_change(
                old(self)@,
                width as int,
                height as int,
                metrics_changed,
                font_family@,
            ),
            final(self)@ == with_surface(
                old(self)@,
                width as int,
                height as int,
                metrics_changed,
                font_family@,
            ),
    {
        let ghost before = self@;
        let width: u32 = if width < 1 {
            1
        } else {
            width
        };
        let height: u32 = if height < 1 {
            1
        } else {
            height
        };
        let texture_changed = width != self.width || height != self.height;
        let font_changed = !text::same_text(self.font_family.as_str(), font_family);
        self.width = width;
        self.height = height;
        self.font_family = font_family.to_owned();
        if texture_changed || metrics_changed {
            self.clear_pending = true;
        }
        if font_changed {
            self.relocate_ime_to_cursor();
        }
        if texture_changed || metrics_changed || font_changed {
            self.dirty_rows = every_row(self.rows);
            self.render_pending = true;
        }
        SurfaceChange { texture_changed, metrics_changed, font_changed }
    }

    /// The cells of a row, with the text of an input method where one lies over
    /// it: what the glyphs of the row are shaped from.
    pub fn row_to_shape(&self, row: usize) -> (cells: &Vec<TerminalCellPatch>)
        requires
            self@.valid(),
            row < self@.rows,
        ensures
            frame::cell_views(cells@) == (if self@.ime is Some && self@.ime->0.row == row {
                self@.ime->0.cells
            } else {
                self@.cells[row as int]
            }),
    {
        assert(cell_lines(self.cells@).len() == self.cells@.len());
        assert(self@.cells[row as int] == frame::cell_views(self.cells@[row as int]@));
        match &self.ime {
            Some(ime) => if ime.row == row {
                &ime.cells
            } else {
                &self.cells[row]
            },
            None => &self.cells[row],
        }
    }

    /// The paint of a row.
    pub fn row_paint(&self, row: usize) -> (paint: &Vec<CellPaint>)
        requires
            self@.valid(),
            row < self@.rows,
        ensures
            paint@ == self@.paint[row as int],
    {
        assert(paint_lines(self.paint@).len() == self.paint@.len());
        &self.paint[row]
    }

    /// What lies over the cells.
    pub fn decorations(&self) -> (layer: &DecorationLayer)
        ensures
            layer@ == self@.decorations,
    {
        &self.decorations
    }

    /// Where the cursor is drawn, and in which shape.
    pub fn cursor_mark(&self) -> (mark: Option<CursorMark>)
        ensures
            mark == cursor_mark_of(self@),
    {
        if self.cursor.visible && self.cursor.column < self.columns && self.cursor.row < self.rows {
            let shape: u32 = if self.cursor.shape < 0 {
                0
            } else {
                self.cursor.shape as u32
            };
            Some(CursorMark { column: self.cursor.column, row: self.cursor.row, shape: shape + 1 })
        } else {
            None
        }
    }

    /// Where the text of an input method is drawn.
    pub fn ime_mark(&self) -> (mark: Option<ImeMark>)
        ensures
            match mark {
                Some(mark) => self@.ime matches Some(ime) && mark.column == ime.column && mark.row
                    == ime.row && mark.columns == ime.columns,
                None => self@.ime is None,
            },
    {
        match &self.ime {
            Some(ime) => Some(ImeMark { column: ime.column, row: ime.row, columns: ime.columns }),
            None => None,
        }
    }
}

/// The places of a list that are set, in ascending order.
fn set_places(flags: &Vec<bool>) -> (places: Vec<usize>)
    ensures
        forall|i: int, j: int| 0 <= i < j < places@.len() ==> places@[i] < places@[j],
        forall|place: usize| #[trigger]
            places@.contains(place) <==> place < flags@.len() && flags@[place as int],
{
    let mut places: Vec<usize> = Vec::new();
    let mut index: usize = 0;
    while index < flags.len()
        invariant
            index <= flags@.len(),
            forall|i: int, j: int| 0 <= i < j < places@.len() ==> places@[i] < places@[j],
            forall|i: int| 0 <= i < places@.len() ==> places@[i] < index,
            forall|place: usize| #[trigger]
                places@.contains(place) <==> place < index && flags@[place as int],
        decreases flags.len() - index,
    {
        let ghost before = places@;
        if flags[index] {
            proof {
                lemma_pushed_member(before, index);
            }
            places.push(index);
            assert forall|place: usize| #[trigger] places@.contains(place) <==> place < index + 1
                && flags@[place as int] by {
                assert(members(places@).contains(place) <==> members(before).insert(index).contains(
                    place,
                ));
                assert(members(before).contains(place) <==> before.contains(place));
            }
        }
        index += 1;
    }
    places
}

fn contains_row(rows: &Vec<usize>, row: usize) -> (found: bool)
    ensures
        found == rows@.contains(row),
{
    let mut index: usize = 0;
    while index < rows.len()
        invariant
            index <= rows@.len(),
            forall|i: int| 0 <= i < index ==> rows@[i] != row,
        decreases rows.len() - index,
    {
        if rows[index] == row {
            assert(rows@[index as int] == row);
            return true;
        }
        index += 1;
    }
    false
}

/// The members of a list, in ascending order and each once.
fn sorted_members(list: &Vec<usize>) -> (sorted: Vec<usize>)
    ensures
        forall|i: int, j: int| 0 <= i < j < sorted@.len() ==> sorted@[i] < sorted@[j],
        forall|row: usize| #[trigger] sorted@.contains(row) <==> list@.contains(row),
{
    let mut sorted: Vec<usize> = Vec::new();
    let mut index: usize = 0;
    while index < list.len()
        invariant
            index <= list@.len(),
            forall|i: int, j: int| 0 <= i < j < sorted@.len() ==> sorted@[i] < sorted@[j],
            forall|row: usize| #[trigger]
                sorted@.contains(row) <==> list@.take(index as int).contains(row),
        decreases list.len() - index,
    {
        let row: usize = list[index];
        let ghost before = sorted@;
        let mut place: usize = 0;
        while place < sorted.len() && sorted[place] < row
            invariant
                place <= sorted@.len(),
                forall|i: int| 0 <= i < place ==> sorted@[i] < row,
            decreases sorted.len() - place,
        {
            place += 1;
        }
        if place == sorted.len() || sorted[place] != row {
            sorted.insert(place, row);
        }
        proof {
            assert(list@.take(index + 1) == list@.take(index as int).push(row));
            lemma_pushed_member(list@.take(index as int), row);
            assert forall|other: usize| #[trigger] sorted@.contains(other) <==> list@.take(
                index + 1,
            ).contains(other) by {
                assert(members(list@.take(index + 1)).contains(other) <==> list@.take(
                    index + 1,
                ).contains(other));
                assert(members(list@.take(index as int)).contains(other) <==> list@.take(
                    index as int,
                ).contains(other));
                if before.contains(other) {
                    let i = choose|i: int| 0 <= i < before.len() && before[i] == other;
                    if i < place || sorted@.len() == before.len() {
                        assert(sorted@[i] == other);
                    } else {
                        assert(sorted@[i + 1] == other);
                    }
                }
                if sorted@.contains(other) {
                    let i = choose|i: int| 0 <= i < sorted@.len() && sorted@[i] == other;
                    if sorted@.len() == before.len() || i < place {
                        assert(before[i] == other);
                    } else if i > place {
                        assert(before[i - 1] == other);
                    }
                }
                assert(sorted@[place as int] == row);
            }
        }
        index += 1;
    }
    assert(list@.take(index as int) == list@);
    sorted
}

/// A text of an input method never touches what the terminal shows: taking it
/// away leaves the cells and their paint as they were before it came.
pub proof fn cancelled_compositions_restore_the_view(grid: GridView, shown: Seq<char>)
    ensures
        ({
            let composed = with_preedit(grid, shown);
            let cancelled = with_preedit(composed, Seq::empty());
            &&& composed.cells == grid.cells
            &&& composed.paint == grid.paint
            &&& cancelled == (GridView {
                ime: None,
                dirty: cancelled.dirty,
                render_pending: cancelled.render_pending,
                ..grid
            })
            &&& composed.ime is Some ==> cancelled.dirty.contains(composed.ime->0.row)
                && cancelled.render_pending
        }),
{
}

/// A frame of another grid is only taken over where it redraws everything.
pub proof fn frames_never_build_on_another_grid(grid: GridView, patch: FrameView)
    requires
        acceptable(grid, patch),
        grid.generation != Some(patch.generation) || grid.columns != patch.columns || grid.rows
            != patch.rows,
    ensures
        patch.full_redraw,
        complete(patch),
{
}

/// Whether every cell starts in a column of the grid.
pub open spec fn on_grid(cells: Seq<CellView>, columns: int) -> bool {
    forall|i: int|
        0 <= i < cells.len() ==> 0 <= (#[trigger] cells[i]).column < columns
}

proof fn lemma_nothing_outside(cells: Seq<CellView>, columns: int)
    requires
        on_grid(cells, columns),
        columns <= usize::MAX,
    ensures
        outside(cells, 0, columns) == Seq::<CellView>::empty(),
    decreases cells.len(),
{
    if cells.len() > 0 {
        assert(0 <= cells[cells.len() - 1].column < columns);
        assert forall|i: int| 0 <= i < cells.drop_last().len() implies 0 <= (
        #[trigger] cells.drop_last()[i]).column < columns by {
            assert(0 <= cells[i].column < columns);
        }
        lemma_nothing_outside(cells.drop_last(), columns);
    }
}

/// A patch of a whole row forgets what the row held before.
pub proof fn full_rows_forget_the_past(
    cached: Seq<CellView>,
    row: Seq<CellPaint>,
    other: Seq<CellPaint>,
    columns: int,
    cells: Seq<CellView>,
)
    requires
        on_grid(cached, columns),
        columns <= usize::MAX,
        row.len() == columns,
        other.len() == columns,
    ensures
        merged_row(cached, 0, columns, cells) == shaping::cells_sorted(cells),
        painted(row, 0, columns, cells) == painted(other, 0, columns, cells),
{
    lemma_nothing_outside(cached, columns);
    assert(Seq::<CellView>::empty() + cells =~= cells);
    assert(painted(row, 0, columns, cells) =~= painted(other, 0, columns, cells));
}

/// A part of a row that is drawn over a whole row gives the same row as one
/// whole row that has that part already: partial frames and full frames agree.
pub proof fn partial_rows_equal_full_rows(
    cached: Seq<CellView>,
    row: Seq<CellPaint>,
    columns: int,
    whole: Seq<CellView>,
    start: int,
    end: int,
    part: Seq<CellView>,
)
    requires
        0 <= start <= end <= columns <= usize::MAX,
        row.len() == columns,
        on_grid(cached, columns),
        on_grid(whole, columns),
        shaping::cells_sorted(whole) == whole,
        forall|i: int| 0 <= i < part.len() ==> start <= (#[trigger] part[i]).column < end,
        forall|i: int|
            0 <= i < whole.len() ==> (#[trigger] whole[i]).column >= start || cell_end(whole[i])
                <= start,
    ensures
        ({
            let replaced = shaping::cells_sorted(outside(whole, start, end) + part);
            &&& merged_row(merged_row(cached, 0, columns, whole), start, end, part) == replaced
            &&& merged_row(cached, 0, columns, outside(whole, start, end) + part) == replaced
            &&& painted(painted(row, 0, columns, whole), start, end, part) == painted(
                row,
                0,
                columns,
                outside(whole, start, end) + part,
            )
        }),
{
    full_rows_forget_the_past(cached, row, row, columns, whole);
    full_rows_forget_the_past(cached, row, row, columns, outside(whole, start, end) + part);
    let left = painted(painted(row, 0, columns, whole), start, end, part);
    let right = painted(row, 0, columns, outside(whole, start, end) + part);
    assert forall|column: int| 0 <= column < columns implies left[column] == right[column] by {
        lemma_paint_of_parts(whole, start, end, part, column);
    }
    assert(left =~= right);
}

proof fn lemma_paint_of_parts(
    whole: Seq<CellView>,
    start: int,
    end: int,
    part: Seq<CellView>,
    column: int,
)
    requires
        0 <= start <= end <= usize::MAX,
        forall|i: int| 0 <= i < part.len() ==> start <= (#[trigger] part[i]).column < end,
        forall|i: int|
            0 <= i < whole.len() ==> (#[trigger] whole[i]).column >= start || cell_end(whole[i])
                <= start,
    ensures
        paint_at(outside(whole, start, end) + part, column) == (if start <= column < end {
            paint_at(part, column)
        } else {
            paint_at(whole, column)
        }),
    decreases whole.len() + part.len(),
{
    let kept = outside(whole, start, end);
    let both = kept + part;
    if part.len() > 0 {
        let shorter = part.drop_last();
        assert(both.drop_last() =~= kept + shorter);
        assert(both.last() == part.last());
        assert(start <= part[part.len() - 1].column < end);
        assert forall|i: int| 0 <= i < shorter.len() implies start <= (
        #[trigger] shorter[i]).column < end by {
            assert(start <= part[i].column < end);
        }
        lemma_paint_of_parts(whole, start, end, shorter, column);
    } else {
        assert(both =~= kept);
        if whole.len() > 0 {
            let shorter = whole.drop_last();
            let last = whole.last();
            assert(last == whole[whole.len() - 1]);
            assert forall|i: int| 0 <= i < shorter.len() implies (#[trigger] shorter[i]).column
                >= start || cell_end(shorter[i]) <= start by {
                assert(whole[i].column >= start || cell_end(whole[i]) <= start);
            }
            lemma_paint_of_parts(shorter, start, end, part, column);
            assert(outside(shorter, start, end) + part =~= outside(shorter, start, end));
            if cell_end(last) <= start || last.column >= end {
                assert(kept.drop_last() =~= outside(shorter, start, end));
                assert(last.column < start || last.column >= end);
            }
        }
    }
}

/// Whether every patch of a frame has its cells on the grid.
pub open spec fn patches_on_grid(patches: Seq<RowView>, columns: int) -> bool {
    forall|i: int| 0 <= i < patches.len() ==> on_grid((#[trigger] patches[i]).cells, columns)
}

/// Whether every row of a grid has its cells on the grid.
pub open spec fn rows_on_grid(grid: GridView) -> bool {
    forall|row: int|
        0 <= row < grid.cells.len() ==> on_grid(#[trigger] grid.cells[row], grid.columns)
}

proof fn lemma_outside_on_grid(cells: Seq<CellView>, start: int, end: int, columns: int)
    requires
        on_grid(cells, columns),
    ensures
        on_grid(outside(cells, start, end), columns),
    decreases cells.len(),
{
    if cells.len() > 0 {
        let shorter = cells.drop_last();
        assert forall|i: int| 0 <= i < shorter.len() implies 0 <= (#[trigger] shorter[i]).column
            < columns by {
            assert(0 <= cells[i].column < columns);
        }
        assert(0 <= cells[cells.len() - 1].column < columns);
        lemma_outside_on_grid(shorter, start, end, columns);
    }
}

proof fn lemma_inserted_on_grid(cells: Seq<CellView>, cell: CellView, columns: int)
    requires
        on_grid(cells, columns),
        0 <= cell.column < columns,
    ensures
        on_grid(shaping::cell_inserted(cells, cell), columns),
    decreases cells.len(),
{
    if cells.len() > 0 && cells.last().column > cell.column {
        let shorter = cells.drop_last();
        assert forall|i: int| 0 <= i < shorter.len() implies 0 <= (#[trigger] shorter[i]).column
            < columns by {
            assert(0 <= cells[i].column < columns);
        }
        assert(0 <= cells[cells.len() - 1].column < columns);
        lemma_inserted_on_grid(shorter, cell, columns);
    }
}

proof fn lemma_sorted_on_grid(cells: Seq<CellView>, columns: int)
    requires
        on_grid(cells, columns),
    ensures
        on_grid(shaping::cells_sorted(cells), columns),
    decreases cells.len(),
{
    if cells.len() > 0 {
        let shorter = cells.drop_last();
        assert forall|i: int| 0 <= i < shorter.len() implies 0 <= (#[trigger] shorter[i]).column
            < columns by {
            assert(0 <= cells[i].column < columns);
        }
        lemma_sorted_on_grid(shorter, columns);
        assert(0 <= cells[cells.len() - 1].column < columns);
        lemma_inserted_on_grid(shaping::cells_sorted(shorter), cells.last(), columns);
    }
}

proof fn lemma_row_keeps_the_grid(grid: GridView, patch: RowView)
    requires
        grid.valid(),
        rows_on_grid(grid),
        on_grid(patch.cells, grid.columns),
        patch.row >= 0,
    ensures
        with_row(grid, patch).valid(),
        rows_on_grid(with_row(grid, patch)),
        with_row(grid, patch).columns == grid.columns,
        with_row(grid, patch).rows == grid.rows,
{
    if touches(grid, patch) {
        let after = with_row(grid, patch);
        let start = frame::least(patch.start_column, grid.columns);
        let end = frame::least(patch.end_column, grid.columns);
        let kept = outside(grid.cells[patch.row], start, end);
        assert(on_grid(grid.cells[patch.row], grid.columns));
        lemma_outside_on_grid(grid.cells[patch.row], start, end, grid.columns);
        assert(on_grid(kept + patch.cells, grid.columns)) by {
            assert forall|i: int| 0 <= i < (kept + patch.cells).len() implies 0 <= (#[trigger] (kept
                + patch.cells)[i]).column < grid.columns by {
                if i < kept.len() {
                    assert(0 <= kept[i].column < grid.columns);
                } else {
                    assert(0 <= patch.cells[i - kept.len()].column < grid.columns);
                }
            }
        }
        lemma_sorted_on_grid(kept + patch.cells, grid.columns);
        assert forall|row: int| 0 <= row < after.cells.len() implies on_grid(
            #[trigger] after.cells[row],
            after.columns,
        ) by {
            if row != patch.row {
                assert(on_grid(grid.cells[row], grid.columns));
            }
        }
        assert forall|row: int| 0 <= row < after.rows implies (#[trigger] after.paint[row]).len()
            == after.columns by {
            assert(grid.paint[row].len() == grid.columns);
        }
    }
}

proof fn lemma_rows_agree(one: GridView, other: GridView, patches: Seq<RowView>, count: int)
    requires
        one.valid(),
        other.valid(),
        rows_on_grid(one),
        rows_on_grid(other),
        one.columns == other.columns,
        one.rows == other.rows,
        patches_on_grid(patches, one.columns),
        0 <= count <= patches.len(),
        one.columns > 0,
        forall|i: int| 0 <= i < patches.len() ==> (#[trigger] patches[i]).row >= 0,
        forall|i: int|
            0 <= i < one.rows && i < patches.len() ==> (#[trigger] patches[i]).row == i
                && patches[i].start_column == 0 && patches[i].end_column == one.columns,
    ensures
        with_rows(one, patches.take(count)).valid(),
        with_rows(other, patches.take(count)).valid(),
        rows_on_grid(with_rows(one, patches.take(count))),
        rows_on_grid(with_rows(other, patches.take(count))),
        with_rows(one, patches.take(count)).columns == one.columns,
        with_rows(other, patches.take(count)).columns == one.columns,
        with_rows(one, patches.take(count)).rows == one.rows,
        with_rows(other, patches.take(count)).rows == one.rows,
        forall|row: int|
            0 <= row < one.rows && row < count ==> #[trigger] with_rows(
                one,
                patches.take(count),
            ).cells[row] == with_rows(other, patches.take(count)).cells[row] && with_rows(
                one,
                patches.take(count),
            ).paint[row] == with_rows(other, patches.take(count)).paint[row],
    decreases count,
{
    if count > 0 {
        lemma_rows_agree(one, other, patches, count - 1);
        assert(patches.take(count).drop_last() =~= patches.take(count - 1));
        assert(patches.take(count).last() == patches[count - 1]);
        let left = with_rows(one, patches.take(count - 1));
        let right = with_rows(other, patches.take(count - 1));
        let patch = patches[count - 1];
        assert(on_grid(patch.cells, one.columns));
        lemma_row_keeps_the_grid(left, patch);
        lemma_row_keeps_the_grid(right, patch);
        let after_left = with_row(left, patch);
        let after_right = with_row(right, patch);
        assert forall|row: int| 0 <= row < one.rows && row < count implies #[trigger]
            after_left.cells[row] == after_right.cells[row] && after_left.paint[row]
            == after_right.paint[row] by {
            if row < count - 1 {
                assert(left.cells[row] == right.cells[row]);
            } else {
                assert(patch.row == row);
                assert(on_grid(left.cells[row], one.columns));
                assert(on_grid(right.cells[row], one.columns));
                assert(left.paint[row].len() == one.columns);
                assert(right.paint[row].len() == one.columns);
                full_rows_forget_the_past(
                    left.cells[row],
                    left.paint[row],
                    right.paint[row],
                    one.columns,
                    patch.cells,
                );
                full_rows_forget_the_past(
                    right.cells[row],
                    right.paint[row],
                    left.paint[row],
                    one.columns,
                    patch.cells,
                );
            }
        }
    }
}

pub(crate) proof fn lemma_ready(grid: GridView, patch: FrameView)
    requires
        grid.valid(),
        rows_on_grid(grid),
        0 <= patch.columns <= usize::MAX,
        0 <= patch.rows <= usize::MAX,
    ensures
        ready_for(grid, patch).valid(),
        rows_on_grid(ready_for(grid, patch)),
        ready_for(grid, patch).columns == patch.columns,
        ready_for(grid, patch).rows == patch.rows,
{
    let ready = ready_for(grid, patch);
    if grid.columns == patch.columns && grid.rows == patch.rows {
        assert forall|row: int| 0 <= row < ready.cells.len() implies on_grid(
            #[trigger] ready.cells[row],
            ready.columns,
        ) by {
            assert(on_grid(grid.cells[row], grid.columns));
        }
        assert forall|row: int| 0 <= row < ready.rows implies (#[trigger] ready.paint[row]).len()
            == ready.columns by {
            assert(grid.paint[row].len() == grid.columns);
        }
    }
}

proof fn lemma_no_columns(one: GridView, other: GridView, patches: Seq<RowView>)
    requires
        one.valid(),
        other.valid(),
        rows_on_grid(one),
        rows_on_grid(other),
        one.columns == 0 && other.columns == 0,
        one.rows == other.rows,
        forall|i: int| 0 <= i < patches.len() ==> (#[trigger] patches[i]).start_column >= 0,
    ensures
        with_rows(one, patches) == one,
        with_rows(other, patches) == other,
        one.cells == other.cells,
        one.paint == other.paint,
    decreases patches.len(),
{
    if patches.len() > 0 {
        assert forall|i: int| 0 <= i < patches.drop_last().len() implies (
        #[trigger] patches.drop_last()[i]).start_column >= 0 by {
            assert(patches[i].start_column >= 0);
        }
        lemma_no_columns(one, other, patches.drop_last());
        assert(patches[patches.len() - 1].start_column >= 0);
        assert(!touches(one, patches.last()));
        assert(!touches(other, patches.last()));
    }
    assert forall|row: int| 0 <= row < one.rows implies one.cells[row] == other.cells[row] by {
        assert(on_grid(one.cells[row], 0));
        assert(on_grid(other.cells[row], 0));
        if one.cells[row].len() > 0 {
            assert(one.cells[row][0].column < 0);
        }
        if other.cells[row].len() > 0 {
            assert(other.cells[row][0].column < 0);
        }
        assert(one.cells[row] =~= other.cells[row]);
    }
    assert(one.cells =~= other.cells);
    assert forall|row: int| 0 <= row < one.rows implies one.paint[row] == other.paint[row] by {
        assert(one.paint[row].len() == 0 && other.paint[row].len() == 0);
        assert(one.paint[row] =~= other.paint[row]);
    }
    assert(one.paint =~= other.paint);
}

/// After a frame that redraws everything, the cells and their paint do not
/// depend on what the renderer drew before, nor on the size of its grid.
pub proof fn full_frames_forget_the_past(one: GridView, other: GridView, patch: FrameView)
    requires
        one.valid(),
        other.valid(),
        rows_on_grid(one),
        rows_on_grid(other),
        0 <= patch.columns <= usize::MAX,
        0 <= patch.rows <= usize::MAX,
        complete(patch),
        patches_on_grid(patch.changed_rows, patch.columns),
        forall|i: int|
            0 <= i < patch.changed_rows.len() ==> (#[trigger] patch.changed_rows[i]).row >= 0
                && patch.changed_rows[i].start_column >= 0,
    ensures
        with_frame(one, patch).cells == with_frame(other, patch).cells,
        with_frame(one, patch).paint == with_frame(other, patch).paint,
{
    let all = patch.changed_rows;
    let left = ready_for(one, patch);
    let right = ready_for(other, patch);
    lemma_ready(one, patch);
    lemma_ready(other, patch);
    if patch.columns == 0 {
        lemma_no_columns(left, right, all);
    } else {
        lemma_rows_agree(left, right, all, all.len() as int);
        assert(all.take(all.len() as int) =~= all);
        assert(with_rows(left, all).cells =~= with_rows(right, all).cells);
        assert forall|row: int| 0 <= row < patch.rows implies #[trigger] with_rows(
            left,
            all,
        ).paint[row] == with_rows(right, all).paint[row] by {
            assert(with_rows(left, all).cells[row] == with_rows(right, all).cells[row]);
        }
        assert(with_rows(left, all).paint =~= with_rows(right, all).paint);
    }
}

proof fn lemma_untouched_row(grid: GridView, patch: RowView, row: int)
    requires
        grid.valid(),
        patch.row >= 0,
    ensures
        with_row(grid, patch).valid(),
        with_row(grid, patch).columns == grid.columns,
        with_row(grid, patch).rows == grid.rows,
        patch.row != row && 0 <= row < grid.rows ==> with_row(grid, patch).cells[row]
            == grid.cells[row] && with_row(grid, patch).paint[row] == grid.paint[row],
{
    let after = with_row(grid, patch);
    assert forall|other: int| 0 <= other < after.rows implies (#[trigger] after.paint[other]).len()
        == after.columns by {
        assert(grid.paint[other].len() == grid.columns);
    }
}

proof fn lemma_unshaped_rows(grid: GridView, patches: Seq<RowView>, row: int)
    requires
        grid.valid(),
        0 <= row < grid.rows,
        forall|i: int| 0 <= i < patches.len() ==> (#[trigger] patches[i]).row >= 0,
        !reshaped(grid, patches, row),
    ensures
        with_rows(grid, patches).valid(),
        with_rows(grid, patches).columns == grid.columns,
        with_rows(grid, patches).rows == grid.rows,
        shaping::glyph_look(with_rows(grid, patches).cells[row], grid.columns)
            == shaping::glyph_look(grid.cells[row], grid.columns),
    decreases patches.len(),
{
    if patches.len() > 0 {
        let shorter = patches.drop_last();
        assert forall|i: int| 0 <= i < shorter.len() implies (#[trigger] shorter[i]).row >= 0 by {
            assert(patches[i] == shorter[i]);
        }
        lemma_unshaped_rows(grid, shorter, row);
        let before = with_rows(grid, shorter);
        let patch = patches.last();
        assert(patches[patches.len() - 1].row >= 0);
        lemma_untouched_row(before, patch, row);
        if patch.row == row && touches(before, patch) {
            shaping::rows_are_the_same_where_their_glyphs_are(
                before.cells[row],
                patched_cells(before, patch),
                grid.columns,
            );
        }
    }
}

/// A row that a frame does not name as one to shape anew has the same glyphs after
/// the frame as before: the same characters and marks in the same places, in the
/// same style and in the same colour.
pub proof fn rows_that_are_not_shaped_keep_their_glyphs(
    grid: GridView,
    patch: FrameView,
    row: int,
)
    requires
        grid.valid(),
        patch.columns == grid.columns,
        patch.rows == grid.rows,
        0 <= row < grid.rows,
        forall|i: int|
            0 <= i < patch.changed_rows.len() ==> (#[trigger] patch.changed_rows[i]).row >= 0,
        !reshaped(ready_for(grid, patch), patch.changed_rows, row),
    ensures
        shaping::glyph_look(with_frame(grid, patch).cells[row], grid.columns)
            == shaping::glyph_look(grid.cells[row], grid.columns),
{
    let ready = ready_for(grid, patch);
    assert forall|other: int| 0 <= other < ready.rows implies (
    #[trigger] ready.paint[other]).len() == ready.columns by {
        assert(grid.paint[other].len() == grid.columns);
    }
    lemma_unshaped_rows(ready, patch.changed_rows, row);
    lemma_frame_rows(grid, patch);
}

proof fn lemma_frame_rows(grid: GridView, patch: FrameView)
    ensures
        with_frame(grid, patch).cells == with_rows(
            ready_for(grid, patch),
            patch.changed_rows,
        ).cells,
        with_frame(grid, patch).paint == with_rows(
            ready_for(grid, patch),
            patch.changed_rows,
        ).paint,
        with_frame(grid, patch).clear_pending == with_rows(
            ready_for(grid, patch),
            patch.changed_rows,
        ).clear_pending,
{
}

/// A row patch that changes the colour, the character, the style or the place of a
/// visible glyph makes its row one to shape anew.
pub proof fn changed_glyphs_are_shaped(grid: GridView, patches: Seq<RowView>, row: int)
    requires
        grid.valid(),
        0 <= row < grid.rows,
        forall|i: int| 0 <= i < patches.len() ==> (#[trigger] patches[i]).row >= 0,
        shaping::glyph_look(with_rows(grid, patches).cells[row], grid.columns)
            != shaping::glyph_look(grid.cells[row], grid.columns),
    ensures
        reshaped(grid, patches, row),
{
    if !reshaped(grid, patches, row) {
        lemma_unshaped_rows(grid, patches, row);
    }
}

/// A row that no patch names is not shaped anew, and neither is one whose patches
/// leave every glyph as it is.
pub proof fn unchanged_glyphs_are_not_shaped(grid: GridView, patch: RowView, row: int)
    requires
        grid.valid(),
        0 <= row < grid.rows,
        patch.row != row || shaping::glyph_look(with_row(grid, patch).cells[row], grid.columns)
            == shaping::glyph_look(grid.cells[row], grid.columns),
    ensures
        !reshaped(grid, seq![patch], row),
{
    assert(seq![patch].drop_last() =~= Seq::<RowView>::empty());
    assert(seq![patch].last() == patch);
    reveal_with_fuel(reshaped, 2);
    if patch.row == row && touches(grid, patch) {
        shaping::rows_are_the_same_where_their_glyphs_are(
            grid.cells[row],
            patched_cells(grid, patch),
            grid.columns,
        );
    }
}

proof fn lemma_outside_members(cells: Seq<CellView>, start: int, end: int, cell: CellView)
    ensures
        outside(cells, start, end).contains(cell) <==> cells.contains(cell) && (cell_end(cell)
            <= start || cell.column >= end),
    decreases cells.len(),
{
    if cells.len() > 0 {
        let shorter = cells.drop_last();
        let before = outside(shorter, start, end);
        lemma_outside_members(shorter, start, end, cell);
        assert(cells =~= shorter.push(cells.last()));
        shaping::lemma_pushed_members(shorter, cells.last(), cell);
        shaping::lemma_pushed_members(before, cells.last(), cell);
    }
}

/// A row with a patch holds the cells of the patch, and of the cells it held before
/// exactly those that end before the patch or start behind it, in the order of
/// their columns.
pub proof fn patches_replace_their_columns(
    cached: Seq<CellView>,
    start: int,
    end: int,
    cells: Seq<CellView>,
    cell: CellView,
)
    requires
        0 <= start < end <= usize::MAX,
        0 <= cell.column,
    ensures
        ({
            let merged = merged_row(cached, start, end, cells);
            let behind = cell.column + if cell.width_in_columns > 1 {
                cell.width_in_columns
            } else {
                1
            };
            &&& merged.contains(cell) <==> cells.contains(cell) || (cached.contains(cell) && (behind
                <= start || cell.column >= end))
            &&& forall|i: int, j: int|
                0 <= i < j < merged.len() ==> merged[i].column <= merged[j].column
        }),
{
    lemma_outside_members(cached, start, end, cell);
    shaping::lemma_joined_members(outside(cached, start, end), cells, cell);
    shaping::sorted_cells_are_in_order(outside(cached, start, end) + cells, cell);
}

proof fn lemma_paint_at(cells: Seq<CellView>, place: int)
    requires
        0 <= place < cells.len(),
        forall|i: int| place < i < cells.len() ==> (#[trigger] cells[i]).column != cells[place].column,
    ensures
        paint_at(cells, cells[place].column) == paint_of(cells[place]),
    decreases cells.len(),
{
    if place < cells.len() - 1 {
        let shorter = cells.drop_last();
        assert(cells[cells.len() - 1].column != cells[place].column);
        assert forall|i: int| place < i < shorter.len() implies (#[trigger] shorter[i]).column
            != shorter[place].column by {
            assert(cells[i] == shorter[i]);
        }
        lemma_paint_at(shorter, place);
    }
}

proof fn lemma_no_paint_at(cells: Seq<CellView>, column: int)
    requires
        forall|i: int| 0 <= i < cells.len() ==> (#[trigger] cells[i]).column != column,
    ensures
        paint_at(cells, column) == no_paint(),
    decreases cells.len(),
{
    if cells.len() > 0 {
        let shorter = cells.drop_last();
        assert(cells[cells.len() - 1].column != column);
        assert forall|i: int| 0 <= i < shorter.len() implies (#[trigger] shorter[i]).column
            != column by {
            assert(cells[i] == shorter[i]);
        }
        lemma_no_paint_at(shorter, column);
    }
}

/// Painting some columns anew paints each cell in its column with its own width,
/// colours, underline and strikeout, leaves nothing in columns without a cell, and
/// does not touch the other columns.
pub proof fn cells_are_painted_in_their_columns(
    row: Seq<CellPaint>,
    start: int,
    end: int,
    cells: Seq<CellView>,
    column: int,
)
    requires
        0 <= column < row.len(),
        forall|i: int, j: int|
            0 <= i < j < cells.len() ==> (#[trigger] cells[i]).column != (
            #[trigger] cells[j]).column,
        forall|i: int|
            0 <= i < cells.len() ==> 0 <= (#[trigger] cells[i]).width_in_columns <= usize::MAX && 0
                <= cells[i].underline_style <= 5,
    ensures
        painted(row, start, end, cells).len() == row.len(),
        column < start || column >= end ==> painted(row, start, end, cells)[column] == row[column],
        forall|i: int|
            0 <= i < cells.len() && start <= column < end && (#[trigger] cells[i]).column == column
                ==> {
                let paint = painted(row, start, end, cells)[column];
                &&& paint.width == cells[i].width_in_columns
                &&& paint.background == cells[i].background
                &&& paint.foreground == cells[i].foreground
                &&& paint.underline == cells[i].underline_style
                &&& paint.strikeout == cells[i].strikeout
            },
        start <= column < end && (forall|i: int|
            0 <= i < cells.len() ==> (#[trigger] cells[i]).column != column) ==> {
            let paint = painted(row, start, end, cells)[column];
            paint.width == 0 && paint.underline == 0 && !paint.strikeout
        },
{
    assert forall|i: int|
        0 <= i < cells.len() && start <= column < end && (#[trigger] cells[i]).column
            == column implies painted(row, start, end, cells)[column] == paint_of(cells[i]) by {
        lemma_paint_at(cells, i);
    }
    if forall|i: int| 0 <= i < cells.len() ==> (#[trigger] cells[i]).column != column {
        lemma_no_paint_at(cells, column);
    }
}

proof fn lemma_rows_mark(grid: GridView, patches: Seq<RowView>, row: usize)
    requires
        grid.valid(),
        forall|i: int| 0 <= i < patches.len() ==> (#[trigger] patches[i]).row >= 0,
    ensures
        with_rows(grid, patches).valid(),
        with_rows(grid, patches).columns == grid.columns,
        with_rows(grid, patches).rows == grid.rows,
        with_rows(grid, patches).cursor == grid.cursor,
        with_rows(grid, patches).generation == grid.generation,
        with_rows(grid, patches).ime == grid.ime,
        with_rows(grid, patches).decorations == grid.decorations,
        with_rows(grid, patches).clear_pending == grid.clear_pending,
        grid.dirty.subset_of(with_rows(grid, patches).dirty),
        row < grid.rows && !with_rows(grid, patches).dirty.contains(row) ==> with_rows(
            grid,
            patches,
        ).cells[row as int] == grid.cells[row as int] && with_rows(grid, patches).paint[row as int]
            == grid.paint[row as int],
    decreases patches.len(),
{
    if patches.len() > 0 {
        let shorter = patches.drop_last();
        assert forall|i: int| 0 <= i < shorter.len() implies (#[trigger] shorter[i]).row >= 0 by {
            assert(patches[i] == shorter[i]);
        }
        lemma_rows_mark(grid, shorter, row);
        assert(patches[patches.len() - 1].row >= 0);
        lemma_untouched_row(with_rows(grid, shorter), patches.last(), row as int);
    }
}

/// Whatever a frame changes is drawn: after a frame, a row that is not to be drawn
/// has the cells, the paint and the decorations that it had before, and neither
/// the cursor nor the text of an input method has come to it, left it or changed
/// in it. A frame of another size has every row drawn, and the surface cleared.
pub proof fn frames_mark_what_they_change(grid: GridView, patch: FrameView, row: usize)
    requires
        grid.valid(),
        acceptable(grid, patch),
        0 <= patch.columns <= usize::MAX,
        0 <= row < patch.rows <= usize::MAX,
        forall|i: int|
            0 <= i < patch.changed_rows.len() ==> (#[trigger] patch.changed_rows[i]).row >= 0,
    ensures
        with_frame(grid, patch).render_pending,
        with_frame(grid, patch).cursor == patch.cursor,
        with_frame(grid, patch).decorations == patch.decorations,
        with_frame(grid, patch).generation == Some(patch.generation),
        with_frame(grid, patch).columns == patch.columns,
        with_frame(grid, patch).rows == patch.rows,
        patch.columns != grid.columns || patch.rows != grid.rows ==> with_frame(
            grid,
            patch,
        ).clear_pending && rows_to_draw(with_frame(grid, patch)).contains(row),
        grid.dirty.contains(row) ==> rows_to_draw(with_frame(grid, patch)).contains(row),
        !rows_to_draw(with_frame(grid, patch)).contains(row) ==> {
            &&& with_frame(grid, patch).cells[row as int] == grid.cells[row as int]
            &&& with_frame(grid, patch).paint[row as int] == grid.paint[row as int]
            &&& !decoration::row_differs(grid.decorations, patch.decorations, row as int)
            &&& patch.cursor != grid.cursor ==> patch.cursor.row != row && grid.cursor.row != row
            &&& grid.ime matches Some(ime) ==> ime.row != row
            &&& with_frame(grid, patch).ime matches Some(ime) ==> ime.row != row
        },
{
    let ready = ready_for(grid, patch);
    assert forall|other: int| 0 <= other < ready.rows implies (
    #[trigger] ready.paint[other]).len() == ready.columns by {
        if patch.columns == grid.columns && patch.rows == grid.rows {
            assert(grid.paint[other].len() == grid.columns);
        }
    }
    lemma_rows_mark(ready, patch.changed_rows, row);
    let drawn = with_rows(ready, patch.changed_rows);
    let marked = with_decorations(drawn, patch.decorations);
    let moved = with_cursor(marked, patch.cursor);
    assert(marked.dirty.contains(row) <==> drawn.dirty.contains(row) || decoration::row_differs(
        drawn.decorations,
        patch.decorations,
        row as int,
    ));
    if patch.columns != grid.columns || patch.rows != grid.rows {
        assert(all_rows(patch.rows).contains(row));
        assert(ready.clear_pending);
    } else {
        assert(ready.dirty == grid.dirty);
        assert(ready.cells == grid.cells);
    }
    if relocated(moved).clear_pending {
        assert(all_rows(patch.rows).contains(row));
    }
}

/// A frame is taken over if and only if it redraws every row of its grid, each in
/// its place and from its first to its last column, or it is a partial one of the
/// grid that is shown.
pub proof fn frames_of_the_grid_are_taken(grid: GridView, patch: FrameView)
    ensures
        !patch.full_redraw ==> (acceptable(grid, patch) <==> grid.generation == Some(
            patch.generation,
        ) && grid.columns == patch.columns && grid.rows == patch.rows),
        patch.full_redraw && acceptable(grid, patch) ==> forall|row: int|
            0 <= row < patch.rows ==> row < patch.changed_rows.len() && (
            #[trigger] patch.changed_rows[row]).row == row && patch.changed_rows[row].start_column
                == 0 && patch.changed_rows[row].end_column == patch.columns,
        patch.full_redraw && patch.changed_rows.len() == patch.rows && (forall|row: int|
            0 <= row < patch.rows ==> (#[trigger] patch.changed_rows[row]).row == row
                && patch.changed_rows[row].start_column == 0 && patch.changed_rows[row].end_column
                == patch.columns) ==> acceptable(grid, patch),
{
}

/// The text of an input method stands at the cursor, in the row of the cursor and
/// no further right than the last column, and it is there if and only if there is
/// text and the cursor is seen on the grid. The rows that it comes to and leaves
/// are drawn.
pub proof fn compositions_stand_at_the_cursor(grid: GridView, shown: Seq<char>)
    requires
        grid.columns > 0,
    ensures
        ({
            let composed = with_preedit(grid, shown);
            &&& composed.ime is Some <==> shown.len() > 0 && grid.cursor.visible && grid.cursor.row
                < grid.rows
            &&& composed.ime matches Some(ime) ==> ime.text == shown && ime.row == grid.cursor.row
                && (grid.cursor.column < grid.columns ==> ime.column == grid.cursor.column) && (
            grid.cursor.column >= grid.columns ==> ime.column == grid.columns - 1)
                && composed.dirty.contains(ime.row) && composed.render_pending
            &&& grid.ime matches Some(ime) ==> composed.dirty.contains(ime.row)
                && composed.render_pending
            &&& forall|row: usize| grid.dirty.contains(row) ==> #[trigger] composed.dirty.contains(
                row,
            )
            &&& composed.cursor == grid.cursor
            &&& composed.decorations == grid.decorations
        }),
{
}

/// The cursor is drawn where it is, if it is seen and on the grid, and its shape is
/// counted from one.
pub proof fn cursors_are_drawn_in_their_cell(grid: GridView)
    ensures
        cursor_mark_of(grid) is Some <==> grid.cursor.visible && grid.cursor.column < grid.columns
            && grid.cursor.row < grid.rows,
        cursor_mark_of(grid) matches Some(mark) ==> mark.column == grid.cursor.column && mark.row
            == grid.cursor.row && (grid.cursor.shape >= 0 ==> mark.shape == grid.cursor.shape + 1),
{
}

/// A cursor that moves or changes shows at once, in whatever phase it was.
pub proof fn moved_cursors_show_at_once(grid: GridView, cursor: CursorPatch)
    ensures
        with_cursor(grid, cursor).cursor == cursor,
        cursor != grid.cursor ==> with_cursor(grid, cursor).cursor_phase,
        cursor == grid.cursor ==> with_cursor(grid, cursor) == grid,
        with_cursor(grid, cursor).cells == grid.cells,
        with_cursor(grid, cursor).paint == grid.paint,
{
}

/// Another size, other cell measures or another font have every row drawn anew; the
/// surface is cleared but for a font that leaves the measures. Nothing else
/// changes anything.
pub proof fn surfaces_are_redrawn(
    grid: GridView,
    width: int,
    height: int,
    metrics_changed: bool,
    font_family: Seq<char>,
    row: usize,
)
    requires
        width > 0,
        height > 0,
        row < grid.rows,
    ensures
        ({
            let after = with_surface(grid, width, height, metrics_changed, font_family);
            let resized = width != grid.width || height != grid.height;
            &&& after.width == width
            &&& after.height == height
            &&& after.font_family == font_family
            &&& after.cells == grid.cells
            &&& after.paint == grid.paint
            &&& resized || metrics_changed || font_family != grid.font_family ==> rows_to_draw(
                after,
            ).contains(row) && after.render_pending
            &&& resized || metrics_changed ==> after.clear_pending
            &&& !resized && !metrics_changed && font_family == grid.font_family ==> after == grid
        }),
{
}

/// The text of an input method goes with the cursor: after a frame it stands where
/// the cursor of that frame is, over the cells that the frame shows there, and it
/// is gone where the cursor is not seen.
pub proof fn compositions_follow_the_cursor(grid: GridView, patch: FrameView)
    requires
        grid.columns == patch.columns,
        grid.rows == patch.rows,
        grid.ime is Some,
        grid.ime->0.text.len() > 0,
        grid.valid(),
        forall|i: int|
            0 <= i < patch.changed_rows.len() ==> (#[trigger] patch.changed_rows[i]).row >= 0,
    ensures
        ({
            let after = with_frame(grid, patch);
            &&& patch.cursor.visible && patch.cursor.row < patch.rows ==> (after.ime matches Some(
                ime,
            ) && ime.row == patch.cursor.row && ime.text == grid.ime->0.text)
            &&& !patch.cursor.visible || patch.cursor.row >= patch.rows ==> after.ime is None
            &&& after.dirty.contains(grid.ime->0.row)
        }),
{
    let ready = ready_for(grid, patch);
    assert forall|other: int| 0 <= other < ready.rows implies (
    #[trigger] ready.paint[other]).len() == ready.columns by {
        assert(grid.paint[other].len() == grid.columns);
    }
    lemma_rows_mark(ready, patch.changed_rows, 0);
}

/// Whether the cursor is drawn with the rows that are drawn.
pub open spec fn draws_cursor(grid: GridView) -> bool {
    rows_to_draw(grid).contains(grid.cursor.row) && grid.cursor.visible && (!grid.cursor.blinking
        || grid.cursor_phase)
}

/// Whether the text of an input method is drawn with the rows that are drawn.
pub open spec fn draws_ime(grid: GridView) -> bool {
    grid.ime is Some && rows_to_draw(grid).contains(grid.ime->0.row)
}

/// The grid after a tick of the cursor.
pub open spec fn ticked(grid: GridView) -> GridView {
    if grid.cursor.visible && grid.cursor.blinking {
        GridView {
            cursor_phase: !grid.cursor_phase,
            dirty: grid.dirty.insert(grid.cursor.row),
            render_pending: true,
            ..grid
        }
    } else {
        grid
    }
}

/// A cursor blinks if and only if it is seen and set to: two ticks bring it back to
/// where it was, and each has its row drawn. With its row a steady cursor is
/// always drawn, a blinking one every other tick, and a hidden one never.
pub proof fn blinking_cursors_come_back(grid: GridView)
    ensures
        ({
            let once = ticked(grid);
            let twice = ticked(once);
            let blinks = grid.cursor.visible && grid.cursor.blinking;
            &&& blinks ==> once.cursor_phase != grid.cursor_phase && twice.cursor_phase
                == grid.cursor_phase && once.render_pending && once.dirty.contains(grid.cursor.row)
            &&& !blinks ==> once == grid
            &&& once.cells == grid.cells && once.paint == grid.paint && once.cursor == grid.cursor
            &&& blinks && grid.cursor.row < grid.rows ==> draws_cursor(once) != draws_cursor(twice)
        }),
        rows_to_draw(grid).contains(grid.cursor.row) && grid.cursor.visible
            && !grid.cursor.blinking ==> draws_cursor(grid),
        !grid.cursor.visible ==> !draws_cursor(grid),
        !rows_to_draw(grid).contains(grid.cursor.row) ==> !draws_cursor(grid),
        grid.ime matches Some(ime) ==> (draws_ime(grid) <==> rows_to_draw(grid).contains(ime.row)),
        grid.ime is None ==> !draws_ime(grid),
{
}

} // verus!
