//! What the renderer shows is what the terminal holds, whether it comes in full
//! or in partial frames.

use vstd::prelude::*;
use crate::ordering;
use crate::renderer::grid;
use crate::renderer::grid::{CellPaint, GridView};
use crate::renderer::merging;
use crate::renderer::shaping;
use crate::terminal::frame;
use crate::terminal::frame::{
    CellView,
    DamagedSpan,
    FullRedrawReason,
    GridCell,
    RowView,
    TerminalContent,
};
use crate::terminal::mode::CellFlags;
use crate::terminal::palette::{RgbColor, TerminalTheme};
use crate::terminal::search::{SearchHighlight, SearchMatch, SearchView};

verus! {

/// Whether two cells of the terminal hold the same.
pub open spec fn same_cell(one: GridCell, other: GridCell) -> bool {
    &&& one.character == other.character
    &&& one.zerowidth@ == other.zerowidth@
    &&& one.foreground == other.foreground
    &&& one.background == other.background
    &&& one.flags == other.flags
}

/// Whether the second half of a wide character stands in a column where its first
/// half stands in the column before, and only there.
pub open spec fn whole_at(row: Seq<GridCell>, column: int, columns: int) -> bool {
    let wide = row[column].flags.has(CellFlags::WIDE_CHAR);
    let second = row[column].flags.has(CellFlags::WIDE_CHAR_SPACER);
    &&& wide ==> !second && column + 1 < columns && row[column + 1].flags.has(
        CellFlags::WIDE_CHAR_SPACER,
    )
    &&& second ==> column > 0 && row[column - 1].flags.has(CellFlags::WIDE_CHAR)
}

/// Whether every wide character of a row has both of its halves.
pub open spec fn whole_characters(row: Seq<GridCell>, columns: int) -> bool {
    forall|column: int| 0 <= column < columns ==> #[trigger] whole_at(row, column, columns)
}

/// What is drawn for a row.
pub open spec fn drawn_row(
    row: Seq<GridCell>,
    columns: int,
    overrides: Seq<Option<RgbColor>>,
    theme: TerminalTheme,
) -> Seq<CellView> {
    frame::drawn_cells(row, 0, columns, overrides, theme)
}

/// How a row is painted.
pub open spec fn drawn_paint(cells: Seq<CellView>, columns: int) -> Seq<CellPaint> {
    Seq::new(columns as nat, |column: int| grid::paint_at(cells, column))
}

/// Whether the renderer shows a row of the terminal.
pub open spec fn shows_row(
    view: GridView,
    content: TerminalContent,
    row: int,
    columns: int,
    theme: TerminalTheme,
) -> bool {
    let cells = drawn_row(content.grid@[row]@, columns, content.colors.entries@, theme);
    view.cells[row] == cells && view.paint[row] == drawn_paint(cells, columns)
}

/// Whether the renderer shows what the terminal holds.
pub open spec fn shows(
    view: GridView,
    content: TerminalContent,
    columns: int,
    rows: int,
    theme: TerminalTheme,
) -> bool {
    &&& view.columns == columns
    &&& view.rows == rows
    &&& forall|row: int|
        0 <= row < rows ==> #[trigger] shows_row(view, content, row, columns, theme)
}

/// The spans of a frame, in the order of their rows.
pub open spec fn frame_spans(
    content: TerminalContent,
    columns: int,
    rows: int,
    forced: Option<FullRedrawReason>,
) -> Seq<DamagedSpan> {
    ordering::sorted_by_key(frame::damaged_spans(content, columns, rows, forced))
}

/// Whether a span covers a cell.
pub open spec fn covers(span: DamagedSpan, row: int, column: int) -> bool {
    span.row == row && span.start_column <= column < span.end_column
}

/// Whether one of the spans covers a cell.
pub open spec fn damaged(spans: Seq<DamagedSpan>, row: int, column: int) -> bool {
    exists|i: int| 0 <= i < spans.len() && covers(#[trigger] spans[i], row, column)
}

/// Whether a terminal holds what another one held before, but for damaged cells.
pub open spec fn unchanged_where_undamaged(
    before: TerminalContent,
    after: TerminalContent,
    spans: Seq<DamagedSpan>,
    columns: int,
    rows: int,
) -> bool {
    forall|row: int, column: int|
        0 <= row < rows && 0 <= column < columns && !damaged(spans, row, column) ==> same_cell(
            before.grid@[row]@[column],
            #[trigger] after.grid@[row]@[column],
        )
}

proof fn lemma_same_drawing(
    one: Seq<GridCell>,
    other: Seq<GridCell>,
    from: int,
    to: int,
    overrides: Seq<Option<RgbColor>>,
    theme: TerminalTheme,
)
    requires
        forall|column: int|
            from <= column < to ==> same_cell(one[column], #[trigger] other[column]),
    ensures
        frame::drawn_cells(one, from, to, overrides, theme) == frame::drawn_cells(
            other,
            from,
            to,
            overrides,
            theme,
        ),
    decreases to - from,
{
    if from < to {
        lemma_same_drawing(one, other, from, to - 1, overrides, theme);
        assert(same_cell(one[to - 1], other[to - 1]));
    }
}

proof fn lemma_drawing_in_parts(
    row: Seq<GridCell>,
    from: int,
    middle: int,
    to: int,
    overrides: Seq<Option<RgbColor>>,
    theme: TerminalTheme,
)
    requires
        from <= middle <= to,
    ensures
        frame::drawn_cells(row, from, to, overrides, theme) == frame::drawn_cells(
            row,
            from,
            middle,
            overrides,
            theme,
        ) + frame::drawn_cells(row, middle, to, overrides, theme),
    decreases to - middle,
{
    let left = frame::drawn_cells(row, from, middle, overrides, theme);
    if middle < to {
        lemma_drawing_in_parts(row, from, middle, to - 1, overrides, theme);
        let right = frame::drawn_cells(row, middle, to - 1, overrides, theme);
        let cell = frame::drawn_cell(row[to - 1], to - 1, overrides, theme);
        assert((left + right).push(cell) =~= left + right.push(cell));
    } else {
        assert(left + Seq::<CellView>::empty() =~= left);
    }
}

/// Whether cells ascend strictly within the columns `from..to`.
spec fn climb(cells: Seq<CellView>, from: int, to: int) -> bool {
    &&& forall|i: int| 0 <= i < cells.len() ==> from <= (#[trigger] cells[i]).column < to
    &&& forall|i: int, j: int|
        0 <= i < j < cells.len() ==> (#[trigger] cells[i]).column < (#[trigger] cells[j]).column
}

proof fn lemma_drawing_climbs(
    row: Seq<GridCell>,
    from: int,
    to: int,
    overrides: Seq<Option<RgbColor>>,
    theme: TerminalTheme,
)
    ensures
        climb(frame::drawn_cells(row, from, to, overrides, theme), from, to),
        forall|i: int|
            0 <= i < frame::drawn_cells(row, from, to, overrides, theme).len() ==> {
                let cell = #[trigger] frame::drawn_cells(row, from, to, overrides, theme)[i];
                cell == frame::drawn_cell(row[cell.column], cell.column, overrides, theme)
            },
    decreases to - from,
{
    if from < to {
        lemma_drawing_climbs(row, from, to - 1, overrides, theme);
        let before = frame::drawn_cells(row, from, to - 1, overrides, theme);
        let after = frame::drawn_cells(row, from, to, overrides, theme);
        assert forall|i: int| 0 <= i < after.len() implies from <= (#[trigger] after[i]).column < to
            && after[i] == frame::drawn_cell(
            row[after[i].column],
            after[i].column,
            overrides,
            theme,
        ) by {
            if i < before.len() {
                assert(after[i] == before[i]);
            }
        }
        assert forall|i: int, j: int| 0 <= i < j < after.len() implies (
        #[trigger] after[i]).column < (#[trigger] after[j]).column by {
            assert(after[i] == before[i]);
            if j < before.len() {
                assert(after[j] == before[j]);
            }
        }
    }
}

proof fn lemma_outside_of_parts(one: Seq<CellView>, other: Seq<CellView>, start: int, end: int)
    ensures
        grid::outside(one + other, start, end) == grid::outside(one, start, end) + grid::outside(
            other,
            start,
            end,
        ),
    decreases other.len(),
{
    if other.len() == 0 {
        assert(one + other =~= one);
        assert(grid::outside(one, start, end) + Seq::<CellView>::empty() =~= grid::outside(
            one,
            start,
            end,
        ));
    } else {
        assert((one + other).drop_last() =~= one + other.drop_last());
        assert((one + other).last() == other.last());
        lemma_outside_of_parts(one, other.drop_last(), start, end);
        let left = grid::outside(one, start, end);
        let right = grid::outside(other.drop_last(), start, end);
        assert((left + right).push(other.last()) =~= left + right.push(other.last()));
    }
}

proof fn lemma_all_outside(cells: Seq<CellView>, start: int, end: int)
    requires
        forall|i: int|
            0 <= i < cells.len() ==> grid::cell_end(#[trigger] cells[i]) <= start
                || cells[i].column >= end,
    ensures
        grid::outside(cells, start, end) == cells,
    decreases cells.len(),
{
    if cells.len() > 0 {
        let shorter = cells.drop_last();
        assert forall|i: int| 0 <= i < shorter.len() implies grid::cell_end(#[trigger] shorter[i])
            <= start || shorter[i].column >= end by {
            assert(grid::cell_end(cells[i]) <= start || cells[i].column >= end);
        }
        lemma_all_outside(shorter, start, end);
        assert(grid::cell_end(cells[cells.len() - 1]) <= start || cells[cells.len() - 1].column
            >= end);
        assert(shorter.push(cells.last()) =~= cells);
    } else {
        assert(grid::outside(cells, start, end) =~= cells);
    }
}

proof fn lemma_none_outside(cells: Seq<CellView>, start: int, end: int)
    requires
        forall|i: int|
            0 <= i < cells.len() ==> grid::cell_end(#[trigger] cells[i]) > start
                && cells[i].column < end,
    ensures
        grid::outside(cells, start, end) == Seq::<CellView>::empty(),
    decreases cells.len(),
{
    if cells.len() > 0 {
        let shorter = cells.drop_last();
        assert forall|i: int| 0 <= i < shorter.len() implies grid::cell_end(#[trigger] shorter[i])
            > start && shorter[i].column < end by {
            assert(grid::cell_end(cells[i]) > start && cells[i].column < end);
        }
        lemma_none_outside(shorter, start, end);
        assert(grid::cell_end(cells[cells.len() - 1]) > start);
    }
}

proof fn lemma_inserted_between(low: Seq<CellView>, high: Seq<CellView>, cell: CellView)
    requires
        forall|i: int| 0 <= i < low.len() ==> (#[trigger] low[i]).column <= cell.column,
        forall|i: int| 0 <= i < high.len() ==> (#[trigger] high[i]).column > cell.column,
    ensures
        shaping::cell_inserted(low + high, cell) == low.push(cell) + high,
    decreases high.len(),
{
    if high.len() == 0 {
        assert(low + high =~= low);
        assert(low.push(cell) + high =~= low.push(cell));
        if low.len() > 0 {
            assert(low[low.len() - 1].column <= cell.column);
        }
    } else {
        let shorter = high.drop_last();
        assert((low + high).drop_last() =~= low + shorter);
        assert((low + high).last() == high[high.len() - 1]);
        assert forall|i: int| 0 <= i < shorter.len() implies (#[trigger] shorter[i]).column
            > cell.column by {
            assert(high[i].column > cell.column);
        }
        lemma_inserted_between(low, shorter, cell);
        assert((low.push(cell) + shorter).push(high.last()) =~= low.push(cell) + high);
    }
}

/// Cells that climb are in order, and so are those of three ranges side by side
/// once the middle one, which came last, is in its place.
proof fn lemma_sorted_parts(
    low: Seq<CellView>,
    high: Seq<CellView>,
    middle: Seq<CellView>,
    from: int,
    start: int,
    end: int,
    to: int,
)
    requires
        start <= end,
        climb(low, from, start),
        climb(middle, start, end),
        climb(high, end, to),
    ensures
        shaping::cells_sorted(low + high + middle) == low + middle + high,
    decreases low.len() + high.len() + middle.len(),
{
    if middle.len() > 0 {
        let shorter = middle.drop_last();
        let last = middle.last();
        assert(climb(shorter, start, end)) by {
            assert forall|i: int| 0 <= i < shorter.len() implies start <= (
            #[trigger] shorter[i]).column < end by {
                assert(start <= middle[i].column < end);
            }
            assert forall|i: int, j: int| 0 <= i < j < shorter.len() implies (
            #[trigger] shorter[i]).column < (#[trigger] shorter[j]).column by {
                assert(middle[i].column < middle[j].column);
            }
        }
        lemma_sorted_parts(low, high, shorter, from, start, end, to);
        assert((low + high + middle).drop_last() =~= low + high + shorter);
        assert((low + high + middle).last() == last);
        assert(start <= middle[middle.len() - 1].column < end);
        let below = low + shorter;
        assert forall|i: int| 0 <= i < below.len() implies (#[trigger] below[i]).column
            <= last.column by {
            if i < low.len() {
                assert(low[i].column < start);
            } else {
                assert(middle[i - low.len()].column < middle[middle.len() - 1].column);
            }
        }
        assert forall|i: int| 0 <= i < high.len() implies (#[trigger] high[i]).column
            > last.column by {
            assert(end <= high[i].column);
        }
        lemma_inserted_between(below, high, last);
        assert(below.push(last) + high =~= low + middle + high);
    } else {
        assert(low + high + middle =~= low + high);
        assert(low + middle + high =~= low + high);
        let all = low + high;
        if high.len() > 0 {
            let shorter = high.drop_last();
            assert(climb(shorter, end, to)) by {
                assert forall|i: int| 0 <= i < shorter.len() implies end <= (
                #[trigger] shorter[i]).column < to by {
                    assert(end <= high[i].column < to);
                }
                assert forall|i: int, j: int| 0 <= i < j < shorter.len() implies (
                #[trigger] shorter[i]).column < (#[trigger] shorter[j]).column by {
                    assert(high[i].column < high[j].column);
                }
            }
            lemma_sorted_parts(low, shorter, middle, from, start, end, to);
            assert(all.drop_last() =~= low + shorter);
            assert(low + shorter + middle =~= low + shorter);
            assert(low + middle + shorter =~= low + shorter);
            let last = high.last();
            assert(all.last() == last);
            let below = low + shorter;
            assert(end <= high[high.len() - 1].column);
            assert forall|i: int| 0 <= i < below.len() implies (#[trigger] below[i]).column
                <= last.column by {
                if i < low.len() {
                    assert(low[i].column < start);
                } else {
                    assert(high[i - low.len()].column < high[high.len() - 1].column);
                }
            }
            lemma_inserted_between(below, Seq::empty(), last);
            assert(below + Seq::<CellView>::empty() =~= below);
            assert(below.push(last) + Seq::<CellView>::empty() =~= all);
        } else if low.len() > 0 {
            let shorter = low.drop_last();
            assert(climb(shorter, from, start)) by {
                assert forall|i: int| 0 <= i < shorter.len() implies from <= (
                #[trigger] shorter[i]).column < start by {
                    assert(from <= low[i].column < start);
                }
                assert forall|i: int, j: int| 0 <= i < j < shorter.len() implies (
                #[trigger] shorter[i]).column < (#[trigger] shorter[j]).column by {
                    assert(low[i].column < low[j].column);
                }
            }
            lemma_sorted_parts(shorter, high, middle, from, start, end, to);
            assert(all =~= low);
            assert(all.drop_last() =~= shorter);
            assert(shorter + high + middle =~= shorter);
            assert(shorter + middle + high =~= shorter);
            let last = low.last();
            assert forall|i: int| 0 <= i < shorter.len() implies (#[trigger] shorter[i]).column
                <= last.column by {
                assert(low[i].column < low[low.len() - 1].column);
            }
            lemma_inserted_between(shorter, Seq::empty(), last);
            assert(shorter + Seq::<CellView>::empty() =~= shorter);
            assert(shorter.push(last) + Seq::<CellView>::empty() =~= all);
        } else {
            assert(all =~= Seq::<CellView>::empty());
        }
    }
}

proof fn lemma_paint_of_drawing(
    row: Seq<GridCell>,
    from: int,
    to: int,
    column: int,
    overrides: Seq<Option<RgbColor>>,
    theme: TerminalTheme,
)
    ensures
        grid::paint_at(frame::drawn_cells(row, from, to, overrides, theme), column) == (if from
            <= column < to && !row[column].flags.has(CellFlags::WIDE_CHAR_SPACER) {
            grid::paint_of(frame::drawn_cell(row[column], column, overrides, theme))
        } else {
            grid::no_paint()
        }),
    decreases to - from,
{
    if from < to {
        lemma_paint_of_drawing(row, from, to - 1, column, overrides, theme);
        let before = frame::drawn_cells(row, from, to - 1, overrides, theme);
        let after = frame::drawn_cells(row, from, to, overrides, theme);
        if !row[to - 1].flags.has(CellFlags::WIDE_CHAR_SPACER) {
            assert(after.drop_last() =~= before);
        }
    }
}

/// A row that was shown, with a patch of the columns in which it changed, is
/// shown as it is now.
proof fn lemma_patched_row(
    before: Seq<GridCell>,
    after: Seq<GridCell>,
    start: int,
    end: int,
    columns: int,
    overrides: Seq<Option<RgbColor>>,
    theme: TerminalTheme,
)
    requires
        0 <= start < end <= columns <= usize::MAX,
        whole_characters(before, columns),
        whole_characters(after, columns),
        !after[start].flags.has(CellFlags::WIDE_CHAR_SPACER),
        forall|column: int|
            0 <= column < columns && !(start <= column < end) ==> same_cell(
                before[column],
                #[trigger] after[column],
            ),
    ensures
        ({
            let shown = drawn_row(before, columns, overrides, theme);
            let part = frame::drawn_cells(after, start, end, overrides, theme);
            let wanted = drawn_row(after, columns, overrides, theme);
            &&& grid::merged_row(shown, start, end, part) == wanted
            &&& grid::painted(drawn_paint(shown, columns), start, end, part) == drawn_paint(
                wanted,
                columns,
            )
        }),
{
    let shown = drawn_row(before, columns, overrides, theme);
    let part = frame::drawn_cells(after, start, end, overrides, theme);
    let wanted = drawn_row(after, columns, overrides, theme);
    let low = frame::drawn_cells(before, 0, start, overrides, theme);
    let old_part = frame::drawn_cells(before, start, end, overrides, theme);
    let high = frame::drawn_cells(before, end, columns, overrides, theme);
    lemma_drawing_in_parts(before, 0, start, columns, overrides, theme);
    lemma_drawing_in_parts(before, start, end, columns, overrides, theme);
    lemma_drawing_in_parts(after, 0, start, columns, overrides, theme);
    lemma_drawing_in_parts(after, start, end, columns, overrides, theme);
    assert(shown == low + (old_part + high));
    lemma_same_drawing(before, after, 0, start, overrides, theme);
    lemma_same_drawing(before, after, end, columns, overrides, theme);
    assert(wanted == low + (part + high));
    lemma_drawing_climbs(before, 0, start, overrides, theme);
    lemma_drawing_climbs(before, start, end, overrides, theme);
    lemma_drawing_climbs(before, end, columns, overrides, theme);
    lemma_drawing_climbs(after, start, end, overrides, theme);
    assert forall|i: int| 0 <= i < low.len() implies grid::cell_end(#[trigger] low[i]) <= start
        || low[i].column >= end by {
        let column = low[i].column;
        assert(low[i] == frame::drawn_cell(before[column], column, overrides, theme));
        assert(whole_at(before, column, columns));
        if column == start - 1 && before[column].flags.has(CellFlags::WIDE_CHAR) {
            assert(same_cell(before[column], after[column]));
            assert(whole_at(after, column, columns));
        }
    }
    lemma_all_outside(low, start, end);
    assert forall|i: int| 0 <= i < old_part.len() implies grid::cell_end(#[trigger] old_part[i])
        > start && old_part[i].column < end by {
        let column = old_part[i].column;
        assert(old_part[i] == frame::drawn_cell(before[column], column, overrides, theme));
    }
    lemma_none_outside(old_part, start, end);
    lemma_all_outside(high, start, end);
    lemma_outside_of_parts(low, old_part + high, start, end);
    lemma_outside_of_parts(old_part, high, start, end);
    assert(Seq::<CellView>::empty() + high =~= high);
    assert(grid::outside(shown, start, end) == low + high);
    lemma_sorted_parts(low, high, part, 0, start, end, columns);
    assert(low + part + high =~= low + (part + high));
    let left = grid::painted(drawn_paint(shown, columns), start, end, part);
    let right = drawn_paint(wanted, columns);
    assert forall|column: int| 0 <= column < columns implies left[column] == right[column] by {
        lemma_paint_of_drawing(before, 0, columns, column, overrides, theme);
        lemma_paint_of_drawing(after, 0, columns, column, overrides, theme);
        lemma_paint_of_drawing(after, start, end, column, overrides, theme);
        if !(start <= column < end) {
            assert(same_cell(before[column], after[column]));
        }
    }
    assert(left =~= right);
}

/// A row that is drawn in full is shown, whatever was shown before.
proof fn lemma_whole_row(
    cached: Seq<CellView>,
    paint: Seq<CellPaint>,
    row: Seq<GridCell>,
    columns: int,
    overrides: Seq<Option<RgbColor>>,
    theme: TerminalTheme,
)
    requires
        0 <= columns <= usize::MAX,
        paint.len() == columns,
        grid::on_grid(cached, columns),
    ensures
        ({
            let wanted = drawn_row(row, columns, overrides, theme);
            &&& grid::merged_row(cached, 0, columns, wanted) == wanted
            &&& grid::painted(paint, 0, columns, wanted) == drawn_paint(wanted, columns)
            &&& grid::on_grid(wanted, columns)
        }),
{
    let wanted = drawn_row(row, columns, overrides, theme);
    let none = Seq::<CellView>::empty();
    grid::full_rows_forget_the_past(cached, paint, paint, columns, wanted);
    lemma_drawing_climbs(row, 0, columns, overrides, theme);
    lemma_sorted_parts(none, none, wanted, 0, 0, columns, columns);
    assert(none + none + wanted =~= wanted);
    assert(none + wanted + none =~= wanted);
    assert(grid::painted(paint, 0, columns, wanted) =~= drawn_paint(wanted, columns));
}

/// The patches of a full frame, and what they draw.
proof fn lemma_full_patches(
    content: TerminalContent,
    columns: usize,
    rows: usize,
    count: int,
    theme: TerminalTheme,
)
    requires
        content.well_formed(columns as int, rows as int),
        columns > 0,
        0 <= count <= rows,
    ensures
        ({
            let patches = frame::row_patches(
                content.grid@,
                frame::whole_screen(columns as int, rows as int).take(count),
                columns as int,
                content.colors.entries@,
                theme,
            );
            &&& patches.len() == count
            &&& forall|row: int|
                0 <= row < count ==> #[trigger] patches[row] == (RowView {
                    row,
                    start_column: 0,
                    end_column: columns as int,
                    cells: drawn_row(
                        content.grid@[row]@,
                        columns as int,
                        content.colors.entries@,
                        theme,
                    ),
                })
        }),
    decreases count,
{
    if count > 0 {
        lemma_full_patches(content, columns, rows, count - 1, theme);
        let spans = frame::whole_screen(columns as int, rows as int);
        assert(spans.take(count).drop_last() =~= spans.take(count - 1));
        assert(spans.take(count).last() == spans[count - 1]);
    }
}

proof fn lemma_full_rows_shown(
    view: GridView,
    content: TerminalContent,
    columns: usize,
    rows: usize,
    patches: Seq<RowView>,
    count: int,
    theme: TerminalTheme,
)
    requires
        view.valid(),
        grid::rows_on_grid(view),
        view.columns == columns,
        view.rows == rows,
        columns > 0,
        0 <= count <= rows,
        patches.len() == rows,
        forall|row: int|
            0 <= row < rows ==> #[trigger] patches[row] == (RowView {
                row,
                start_column: 0,
                end_column: columns as int,
                cells: drawn_row(
                    content.grid@[row]@,
                    columns as int,
                    content.colors.entries@,
                    theme,
                ),
            }),
    ensures
        ({
            let after = grid::with_rows(view, patches.take(count));
            &&& after.valid()
            &&& grid::rows_on_grid(after)
            &&& after.columns == columns
            &&& after.rows == rows
            &&& forall|row: int|
                0 <= row < count ==> #[trigger] shows_row(
                    after,
                    content,
                    row,
                    columns as int,
                    theme,
                )
        }),
    decreases count,
{
    if count > 0 {
        lemma_full_rows_shown(view, content, columns, rows, patches, count - 1, theme);
        assert(patches.take(count).drop_last() =~= patches.take(count - 1));
        assert(patches.take(count).last() == patches[count - 1]);
        let before = grid::with_rows(view, patches.take(count - 1));
        let patch = patches[count - 1];
        let after = grid::with_row(before, patch);
        assert(grid::on_grid(before.cells[count - 1], columns as int));
        assert(before.paint[count - 1].len() == columns);
        lemma_whole_row(
            before.cells[count - 1],
            before.paint[count - 1],
            content.grid@[count - 1]@,
            columns as int,
            content.colors.entries@,
            theme,
        );
        assert forall|row: int| 0 <= row < count implies #[trigger] shows_row(
            after,
            content,
            row,
            columns as int,
            theme,
        ) by {
            if row < count - 1 {
                assert(shows_row(before, content, row, columns as int, theme));
            }
        }
        assert forall|row: int| 0 <= row < after.cells.len() implies grid::on_grid(
            #[trigger] after.cells[row],
            after.columns,
        ) by {
            if row != count - 1 {
                assert(grid::on_grid(before.cells[row], before.columns));
            }
        }
        assert forall|row: int| 0 <= row < after.rows implies (#[trigger] after.paint[row]).len()
            == after.columns by {
            if row != count - 1 {
                assert(before.paint[row].len() == before.columns);
            }
        }
    } else {
        assert(patches.take(0) =~= Seq::<RowView>::empty());
    }
}

/// After a full frame the renderer shows what the terminal holds, whatever it
/// showed before.
pub proof fn full_frames_show_the_terminal(
    view: GridView,
    content: TerminalContent,
    columns: usize,
    rows: usize,
    generation: u64,
    forced: Option<FullRedrawReason>,
    theme: TerminalTheme,
    search: SearchView,
    matches: Seq<(SearchMatch, SearchHighlight)>,
)
    requires
        view.valid(),
        grid::rows_on_grid(view),
        content.well_formed(columns as int, rows as int),
        columns > 0,
        frame::redraw_reason(forced, content.damage) is Some,
    ensures
        ({
            let patch = frame::captured_frame(
                content,
                columns as int,
                rows as int,
                generation,
                forced,
                theme,
                search,
                matches,
            );
            &&& grid::acceptable(view, patch)
            &&& shows(
                grid::with_frame(view, patch),
                content,
                columns as int,
                rows as int,
                theme,
            )
        }),
{
    let patch = frame::captured_frame(
        content,
        columns as int,
        rows as int,
        generation,
        forced,
        theme,
        search,
        matches,
    );
    let spans = frame::whole_screen(columns as int, rows as int);
    ordering::sort_keeps_ascending(spans);
    lemma_full_patches(content, columns, rows, rows as int, theme);
    assert(spans.take(rows as int) =~= spans);
    let ready = grid::ready_for(view, patch);
    grid::lemma_ready(view, patch);
    let patches = patch.changed_rows;
    assert(forall|row: int|
        0 <= row < rows ==> (#[trigger] patches[row]).row == row && patches[row].start_column == 0
            && patches[row].end_column == columns);
    lemma_full_rows_shown(ready, content, columns, rows, patches, rows as int, theme);
    assert(patches.take(rows as int) =~= patches);
    merging::lemma_frame_content(view, patch);
    let after = grid::with_frame(view, patch);
    let drawn = grid::with_rows(ready, patches);
    assert forall|row: int| 0 <= row < rows implies #[trigger] shows_row(
        after,
        content,
        row,
        columns as int,
        theme,
    ) by {
        assert(shows_row(drawn, content, row, columns as int, theme));
    }
}

/// Whether no row has two spans.
pub open spec fn one_span_a_row(spans: Seq<DamagedSpan>) -> bool {
    forall|i: int, j: int|
        0 <= i < j < spans.len() ==> (#[trigger] spans[i]).row != (#[trigger] spans[j]).row
}

/// Whether one of the spans has cells of a row.
spec fn touched(spans: Seq<DamagedSpan>, row: int) -> bool {
    exists|i: int|
        0 <= i < spans.len() && (#[trigger] spans[i]).row == row && spans[i].start_column
            < spans[i].end_column
}

/// Whether a row is shown as it is now where a span touches it, else as it was.
spec fn shows_now(
    view: GridView,
    before: TerminalContent,
    after: TerminalContent,
    spans: Seq<DamagedSpan>,
    row: int,
    columns: int,
    theme: TerminalTheme,
) -> bool {
    shows_row(
        view,
        if touched(spans, row) {
            after
        } else {
            before
        },
        row,
        columns,
        theme,
    )
}

/// Whether every wide character on the screen has both of its halves.
pub open spec fn whole_screen_characters(content: TerminalContent, columns: int, rows: int) -> bool {
    forall|row: int|
        0 <= row < rows ==> whole_characters(#[trigger] content.grid@[row]@, columns)
}

/// The range of a patch starts on no second half and holds all of its span.
proof fn lemma_patch_range(row: Seq<GridCell>, start: int, end: int, columns: int)
    requires
        0 <= start < end <= columns,
        whole_characters(row, columns),
    ensures
        ({
            let (from, to) = frame::expanded(row, start, end - 1, columns);
            &&& 0 <= from <= start
            &&& end <= to <= columns
            &&& !row[from].flags.has(CellFlags::WIDE_CHAR_SPACER)
        }),
{
    assert(whole_at(row, start, columns));
    assert(whole_at(row, end - 1, columns));
    if start > 0 {
        assert(whole_at(row, start - 1, columns));
    }
}

proof fn lemma_partial_rows_shown(
    view: GridView,
    before: TerminalContent,
    after: TerminalContent,
    columns: usize,
    rows: usize,
    spans: Seq<DamagedSpan>,
    count: int,
    theme: TerminalTheme,
)
    requires
        view.valid(),
        shows(view, before, columns as int, rows as int, theme),
        columns > 0,
        0 <= count <= spans.len(),
        before.colors.entries@ == after.colors.entries@,
        whole_screen_characters(before, columns as int, rows as int),
        whole_screen_characters(after, columns as int, rows as int),
        one_span_a_row(spans),
        unchanged_where_undamaged(before, after, spans, columns as int, rows as int),
        forall|i: int|
            0 <= i < spans.len() ==> frame::on_screen(
                #[trigger] spans[i],
                columns as int,
                rows as int,
            ),
    ensures
        ({
            let patches = frame::row_patches(
                after.grid@,
                spans.take(count),
                columns as int,
                after.colors.entries@,
                theme,
            );
            let drawn = grid::with_rows(view, patches);
            &&& drawn.columns == columns
            &&& drawn.rows == rows
            &&& drawn.cells.len() == rows
            &&& drawn.paint.len() == rows
            &&& forall|row: int|
                0 <= row < rows ==> #[trigger] shows_now(
                    drawn,
                    before,
                    after,
                    spans.take(count),
                    row,
                    columns as int,
                    theme,
                )
        }),
    decreases count,
{
    let overrides = after.colors.entries@;
    let earlier_spans = spans.take(count - 1);
    let all_spans = spans.take(count);
    if count > 0 {
        lemma_partial_rows_shown(
            view,
            before,
            after,
            columns,
            rows,
            spans,
            count - 1,
            theme,
        );
        assert(all_spans.drop_last() =~= earlier_spans);
        let span = spans[count - 1];
        assert(all_spans.last() == span);
        assert(frame::on_screen(span, columns as int, rows as int));
        let earlier = frame::row_patches(
            after.grid@,
            earlier_spans,
            columns as int,
            overrides,
            theme,
        );
        let patches = frame::row_patches(after.grid@, all_spans, columns as int, overrides, theme);
        let between = grid::with_rows(view, earlier);
        let drawn = grid::with_rows(view, patches);
        let place = span.row as int;
        assert forall|row: int| 0 <= row < rows && row != place implies touched(all_spans, row)
            == touched(earlier_spans, row) by {
            if touched(all_spans, row) {
                let i = choose|i: int|
                    0 <= i < all_spans.len() && (#[trigger] all_spans[i]).row == row
                        && all_spans[i].start_column < all_spans[i].end_column;
                assert(i < count - 1);
                assert(earlier_spans[i] == all_spans[i]);
            }
            if touched(earlier_spans, row) {
                let i = choose|i: int|
                    0 <= i < earlier_spans.len() && (#[trigger] earlier_spans[i]).row == row
                        && earlier_spans[i].start_column < earlier_spans[i].end_column;
                assert(all_spans[i] == earlier_spans[i]);
            }
        }
        assert(!touched(earlier_spans, place)) by {
            if touched(earlier_spans, place) {
                let i = choose|i: int|
                    0 <= i < earlier_spans.len() && (#[trigger] earlier_spans[i]).row == place
                        && earlier_spans[i].start_column < earlier_spans[i].end_column;
                assert(earlier_spans[i] == spans[i]);
                assert(spans[i].row != spans[count - 1].row);
            }
        }
        assert(touched(all_spans, place) == (span.start_column < span.end_column)) by {
            if span.start_column < span.end_column {
                assert(all_spans[count - 1] == span);
            }
            if touched(all_spans, place) {
                let i = choose|i: int|
                    0 <= i < all_spans.len() && (#[trigger] all_spans[i]).row == place
                        && all_spans[i].start_column < all_spans[i].end_column;
                if i < count - 1 {
                    assert(earlier_spans[i] == all_spans[i]);
                }
            }
        }
        if span.start_column < span.end_column {
            let patch = frame::row_patch(after.grid@, span, columns as int, overrides, theme);
            assert(patches == earlier.push(patch));
            assert(patches.drop_last() =~= earlier);
            assert(drawn == grid::with_row(between, patch));
            let old_row = before.grid@[place]@;
            let new_row = after.grid@[place]@;
            assert(whole_characters(old_row, columns as int));
            assert(whole_characters(new_row, columns as int));
            lemma_patch_range(
                new_row,
                span.start_column as int,
                span.end_column as int,
                columns as int,
            );
            let (from, to) = frame::expanded(
                new_row,
                span.start_column as int,
                span.end_column - 1,
                columns as int,
            );
            assert forall|column: int| 0 <= column < columns && !(from <= column
                < to) implies same_cell(old_row[column], #[trigger] new_row[column]) by {
                if damaged(spans, place, column) {
                    let i = choose|i: int|
                        0 <= i < spans.len() && covers(#[trigger] spans[i], place, column);
                    if i < count - 1 {
                        assert(spans[i].row != spans[count - 1].row);
                    } else if i > count - 1 {
                        assert(spans[count - 1].row != spans[i].row);
                    }
                }
                assert(same_cell(
                    before.grid@[place]@[column],
                    after.grid@[place]@[column],
                ));
            }
            lemma_patched_row(old_row, new_row, from, to, columns as int, overrides, theme);
            assert(shows_now(
                between,
                before,
                after,
                earlier_spans,
                place,
                columns as int,
                theme,
            ));
            assert(shows_row(between, before, place, columns as int, theme));
            assert(grid::touches(between, patch));
            assert forall|row: int| 0 <= row < rows implies #[trigger] shows_now(
                drawn,
                before,
                after,
                all_spans,
                row,
                columns as int,
                theme,
            ) by {
                if row != place {
                    assert(shows_now(
                        between,
                        before,
                        after,
                        earlier_spans,
                        row,
                        columns as int,
                        theme,
                    ));
                }
            }
        } else {
            assert(patches == earlier);
            assert forall|row: int| 0 <= row < rows implies #[trigger] shows_now(
                drawn,
                before,
                after,
                all_spans,
                row,
                columns as int,
                theme,
            ) by {
                assert(shows_now(
                    between,
                    before,
                    after,
                    earlier_spans,
                    row,
                    columns as int,
                    theme,
                ));
            }
        }
    } else {
        assert(all_spans =~= Seq::<DamagedSpan>::empty());
        assert forall|row: int| 0 <= row < rows implies #[trigger] shows_now(
            view,
            before,
            after,
            all_spans,
            row,
            columns as int,
            theme,
        ) by {
            assert(shows_row(view, before, row, columns as int, theme));
        }
    }
}

/// After a partial frame the renderer shows what the terminal holds, where it
/// showed what the terminal held before and the terminal reports what changed
/// since: partial frames and full frames give the same picture.
pub proof fn partial_frames_show_the_terminal(
    view: GridView,
    before: TerminalContent,
    after: TerminalContent,
    columns: usize,
    rows: usize,
    generation: u64,
    theme: TerminalTheme,
    search: SearchView,
    matches: Seq<(SearchMatch, SearchHighlight)>,
)
    requires
        view.valid(),
        view.generation == Some(generation),
        shows(view, before, columns as int, rows as int, theme),
        after.well_formed(columns as int, rows as int),
        columns > 0,
        after.damage is Partial,
        before.colors.entries@ == after.colors.entries@,
        whole_screen_characters(before, columns as int, rows as int),
        whole_screen_characters(after, columns as int, rows as int),
        one_span_a_row(frame_spans(after, columns as int, rows as int, None)),
        unchanged_where_undamaged(
            before,
            after,
            frame_spans(after, columns as int, rows as int, None),
            columns as int,
            rows as int,
        ),
    ensures
        ({
            let patch = frame::captured_frame(
                after,
                columns as int,
                rows as int,
                generation,
                None,
                theme,
                search,
                matches,
            );
            &&& grid::acceptable(view, patch)
            &&& shows(grid::with_frame(view, patch), after, columns as int, rows as int, theme)
        }),
{
    let spans = frame_spans(after, columns as int, rows as int, None);
    let patch = frame::captured_frame(
        after,
        columns as int,
        rows as int,
        generation,
        None,
        theme,
        search,
        matches,
    );
    let reported = frame::damaged_spans(after, columns as int, rows as int, None);
    frame::damage_stays_on_screen(after, columns, rows, None);
    ordering::sort_keeps_members(reported);
    assert forall|i: int| 0 <= i < spans.len() implies frame::on_screen(
        #[trigger] spans[i],
        columns as int,
        rows as int,
    ) by {
        assert(reported.contains(spans[i]));
    }
    let ready = grid::ready_for(view, patch);
    assert(shows(ready, before, columns as int, rows as int, theme)) by {
        assert forall|row: int| 0 <= row < rows implies #[trigger] shows_row(
            ready,
            before,
            row,
            columns as int,
            theme,
        ) by {
            assert(shows_row(view, before, row, columns as int, theme));
        }
    }
    lemma_partial_rows_shown(
        ready,
        before,
        after,
        columns,
        rows,
        spans,
        spans.len() as int,
        theme,
    );
    assert(spans.take(spans.len() as int) =~= spans);
    merging::lemma_frame_content(view, patch);
    let drawn = grid::with_rows(ready, patch.changed_rows);
    let shown = grid::with_frame(view, patch);
    assert forall|row: int| 0 <= row < rows implies #[trigger] shows_row(
        shown,
        after,
        row,
        columns as int,
        theme,
    ) by {
        assert(shows_now(drawn, before, after, spans, row, columns as int, theme));
        if !touched(spans, row) {
            let old_row = before.grid@[row]@;
            let new_row = after.grid@[row]@;
            assert forall|column: int| 0 <= column < columns implies same_cell(
                old_row[column],
                #[trigger] new_row[column],
            ) by {
                if damaged(spans, row, column) {
                    let i = choose|i: int|
                        0 <= i < spans.len() && covers(#[trigger] spans[i], row, column);
                    assert(spans[i].row == row && spans[i].start_column < spans[i].end_column);
                }
                assert(same_cell(before.grid@[row]@[column], after.grid@[row]@[column]));
            }
            lemma_same_drawing(
                old_row,
                new_row,
                0,
                columns as int,
                after.colors.entries@,
                theme,
            );
        }
    }
}

} // verus!
