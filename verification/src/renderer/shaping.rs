//! Text runs, the columns of shaped clusters, and the text of an input method.

use vstd::prelude::*;
use vstd::string::*;
use crate::ordering;
use crate::ordering::Keyed;
use crate::terminal::frame;
use crate::terminal::frame::{CellView, TerminalCellPatch};
use crate::terminal::palette::RgbColor;
use crate::text;

use unicode_segmentation::UnicodeSegmentation;
use unicode_width::UnicodeWidthStr;

verus! {

/// Whether a glyph is drawn for a cell.
pub open spec fn has_glyph(cell: CellView, columns: int) -> bool {
    cell.column < columns && !cell.hidden && !cell.blank()
}

/// The cells for which glyphs are drawn.
pub open spec fn with_glyphs(cells: Seq<CellView>, columns: int) -> Seq<CellView>
    decreases cells.len(),
{
    if cells.len() == 0 {
        Seq::empty()
    } else if has_glyph(cells.last(), columns) {
        with_glyphs(cells.drop_last(), columns).push(cells.last())
    } else {
        with_glyphs(cells.drop_last(), columns)
    }
}

/// The cells for which glyphs are drawn.
pub fn glyph_cells(columns: usize, cells: &Vec<TerminalCellPatch>) -> (drawn: Vec<TerminalCellPatch>)
    ensures
        frame::cell_views(drawn@) == with_glyphs(frame::cell_views(cells@), columns as int),
{
    let ghost all = frame::cell_views(cells@);
    let mut drawn: Vec<TerminalCellPatch> = Vec::new();
    let mut index: usize = 0;
    assert(frame::cell_views(drawn@) == with_glyphs(all.take(0), columns as int));
    while index < cells.len()
        invariant
            index <= cells@.len(),
            all == frame::cell_views(cells@),
            frame::cell_views(drawn@) == with_glyphs(all.take(index as int), columns as int),
        decreases cells.len() - index,
    {
        let cell: &TerminalCellPatch = &cells[index];
        proof {
            assert(all.take(index + 1).drop_last() == all.take(index as int));
            assert(all.take(index + 1).last() == cell@);
        }
        if cell.column < columns && !cell.hidden && !cell.is_blank() {
            let ghost before = frame::cell_views(drawn@);
            drawn.push(cell.copy());
            assert(frame::cell_views(drawn@) == before.push(cell@));
        }
        index += 1;
    }
    assert(all.take(index as int) == all);
    drawn
}

/// Whether two cells have the same glyph in the same place.
pub open spec fn same_glyph(left: CellView, right: CellView) -> bool {
    left.column == right.column && left.width_in_columns == right.width_in_columns && left.bold
        == right.bold && left.italic == right.italic && left.foreground == right.foreground
        && left.character == right.character && left.zerowidth == right.zerowidth
}

/// Whether two rows have the same glyphs in the same places.
pub open spec fn same_glyphs(left: Seq<CellView>, right: Seq<CellView>) -> bool {
    left.len() == right.len() && forall|i: int|
        0 <= i < left.len() ==> same_glyph(#[trigger] left[i], right[i])
}

fn same_marks(left: &Option<Vec<char>>, right: &Option<Vec<char>>) -> (same: bool)
    ensures
        same == (frame::marks(*left) == frame::marks(*right)),
{
    match (left, right) {
        (Some(one), Some(other)) => {
            if one.len() != other.len() {
                return false;
            }
            let mut index: usize = 0;
            while index < one.len()
                invariant
                    index <= one@.len(),
                    one@.len() == other@.len(),
                    *left == Some(*one),
                    *right == Some(*other),
                    forall|i: int| 0 <= i < index ==> one@[i] == other@[i],
                decreases one.len() - index,
            {
                if one[index] != other[index] {
                    assert(one@[index as int] != other@[index as int]);
                    return false;
                }
                index += 1;
            }
            assert(one@ == other@);
            true
        },
        (None, None) => true,
        _ => false,
    }
}

fn cells_share_glyph(left: &TerminalCellPatch, right: &TerminalCellPatch) -> (same: bool)
    ensures
        same == same_glyph(left@, right@),
{
    left.column == right.column && left.width_in_columns == right.width_in_columns && left.bold
        == right.bold && left.italic == right.italic && left.foreground == right.foreground
        && left.character == right.character && same_marks(&left.zerowidth, &right.zerowidth)
}

/// Whether two rows have the same glyphs, so that nothing has to be shaped anew.
pub fn same_glyph_content(
    columns: usize,
    previous: &Vec<TerminalCellPatch>,
    next: &Vec<TerminalCellPatch>,
) -> (same: bool)
    ensures
        same == same_glyphs(
            with_glyphs(frame::cell_views(previous@), columns as int),
            with_glyphs(frame::cell_views(next@), columns as int),
        ),
{
    let before = glyph_cells(columns, previous);
    let after = glyph_cells(columns, next);
    let ghost left = frame::cell_views(before@);
    let ghost right = frame::cell_views(after@);
    if before.len() != after.len() {
        assert(left.len() != right.len());
        return false;
    }
    let mut index: usize = 0;
    while index < before.len()
        invariant
            index <= before@.len(),
            before@.len() == after@.len(),
            left == frame::cell_views(before@),
            right == frame::cell_views(after@),
            left == with_glyphs(frame::cell_views(previous@), columns as int),
            right == with_glyphs(frame::cell_views(next@), columns as int),
            forall|i: int| 0 <= i < index ==> same_glyph(#[trigger] left[i], right[i]),
        decreases before.len() - index,
    {
        if !cells_share_glyph(&before[index], &after[index]) {
            assert(!same_glyph(left[index as int], right[index as int]));
            return false;
        }
        assert(same_glyph(left[index as int], right[index as int]));
        index += 1;
    }
    true
}

/// Neighbouring cells of one style, which are shaped together.
#[derive(Debug)]
pub struct TextRun {
    pub text: String,
    pub cells: Vec<TerminalCellPatch>,
    pub bold: bool,
    pub italic: bool,
}

/// What a `TextRun` holds.
#[verifier::ext_equal]
pub struct RunView {
    pub text: Seq<char>,
    pub cells: Seq<CellView>,
    pub bold: bool,
    pub italic: bool,
}

impl View for TextRun {
    type V = RunView;

    open spec fn view(&self) -> RunView {
        RunView {
            text: self.text@,
            cells: frame::cell_views(self.cells@),
            bold: self.bold,
            italic: self.italic,
        }
    }
}

/// What a list of runs holds.
pub open spec fn run_views(runs: Seq<TextRun>) -> Seq<RunView> {
    runs.map_values(|run: TextRun| run@)
}

/// The characters of a cell.
pub open spec fn cell_text(cell: CellView) -> Seq<char> {
    match cell.zerowidth {
        Some(marks) => seq![cell.character] + marks,
        None => seq![cell.character],
    }
}

/// A cell that takes at least one column and none beyond the last.
pub open spec fn fitted(cell: CellView, columns: int) -> CellView {
    let width = if cell.width_in_columns < 1 {
        1
    } else {
        cell.width_in_columns
    };
    CellView { width_in_columns: frame::least(width, columns - cell.column), ..cell }
}

/// Whether a cell goes on with the last run: the style is the same, and the run
/// ends where the cell starts.
pub open spec fn continues(runs: Seq<RunView>, cell: CellView) -> bool {
    runs.len() > 0 && runs.last().bold == cell.bold && runs.last().italic == cell.italic
        && runs.last().cells.len() > 0 && runs.last().cells.last().column
        + runs.last().cells.last().width_in_columns == cell.column
}

/// The runs with one more cell.
pub open spec fn with_cell(runs: Seq<RunView>, cell: CellView, columns: int) -> Seq<RunView> {
    let base = if continues(runs, cell) {
        runs
    } else {
        runs.push(
            RunView {
                text: Seq::empty(),
                cells: Seq::empty(),
                bold: cell.bold,
                italic: cell.italic,
            },
        )
    };
    let last = base.last();
    base.drop_last().push(
        RunView {
            text: last.text + cell_text(cell),
            cells: last.cells.push(fitted(cell, columns)),
            ..last
        },
    )
}

/// The runs of some cells.
pub open spec fn runs_of(cells: Seq<CellView>, columns: int) -> Seq<RunView>
    decreases cells.len(),
{
    if cells.len() == 0 {
        Seq::empty()
    } else {
        with_cell(runs_of(cells.drop_last(), columns), cells.last(), columns)
    }
}

/// Joins the cells of a row into runs. Colours do not divide a run, styles do.
pub fn build_text_runs(columns: usize, cells: &Vec<TerminalCellPatch>) -> (runs: Vec<TextRun>)
    ensures
        run_views(runs@) == runs_of(
            with_glyphs(frame::cell_views(cells@), columns as int),
            columns as int,
        ),
{
    let drawn = glyph_cells(columns, cells);
    let ghost all = frame::cell_views(drawn@);
    proof {
        lemma_glyph_columns(frame::cell_views(cells@), columns as int);
    }
    let mut runs: Vec<TextRun> = Vec::new();
    let mut index: usize = 0;
    assert(run_views(runs@) == runs_of(all.take(0), columns as int));
    while index < drawn.len()
        invariant
            index <= drawn@.len(),
            all == frame::cell_views(drawn@),
            forall|i: int| 0 <= i < all.len() ==> (#[trigger] all[i]).column < columns,
            run_views(runs@) == runs_of(all.take(index as int), columns as int),
            forall|i: int, j: int|
                0 <= i < runs@.len() && 0 <= j < runs@[i].cells@.len() ==> (
                #[trigger] runs@[i].cells@[j]).column + runs@[i].cells@[j].width_in_columns
                    <= columns,
        decreases drawn.len() - index,
    {
        let cell: &TerminalCellPatch = &drawn[index];
        let ghost before = run_views(runs@);
        proof {
            assert(all.take(index + 1).drop_last() == all.take(index as int));
            assert(all.take(index + 1).last() == cell@);
            assert(all[index as int] == cell@);
        }
        let merge = if runs.len() > 0 {
            let last: &TextRun = &runs[runs.len() - 1];
            assert(before.last() == last@);
            if last.bold == cell.bold && last.italic == cell.italic && last.cells.len() > 0 {
                let end: &TerminalCellPatch = &last.cells[last.cells.len() - 1];
                assert(last@.cells.last() == end@);
                assert(runs@[runs@.len() - 1].cells@[last.cells@.len() - 1].column
                    + runs@[runs@.len() - 1].cells@[last.cells@.len() - 1].width_in_columns
                    <= columns);
                end.column + end.width_in_columns == cell.column
            } else {
                false
            }
        } else {
            false
        };
        assert(merge == continues(before, cell@));
        let mut run = if merge {
            match runs.pop() {
                Some(run) => run,
                None => TextRun {
                    text: String::new(),
                    cells: Vec::new(),
                    bold: cell.bold,
                    italic: cell.italic,
                },
            }
        } else {
            TextRun {
                text: String::new(),
                cells: Vec::new(),
                bold: cell.bold,
                italic: cell.italic,
            }
        };
        let ghost base = run@;
        proof {
            if merge {
                assert(run_views(runs@) == before.drop_last());
                assert(base == before.last());
            } else {
                assert(run_views(runs@) == before);
                assert(base.cells =~= Seq::<CellView>::empty());
                assert(base.text =~= Seq::<char>::empty());
                let longer = before.push(base);
                assert(longer.drop_last() == before);
                assert(longer.last() == base);
            }
        }
        run.text.push(cell.character);
        if let Some(list) = &cell.zerowidth {
            let shown = text::string_of(list, 0, list.len());
            assert(shown@ == list@);
            run.text.append(shown.as_str());
            assert(run.text@ == base.text + cell_text(cell@));
        } else {
            assert(run.text@ == base.text + cell_text(cell@));
        }
        let mut kept = cell.copy();
        if kept.width_in_columns < 1 {
            kept.width_in_columns = 1;
        }
        if kept.width_in_columns > columns - kept.column {
            kept.width_in_columns = columns - kept.column;
        }
        let ghost kept_view = kept@;
        assert(kept_view =~= fitted(cell@, columns as int));
        let ghost cells_before = run.cells@;
        run.cells.push(kept);
        assert(frame::cell_views(run.cells@) == base.cells.push(kept_view));
        let ghost view = run@;
        let ghost others = run_views(runs@);
        runs.push(run);
        proof {
            assert(run_views(runs@) == others.push(view));
            assert(run_views(runs@) =~= with_cell(before, cell@, columns as int));
        }
        index += 1;
    }
    assert(all.take(index as int) == all);
    runs
}

proof fn lemma_glyph_columns(cells: Seq<CellView>, columns: int)
    ensures
        forall|i: int|
            0 <= i < with_glyphs(cells, columns).len() ==> (#[trigger] with_glyphs(
                cells,
                columns,
            )[i]).column < columns,
    decreases cells.len(),
{
    if cells.len() > 0 {
        lemma_glyph_columns(cells.drop_last(), columns);
        let before = with_glyphs(cells.drop_last(), columns);
        let all = with_glyphs(cells, columns);
        assert forall|i: int| 0 <= i < all.len() implies (#[trigger] all[i]).column < columns by {
            if i < before.len() {
                assert(all[i] == before[i]);
            }
        }
    }
}

/// The characters of a list of cells, one cell after another.
pub open spec fn cells_text(cells: Seq<CellView>) -> Seq<char>
    decreases cells.len(),
{
    if cells.len() == 0 {
        Seq::empty()
    } else {
        cells_text(cells.drop_last()) + cell_text(cells.last())
    }
}

/// The text of a list of runs, one run after another.
pub open spec fn runs_text(runs: Seq<RunView>) -> Seq<char>
    decreases runs.len(),
{
    if runs.len() == 0 {
        Seq::empty()
    } else {
        runs_text(runs.drop_last()) + runs.last().text
    }
}

/// Joining cells into runs neither loses nor adds nor moves a character.
pub proof fn runs_keep_the_text(cells: Seq<CellView>, columns: int)
    ensures
        runs_text(runs_of(cells, columns)) == cells_text(cells),
    decreases cells.len(),
{
    if cells.len() > 0 {
        runs_keep_the_text(cells.drop_last(), columns);
        let before = runs_of(cells.drop_last(), columns);
        let cell = cells.last();
        let after = with_cell(before, cell, columns);
        let fresh = RunView {
            text: Seq::empty(),
            cells: Seq::empty(),
            bold: cell.bold,
            italic: cell.italic,
        };
        if continues(before, cell) {
            assert(after.drop_last() == before.drop_last());
            assert(runs_text(after) == runs_text(before.drop_last()) + (before.last().text
                + cell_text(cell)));
            assert(runs_text(before.drop_last()) + (before.last().text + cell_text(cell)) == (
            runs_text(before.drop_last()) + before.last().text) + cell_text(cell));
        } else {
            assert(before.push(fresh).drop_last() == before);
            assert(after.drop_last() == before);
            assert(after.last().text == Seq::<char>::empty() + cell_text(cell));
            assert(Seq::<char>::empty() + cell_text(cell) == cell_text(cell));
        }
    }
}

/// How `UnicodeSegmentation::graphemes` divides a text, by extended clusters.
pub uninterp spec fn grapheme_clusters(shown: Seq<char>) -> Seq<Seq<char>>;

/// Some texts, one behind the other.
pub open spec fn chained(parts: Seq<Seq<char>>) -> Seq<char>
    decreases parts.len(),
{
    if parts.len() == 0 {
        Seq::empty()
    } else {
        chained(parts.drop_last()) + parts.last()
    }
}

/// `unicode_segmentation::UnicodeSegmentation::graphemes` divides a text into
/// what readers take for single characters: parts that are not empty and that
/// make up the text. Where it divides is not stated.
#[verifier::external_body]
fn graphemes(shown: &str) -> (list: Vec<String>)
    ensures
        text::texts(list@) == grapheme_clusters(shown@),
        chained(text::texts(list@)) == shown@,
        forall|i: int| 0 <= i < list@.len() ==> (#[trigger] list@[i])@.len() > 0,
{
    UnicodeSegmentation::graphemes(shown, true).map(|grapheme| grapheme.to_string()).collect()
}

/// How many columns `UnicodeWidthStr::width` gives a text.
pub uninterp spec fn display_width(shown: Seq<char>) -> usize;

/// `unicode_width::UnicodeWidthStr::width` counts the columns that a text takes
/// in a terminal. How it counts is not stated.
#[verifier::external_body]
fn width(shown: &str) -> (columns: usize)
    ensures
        columns == display_width(shown@),
{
    UnicodeWidthStr::width(shown)
}

/// Whether a text holds a control character.
pub open spec fn holds_control(shown: Seq<char>) -> bool {
    exists|i: int| 0 <= i < shown.len() && text::control_character(#[trigger] shown[i])
}

fn has_control(list: &Vec<char>) -> (found: bool)
    ensures
        found == holds_control(list@),
{
    let mut index: usize = 0;
    while index < list.len()
        invariant
            index <= list@.len(),
            forall|i: int| 0 <= i < index ==> !text::control_character(#[trigger] list@[i]),
        decreases list.len() - index,
    {
        if list[index].is_control() {
            assert(text::control_character(list@[index as int]));
            return true;
        }
        index += 1;
    }
    false
}

/// The cells of an input method's text, and the column behind them. Once a
/// character does not fit any more, `full` is set and the rest is left out.
#[verifier::ext_equal]
pub struct Overlay {
    pub cells: Seq<CellView>,
    pub end: int,
    pub full: bool,
}

/// The cell of a character of an input method's text.
pub open spec fn overlay_cell(
    grapheme: Seq<char>,
    width: int,
    column: int,
    foreground: RgbColor,
) -> CellView {
    CellView {
        character: grapheme[0],
        zerowidth: if grapheme.len() > 1 {
            Some(grapheme.skip(1))
        } else {
            None
        },
        foreground,
        background: foreground,
        column,
        width_in_columns: width,
        bold: false,
        italic: false,
        underline_style: 0,
        strikeout: false,
        hidden: false,
    }
}

/// How many columns a character of an input method's text takes.
pub open spec fn taken_width(width: int) -> int {
    if width < 1 {
        1
    } else {
        width
    }
}

/// An overlay with one more character.
pub open spec fn with_grapheme(
    before: Overlay,
    grapheme: Seq<char>,
    width: int,
    columns: int,
    foreground: RgbColor,
) -> Overlay {
    let taken = taken_width(width);
    if before.full || holds_control(grapheme) {
        before
    } else if before.end + taken > columns {
        Overlay { full: true, ..before }
    } else if grapheme.len() == 0 {
        before
    } else {
        Overlay {
            cells: before.cells.push(overlay_cell(grapheme, taken, before.end, foreground)),
            end: before.end + taken,
            full: false,
        }
    }
}

/// The overlay of some characters with their widths.
pub open spec fn overlay_of(
    characters: Seq<(Seq<char>, int)>,
    column: int,
    columns: int,
    foreground: RgbColor,
) -> Overlay
    decreases characters.len(),
{
    if characters.len() == 0 {
        Overlay { cells: Seq::empty(), end: column, full: false }
    } else {
        let (grapheme, width) = characters.last();
        with_grapheme(
            overlay_of(characters.drop_last(), column, columns, foreground),
            grapheme,
            width,
            columns,
            foreground,
        )
    }
}

/// The characters of a text with their widths.
pub open spec fn measured(graphemes: Seq<Seq<char>>, widths: Seq<usize>) -> Seq<(Seq<char>, int)> {
    Seq::new(graphemes.len(), |i: int| (graphemes[i], widths[i] as int))
}

proof fn lemma_pushed_views(cells: Seq<TerminalCellPatch>, cell: TerminalCellPatch)
    ensures
        frame::cell_views(cells.push(cell)) == frame::cell_views(cells).push(cell@),
{
}

fn build_overlay(
    columns: usize,
    column: usize,
    graphemes: &Vec<String>,
    widths: &Vec<usize>,
    foreground: RgbColor,
) -> (overlay: (Vec<TerminalCellPatch>, usize))
    requires
        graphemes@.len() == widths@.len(),
    ensures
        ({
            let expected = overlay_of(
                measured(text::texts(graphemes@), widths@),
                column as int,
                columns as int,
                foreground,
            );
            frame::cell_views(overlay.0@) == expected.cells && overlay.1 == expected.end
        }),
        overlay.1 >= column,
{
    let ghost all = measured(text::texts(graphemes@), widths@);
    let mut cells: Vec<TerminalCellPatch> = Vec::new();
    let mut end: usize = column;
    let mut full = false;
    let mut index: usize = 0;
    assert(all.take(0) == Seq::<(Seq<char>, int)>::empty());
    assert(frame::cell_views(cells@) == Seq::<CellView>::empty());
    while index < graphemes.len()
        invariant
            index <= graphemes@.len(),
            graphemes@.len() == widths@.len(),
            all == measured(text::texts(graphemes@), widths@),
            column <= end,
            overlay_of(all.take(index as int), column as int, columns as int, foreground) == (
            Overlay { cells: frame::cell_views(cells@), end: end as int, full }),
        decreases graphemes.len() - index,
    {
        let list = text::characters(graphemes[index].as_str());
        let taken: usize = if widths[index] < 1 {
            1
        } else {
            widths[index]
        };
        proof {
            assert(all.take(index + 1).drop_last() == all.take(index as int));
            assert(all.take(index + 1).last() == all[index as int]);
            assert(all[index as int] == (graphemes@[index as int]@, widths@[index as int] as int));
        }
        if !full && !has_control(&list) {
            if end > columns || taken > columns - end {
                full = true;
            } else if list.len() > 0 {
                let mut marks: Vec<char> = Vec::new();
                let mut next: usize = 1;
                while next < list.len()
                    invariant
                        1 <= next <= list@.len(),
                        marks@ == list@.subrange(1, next as int),
                    decreases list.len() - next,
                {
                    marks.push(list[next]);
                    assert(list@.subrange(1, next + 1) == list@.subrange(1, next as int).push(
                        list@[next as int],
                    ));
                    next += 1;
                }
                assert(marks@ == list@.skip(1));
                let cell = TerminalCellPatch {
                    character: list[0],
                    zerowidth: if marks.len() > 0 {
                        Some(marks)
                    } else {
                        None
                    },
                    foreground,
                    background: foreground,
                    column: end,
                    width_in_columns: taken,
                    bold: false,
                    italic: false,
                    underline_style: 0,
                    strikeout: false,
                    hidden: false,
                };
                let ghost before = frame::cell_views(cells@);
                let ghost view = cell@;
                let ghost items = cells@;
                assert(view =~= overlay_cell(list@, taken as int, end as int, foreground));
                cells.push(cell);
                proof {
                    lemma_pushed_views(items, cell);
                }
                end += taken;
            }
        }
        index += 1;
    }
    assert(all.take(index as int) == all);
    (cells, end)
}

/// Puts the characters of an input method, whose widths are known, over a row.
/// A wide character that is touched goes as a whole; the row itself stays.
pub fn compose_graphemes(
    cells: &Vec<TerminalCellPatch>,
    columns: usize,
    column: usize,
    graphemes: &Vec<String>,
    widths: &Vec<usize>,
    foreground: RgbColor,
) -> (composed: (Vec<TerminalCellPatch>, usize))
    requires
        graphemes@.len() == widths@.len(),
    ensures
        ({
            let overlay = overlay_of(
                measured(text::texts(graphemes@), widths@),
                column as int,
                columns as int,
                foreground,
            );
            &&& composed.1 == overlay.end - column
            &&& frame::cell_views(composed.0@) == composed_cells(
                frame::cell_views(cells@),
                overlay,
                column as int,
            )
        }),
{
    let (mut added, end) = build_overlay(columns, column, graphemes, widths, foreground);
    let ghost all = frame::cell_views(cells@);
    let mut parts: Vec<TerminalCellPatch> = Vec::new();
    let mut index: usize = 0;
    assert(frame::cell_views(parts@) == kept_cells(all.take(0), column as int, end as int));
    while index < cells.len()
        invariant
            index <= cells@.len(),
            column <= end,
            all == frame::cell_views(cells@),
            frame::cell_views(parts@) == kept_cells(
                all.take(index as int),
                column as int,
                end as int,
            ),
        decreases cells.len() - index,
    {
        let cell: &TerminalCellPatch = &cells[index];
        proof {
            assert(all.take(index + 1).drop_last() == all.take(index as int));
            assert(all.take(index + 1).last() == cell@);
        }
        if end == column || (cell.column <= column && cell.width_in_columns <= column
            - cell.column) || cell.column >= end {
            let ghost before = frame::cell_views(parts@);
            parts.push(cell.copy());
            assert(frame::cell_views(parts@) == before.push(cell@));
        }
        index += 1;
    }
    assert(all.take(index as int) == all);
    let ghost first = parts@;
    let ghost second = added@;
    parts.append(&mut added);
    assert(frame::cell_views(parts@) == frame::cell_views(first) + frame::cell_views(second));
    let ghost unsorted = parts@;
    let sorted = ordering::sort_by_key(parts);
    proof {
        lemma_sorted_views(unsorted);
    }
    (sorted, end - column)
}

/// The cells that an overlay from `column` to `end` does not touch.
pub open spec fn kept_cells(cells: Seq<CellView>, column: int, end: int) -> Seq<CellView>
    decreases cells.len(),
{
    if cells.len() == 0 {
        Seq::empty()
    } else {
        let before = kept_cells(cells.drop_last(), column, end);
        let cell = cells.last();
        if end == column || cell.column + cell.width_in_columns <= column || cell.column >= end {
            before.push(cell)
        } else {
            before
        }
    }
}

/// A row in the order of its columns with one more cell, behind those of the
/// same column.
pub open spec fn cell_inserted(cells: Seq<CellView>, cell: CellView) -> Seq<CellView>
    decreases cells.len(),
{
    if cells.len() > 0 && cells.last().column > cell.column {
        cell_inserted(cells.drop_last(), cell).push(cells.last())
    } else {
        cells.push(cell)
    }
}

/// The cells in the order of their columns.
pub open spec fn cells_sorted(cells: Seq<CellView>) -> Seq<CellView>
    decreases cells.len(),
{
    if cells.len() == 0 {
        cells
    } else {
        cell_inserted(cells_sorted(cells.drop_last()), cells.last())
    }
}

proof fn lemma_inserted_views(sorted: Seq<TerminalCellPatch>, item: TerminalCellPatch)
    ensures
        frame::cell_views(ordering::inserted(sorted, item)) == cell_inserted(
            frame::cell_views(sorted),
            item@,
        ),
    decreases sorted.len(),
{
    let views = frame::cell_views(sorted);
    if sorted.len() > 0 {
        assert(views.last() == sorted.last()@);
        assert(views.drop_last() == frame::cell_views(sorted.drop_last()));
        lemma_inserted_views(sorted.drop_last(), item);
    }
    if sorted.len() > 0 && sorted.last().key() > item.key() {
        let shorter = ordering::inserted(sorted.drop_last(), item);
        assert(frame::cell_views(shorter.push(sorted.last())) == frame::cell_views(shorter).push(
            sorted.last()@,
        ));
    } else {
        assert(frame::cell_views(sorted.push(item)) == views.push(item@));
    }
}

/// Sorting cells sorts what they hold.
pub proof fn lemma_sorted_views(cells: Seq<TerminalCellPatch>)
    ensures
        frame::cell_views(ordering::sorted_by_key(cells)) == cells_sorted(frame::cell_views(cells)),
    decreases cells.len(),
{
    let views = frame::cell_views(cells);
    if cells.len() > 0 {
        assert(views.last() == cells.last()@);
        assert(views.drop_last() == frame::cell_views(cells.drop_last()));
        lemma_sorted_views(cells.drop_last());
        lemma_inserted_views(ordering::sorted_by_key(cells.drop_last()), cells.last());
    } else {
        assert(frame::cell_views(cells) == views);
    }
}

/// The cells of a row with an overlay.
pub open spec fn composed_cells(cells: Seq<CellView>, overlay: Overlay, column: int) -> Seq<
    CellView,
> {
    cells_sorted(kept_cells(cells, column, overlay.end) + overlay.cells)
}

/// The characters of a text with the widths that are measured for them.
pub open spec fn measured_text(shown: Seq<char>) -> Seq<(Seq<char>, int)> {
    let clusters = grapheme_clusters(shown);
    Seq::new(clusters.len(), |i: int| (clusters[i], display_width(clusters[i]) as int))
}

/// Puts the text of an input method over a row.
pub fn compose_preedit(
    cells: &Vec<TerminalCellPatch>,
    columns: usize,
    column: usize,
    shown: &str,
    foreground: RgbColor,
) -> (composed: (Vec<TerminalCellPatch>, usize))
    ensures
        ({
            let overlay = overlay_of(
                measured_text(shown@),
                column as int,
                columns as int,
                foreground,
            );
            &&& composed.1 == overlay.end - column
            &&& frame::cell_views(composed.0@) == composed_cells(
                frame::cell_views(cells@),
                overlay,
                column as int,
            )
            &&& !overlay.full && !holds_control(shown@) ==> cells_text(overlay.cells) == shown@
        }),
        forall|i: int|
            0 <= i < grapheme_clusters(shown@).len() ==> (#[trigger] grapheme_clusters(
                shown@,
            )[i]).len() > 0,
{
    let clusters = graphemes(shown);
    let mut widths: Vec<usize> = Vec::new();
    while widths.len() < clusters.len()
        invariant
            widths@.len() <= clusters@.len(),
            forall|i: int|
                0 <= i < widths@.len() ==> #[trigger] widths@[i] == display_width(clusters@[i]@),
        decreases clusters.len() - widths.len(),
    {
        let index: usize = widths.len();
        widths.push(width(clusters[index].as_str()));
    }
    proof {
        let views = text::texts(clusters@);
        assert(measured(views, widths@) =~= measured_text(shown@)) by {
            assert forall|i: int| 0 <= i < views.len() implies #[trigger] measured(
                views,
                widths@,
            )[i] == measured_text(shown@)[i] by {
                assert(views[i] == clusters@[i]@);
                assert(widths@[i] == display_width(clusters@[i]@));
            }
        }
        assert forall|i: int| 0 <= i < views.len() implies (#[trigger] views[i]).len() > 0 by {
            assert(views[i] == clusters@[i]@);
        }
        let characters = measured_text(shown@);
        assert(texts_of(characters) =~= views);
        let overlay = overlay_of(characters, column as int, columns as int, foreground);
        if !overlay.full && !holds_control(shown@) {
            assert forall|i: int| 0 <= i < characters.len() implies !holds_control(
                (#[trigger] characters[i]).0,
            ) by {
                assert(views[i] == characters[i].0);
                if holds_control(views[i]) {
                    lemma_chained_parts(views, i);
                }
            }
            compositions_show_the_text(characters, column as int, columns as int, foreground);
        }
    }
    compose_graphemes(cells, columns, column, &clusters, &widths, foreground)
}

/// The texts of some characters with their widths.
pub open spec fn texts_of(characters: Seq<(Seq<char>, int)>) -> Seq<Seq<char>> {
    Seq::new(characters.len(), |i: int| characters[i].0)
}

proof fn lemma_chained_parts(parts: Seq<Seq<char>>, index: int)
    requires
        0 <= index < parts.len(),
        holds_control(parts[index]),
    ensures
        holds_control(chained(parts)),
    decreases parts.len(),
{
    let before = chained(parts.drop_last());
    if index < parts.len() - 1 {
        lemma_chained_parts(parts.drop_last(), index);
        let i = choose|i: int|
            0 <= i < before.len() && text::control_character(#[trigger] before[i]);
        assert(chained(parts)[i] == before[i]);
    } else {
        let part = parts[index];
        let i = choose|i: int| 0 <= i < part.len() && text::control_character(#[trigger] part[i]);
        assert(chained(parts)[before.len() + i] == part[i]);
    }
}

/// A text without control characters that fits into the row is shown as it is,
/// character by character.
pub proof fn compositions_show_the_text(
    characters: Seq<(Seq<char>, int)>,
    column: int,
    columns: int,
    foreground: RgbColor,
)
    requires
        !overlay_of(characters, column, columns, foreground).full,
        forall|i: int|
            0 <= i < characters.len() ==> !holds_control((#[trigger] characters[i]).0),
    ensures
        cells_text(overlay_of(characters, column, columns, foreground).cells) == chained(
            texts_of(characters),
        ),
    decreases characters.len(),
{
    let overlay = overlay_of(characters, column, columns, foreground);
    if characters.len() > 0 {
        let shorter = characters.drop_last();
        let before = overlay_of(shorter, column, columns, foreground);
        assert forall|i: int| 0 <= i < shorter.len() implies !holds_control(
            (#[trigger] shorter[i]).0,
        ) by {
            assert(characters[i] == shorter[i]);
        }
        assert(!holds_control(characters[characters.len() - 1].0));
        compositions_show_the_text(shorter, column, columns, foreground);
        assert(texts_of(characters).drop_last() =~= texts_of(shorter));
        let grapheme = characters.last().0;
        if grapheme.len() == 0 {
            assert(chained(texts_of(shorter)) + grapheme =~= chained(texts_of(shorter)));
        } else {
            assert(overlay.cells.drop_last() =~= before.cells);
            assert(cell_text(overlay.cells.last()) =~= grapheme);
        }
    }
}

/// The text of an input method stays within the row: it ends at the last column
/// at the latest where it starts before it, and no wide character is squeezed
/// into the last column.
pub proof fn compositions_stay_in_the_row(
    characters: Seq<(Seq<char>, int)>,
    column: int,
    columns: int,
    foreground: RgbColor,
)
    ensures
        ({
            let overlay = overlay_of(characters, column, columns, foreground);
            &&& overlay.end >= column
            &&& overlay.end > column ==> overlay.end <= columns
            &&& forall|i: int|
                0 <= i < overlay.cells.len() ==> column <= (#[trigger] overlay.cells[i]).column
                    && overlay.cells[i].width_in_columns >= 1 && overlay.cells[i].column
                    + overlay.cells[i].width_in_columns <= overlay.end
        }),
    decreases characters.len(),
{
    if characters.len() > 0 {
        compositions_stay_in_the_row(characters.drop_last(), column, columns, foreground);
        let before = overlay_of(characters.drop_last(), column, columns, foreground);
        let after = overlay_of(characters, column, columns, foreground);
        assert forall|i: int| 0 <= i < after.cells.len() implies column <= (
        #[trigger] after.cells[i]).column && after.cells[i].width_in_columns >= 1
            && after.cells[i].column + after.cells[i].width_in_columns <= after.end by {
            if i < before.cells.len() {
                assert(after.cells[i] == before.cells[i]);
            }
        }
    }
}

/// Without any text that fits, a row in the order of its columns is composed to
/// itself.
pub proof fn empty_compositions_change_nothing(cells: Seq<CellView>, column: int)
    requires
        forall|i: int, j: int|
            0 <= i <= j < cells.len() ==> cells[i].column <= cells[j].column,
    ensures
        composed_cells(
            cells,
            Overlay { cells: Seq::empty(), end: column, full: false },
            column,
        ) == cells,
{
    lemma_kept_all(cells, column);
    assert(cells + Seq::<CellView>::empty() == cells);
    lemma_sorted_stays(cells);
}

proof fn lemma_kept_all(cells: Seq<CellView>, column: int)
    ensures
        kept_cells(cells, column, column) == cells,
    decreases cells.len(),
{
    if cells.len() > 0 {
        lemma_kept_all(cells.drop_last(), column);
        assert(cells.drop_last().push(cells.last()) == cells);
    }
}

proof fn lemma_sorted_stays(cells: Seq<CellView>)
    requires
        forall|i: int, j: int|
            0 <= i <= j < cells.len() ==> cells[i].column <= cells[j].column,
    ensures
        cells_sorted(cells) == cells,
    decreases cells.len(),
{
    if cells.len() > 0 {
        lemma_sorted_stays(cells.drop_last());
        assert(cells.drop_last().push(cells.last()) == cells);
    }
}

/// What the glyphs of a row depend on: the cells on the grid that are neither
/// hidden nor blank, without their background, underline and strikeout.
pub open spec fn glyph_look(cells: Seq<CellView>, columns: int) -> Seq<CellView> {
    cells.filter(
        |cell: CellView|
            cell.column < columns && !cell.hidden && (cell.character != ' ' || cell.zerowidth
                is Some),
    ).map_values(
        |cell: CellView|
            CellView {
                background: RgbColor { red: 0, green: 0, blue: 0 },
                underline_style: 0,
                strikeout: false,
                ..cell
            },
    )
}

proof fn lemma_filtered_glyphs(cells: Seq<CellView>, columns: int)
    ensures
        with_glyphs(cells, columns) == cells.filter(
            |cell: CellView|
                cell.column < columns && !cell.hidden && (cell.character != ' ' || cell.zerowidth
                    is Some),
        ),
        forall|i: int|
            0 <= i < with_glyphs(cells, columns).len() ==> !(#[trigger] with_glyphs(
                cells,
                columns,
            )[i]).hidden,
    decreases cells.len(),
{
    reveal(Seq::filter);
    if cells.len() > 0 {
        let before = with_glyphs(cells.drop_last(), columns);
        let all = with_glyphs(cells, columns);
        lemma_filtered_glyphs(cells.drop_last(), columns);
        assert forall|i: int| 0 <= i < all.len() implies !(#[trigger] all[i]).hidden by {
            if i < before.len() {
                assert(all[i] == before[i]);
            }
        }
    }
}

/// Two rows count as the same if and only if their visible glyphs agree in
/// everything but the background, the underline and the strikeout: in their
/// columns and widths, their characters and marks, in bold and italic, and in the
/// colour of the text.
pub proof fn rows_are_the_same_where_their_glyphs_are(
    previous: Seq<CellView>,
    next: Seq<CellView>,
    columns: int,
)
    ensures
        same_glyphs(with_glyphs(previous, columns), with_glyphs(next, columns)) <==> glyph_look(
            previous,
            columns,
        ) == glyph_look(next, columns),
{
    lemma_filtered_glyphs(previous, columns);
    lemma_filtered_glyphs(next, columns);
    let left = with_glyphs(previous, columns);
    let right = with_glyphs(next, columns);
    let bare = |cell: CellView|
        CellView {
            background: RgbColor { red: 0, green: 0, blue: 0 },
            underline_style: 0,
            strikeout: false,
            ..cell
        };
    assert(glyph_look(previous, columns) =~= left.map_values(bare));
    assert(glyph_look(next, columns) =~= right.map_values(bare));
    if same_glyphs(left, right) {
        assert forall|i: int| 0 <= i < left.len() implies left.map_values(bare)[i]
            == right.map_values(bare)[i] by {
            assert(same_glyph(left[i], right[i]));
            assert(!left[i].hidden && !right[i].hidden);
            assert(bare(left[i]) =~= bare(right[i]));
        }
        assert(left.map_values(bare) =~= right.map_values(bare));
    }
    if left.map_values(bare) == right.map_values(bare) {
        assert(left.len() == left.map_values(bare).len());
        assert(right.len() == right.map_values(bare).len());
        assert forall|i: int| 0 <= i < left.len() implies same_glyph(
            #[trigger] left[i],
            right[i],
        ) by {
            assert(left.map_values(bare)[i] == bare(left[i]));
            assert(right.map_values(bare)[i] == bare(right[i]));
        }
    }
}

/// A visible glyph whose text colour, character, style or place changes makes its
/// row another one.
pub proof fn visible_changes_are_noticed(
    before: Seq<CellView>,
    after: Seq<CellView>,
    columns: int,
    former: CellView,
    latter: CellView,
)
    requires
        former.column < columns && !former.hidden && (former.character != ' ' || former.zerowidth is Some),
        latter.column < columns && !latter.hidden && (latter.character != ' ' || latter.zerowidth is Some),
        former.foreground != latter.foreground || former.character != latter.character || former.zerowidth
            != latter.zerowidth || former.bold != latter.bold || former.italic != latter.italic || former.column
            != latter.column || former.width_in_columns != latter.width_in_columns,
    ensures
        !same_glyphs(
            with_glyphs((before.push(former) + after), columns),
            with_glyphs((before.push(latter) + after), columns),
        ),
{
    let visible = |cell: CellView|
        cell.column < columns && !cell.hidden && (cell.character != ' ' || cell.zerowidth is Some);
    let left = before.push(former) + after;
    let right = before.push(latter) + after;
    lemma_filtered_glyphs(left, columns);
    lemma_filtered_glyphs(right, columns);
    Seq::filter_distributes_over_add(before.push(former), after, visible);
    Seq::filter_distributes_over_add(before.push(latter), after, visible);
    before.lemma_filter_push(former, visible);
    before.lemma_filter_push(latter, visible);
    let place = before.filter(visible).len() as int;
    assert(with_glyphs(left, columns)[place] == former);
    assert(with_glyphs(right, columns)[place] == latter);
    assert(!same_glyph(former, latter));
    if same_glyphs(with_glyphs(left, columns), with_glyphs(right, columns)) {
        assert(same_glyph(with_glyphs(left, columns)[place], with_glyphs(right, columns)[place]));
    }
}

/// Whether a run is what can be shaped together: cells of one style, each where
/// the one before it ends.
pub open spec fn shaped_together(run: RunView) -> bool {
    &&& run.cells.len() > 0
    &&& run.text == cells_text(run.cells)
    &&& forall|i: int|
        0 <= i < run.cells.len() ==> (#[trigger] run.cells[i]).bold == run.bold
            && run.cells[i].italic == run.italic
    &&& forall|i: int|
        0 < i < run.cells.len() ==> run.cells[i - 1].column + run.cells[i - 1].width_in_columns
            == (#[trigger] run.cells[i]).column
}

/// Each run holds neighbouring cells of one style with their text, and no two runs
/// could have been one. No cell reaches beyond the last column.
pub proof fn runs_hold_neighbours_of_one_style(cells: Seq<CellView>, columns: int)
    requires
        forall|i: int| 0 <= i < cells.len() ==> (#[trigger] cells[i]).column < columns,
    ensures
        ({
            let runs = runs_of(cells, columns);
            &&& forall|i: int| 0 <= i < runs.len() ==> shaped_together(#[trigger] runs[i])
            &&& forall|i: int|
                0 < i < runs.len() ==> {
                    let end = runs[i - 1].cells.last();
                    let start = (#[trigger] runs[i]).cells[0];
                    runs[i - 1].bold != runs[i].bold || runs[i - 1].italic != runs[i].italic
                        || end.column + end.width_in_columns != start.column
                }
            &&& forall|i: int, j: int|
                0 <= i < runs.len() && 0 <= j < runs[i].cells.len() ==> 1 <= (
                #[trigger] runs[i].cells[j]).width_in_columns && runs[i].cells[j].column
                    + runs[i].cells[j].width_in_columns <= columns
            &&& cells.len() > 0 ==> runs.len() > 0 && runs.last().cells.last() == (CellView {
                width_in_columns: runs.last().cells.last().width_in_columns,
                ..cells.last()
            })
            &&& cells.len() > 0 && 1 <= cells.last().width_in_columns <= columns
                - cells.last().column ==> runs.last().cells.last() == cells.last()
        }),
    decreases cells.len(),
{
    if cells.len() > 0 {
        let shorter = cells.drop_last();
        assert forall|i: int| 0 <= i < shorter.len() implies (#[trigger] shorter[i]).column
            < columns by {
            assert(cells[i] == shorter[i]);
        }
        runs_hold_neighbours_of_one_style(shorter, columns);
        let before = runs_of(shorter, columns);
        let cell = cells.last();
        assert(cells[cells.len() - 1].column < columns);
        let after = with_cell(before, cell, columns);
        let kept = fitted(cell, columns);
        let fresh = RunView {
            text: Seq::empty(),
            cells: Seq::empty(),
            bold: cell.bold,
            italic: cell.italic,
        };
        let base = if continues(before, cell) {
            before
        } else {
            before.push(fresh)
        };
        let last = base.last();
        let changed = after.last();
        assert(changed.cells == last.cells.push(kept));
        assert(changed.cells.drop_last() =~= last.cells);
        assert(cell_text(kept) == cell_text(cell));
        assert(changed.text == last.text + cell_text(cell));
        if continues(before, cell) {
            assert(shaped_together(before[before.len() - 1]));
            assert(after.drop_last() =~= before.drop_last());
        } else {
            assert(after.drop_last() =~= before);
            assert(last.cells.len() == 0);
            assert(cells_text(last.cells) =~= last.text);
        }
        assert(changed.text =~= cells_text(changed.cells));
        assert(shaped_together(changed)) by {
            assert forall|i: int| 0 <= i < changed.cells.len() implies (
            #[trigger] changed.cells[i]).bold == changed.bold && changed.cells[i].italic
                == changed.italic by {
                if i < last.cells.len() {
                    assert(changed.cells[i] == last.cells[i]);
                }
            }
            assert forall|i: int| 0 < i < changed.cells.len() implies changed.cells[i - 1].column
                + changed.cells[i - 1].width_in_columns == (
            #[trigger] changed.cells[i]).column by {
                assert(changed.cells[i - 1] == last.cells[i - 1]);
                if i < last.cells.len() {
                    assert(changed.cells[i] == last.cells[i]);
                }
            }
        }
        assert forall|i: int| 0 <= i < after.len() implies shaped_together(
            #[trigger] after[i],
        ) by {
            if i < after.len() - 1 {
                assert(after[i] == before[i]);
            }
        }
        assert forall|i: int| 0 < i < after.len() implies ({
            let end = after[i - 1].cells.last();
            let start = (#[trigger] after[i]).cells[0];
            after[i - 1].bold != after[i].bold || after[i - 1].italic != after[i].italic
                || end.column + end.width_in_columns != start.column
        }) by {
            assert(after[i - 1] == before[i - 1]);
            assert(shaped_together(before[i - 1]));
            if i < before.len() {
                assert(shaped_together(before[i]));
                assert(after[i].cells[0] == before[i].cells[0]);
            }
        }
        assert forall|i: int, j: int|
            0 <= i < after.len() && 0 <= j < after[i].cells.len() implies 1 <= (
        #[trigger] after[i].cells[j]).width_in_columns && after[i].cells[j].column
            + after[i].cells[j].width_in_columns <= columns by {
            if i < after.len() - 1 {
                assert(after[i].cells[j] == before[i].cells[j]);
            } else if j < last.cells.len() {
                assert(after[i].cells[j] == before[i].cells[j]);
            }
        }
        if 1 <= cell.width_in_columns <= columns - cell.column {
            assert(kept =~= cell);
        }
        assert(kept =~= CellView { width_in_columns: kept.width_in_columns, ..cell });
    }
}

/// One more character of an input method's text that fits takes its width, at
/// least one column, behind those before it; it is shown as it is, plain and in
/// the given colour. A control character is left out. Once a character does not
/// fit, nothing more is shown.
pub proof fn characters_take_their_width(
    characters: Seq<(Seq<char>, int)>,
    grapheme: Seq<char>,
    width: int,
    column: int,
    columns: int,
    foreground: RgbColor,
)
    requires
        grapheme.len() > 0,
    ensures
        overlay_of(Seq::empty(), column, columns, foreground).end == column,
        overlay_of(Seq::empty(), column, columns, foreground).cells.len() == 0,
        !overlay_of(Seq::empty(), column, columns, foreground).full,
        ({
            let before = overlay_of(characters, column, columns, foreground);
            let after = overlay_of(characters.push((grapheme, width)), column, columns, foreground);
            let taken = if width > 1 {
                width
            } else {
                1
            };
            let controlled = exists|i: int|
                0 <= i < grapheme.len() && ((#[trigger] grapheme[i]) as u32 <= 0x1f || 0x7f
                    <= grapheme[i] as u32 <= 0x9f);
            &&& before.full || controlled ==> after == before
            &&& !before.full && !controlled && before.end + taken > columns ==> after.full
                && after.cells == before.cells && after.end == before.end
            &&& !before.full && !controlled && before.end + taken <= columns ==> {
                let cell = after.cells.last();
                &&& !after.full
                &&& after.end == before.end + taken
                &&& after.cells.len() == before.cells.len() + 1
                &&& after.cells.drop_last() == before.cells
                &&& cell_text(cell) == grapheme
                &&& cell.column == before.end
                &&& cell.width_in_columns == taken
                &&& cell.foreground == foreground
                &&& !cell.bold && !cell.italic && !cell.strikeout && !cell.hidden
                &&& cell.underline_style == 0
            }
        }),
{
    let longer = characters.push((grapheme, width));
    assert(longer.drop_last() =~= characters);
    let before = overlay_of(characters, column, columns, foreground);
    let after = overlay_of(longer, column, columns, foreground);
    assert(holds_control(grapheme) <==> exists|i: int|
        0 <= i < grapheme.len() && ((#[trigger] grapheme[i]) as u32 <= 0x1f || 0x7f
            <= grapheme[i] as u32 <= 0x9f)) by {
        if holds_control(grapheme) {
            let i = choose|i: int|
                0 <= i < grapheme.len() && text::control_character(#[trigger] grapheme[i]);
            assert(grapheme[i] as u32 <= 0x1f || 0x7f <= grapheme[i] as u32 <= 0x9f);
        }
        if exists|i: int|
            0 <= i < grapheme.len() && ((#[trigger] grapheme[i]) as u32 <= 0x1f || 0x7f
                <= grapheme[i] as u32 <= 0x9f) {
            let i = choose|i: int|
                0 <= i < grapheme.len() && ((#[trigger] grapheme[i]) as u32 <= 0x1f || 0x7f
                    <= grapheme[i] as u32 <= 0x9f);
            assert(text::control_character(grapheme[i]));
        }
    }
    if after.cells.len() > before.cells.len() {
        assert(after.cells.drop_last() =~= before.cells);
        assert(cell_text(after.cells.last()) =~= grapheme);
    }
}

proof fn lemma_kept_members(cells: Seq<CellView>, column: int, end: int, cell: CellView)
    ensures
        kept_cells(cells, column, end).contains(cell) <==> cells.contains(cell) && (end == column
            || cell.column + cell.width_in_columns <= column || cell.column >= end),
    decreases cells.len(),
{
    if cells.len() > 0 {
        let shorter = cells.drop_last();
        let before = kept_cells(shorter, column, end);
        let all = kept_cells(cells, column, end);
        lemma_kept_members(shorter, column, end, cell);
        assert(cells =~= shorter.push(cells.last()));
        lemma_pushed_members(shorter, cells.last(), cell);
        lemma_pushed_members(before, cells.last(), cell);
    }
}

pub(crate) proof fn lemma_pushed_members(cells: Seq<CellView>, item: CellView, cell: CellView)
    ensures
        cells.push(item).contains(cell) <==> cells.contains(cell) || cell == item,
{
    let all = cells.push(item);
    if all.contains(cell) {
        let i = choose|i: int| 0 <= i < all.len() && all[i] == cell;
        if i < cells.len() {
            assert(cells[i] == cell);
        }
    }
    if cells.contains(cell) {
        let i = choose|i: int| 0 <= i < cells.len() && cells[i] == cell;
        assert(all[i] == cell);
    }
    if cell == item {
        assert(all[cells.len() as int] == cell);
    }
}

pub(crate) proof fn lemma_joined_members(left: Seq<CellView>, right: Seq<CellView>, cell: CellView)
    ensures
        (left + right).contains(cell) <==> left.contains(cell) || right.contains(cell),
{
    let all = left + right;
    if all.contains(cell) {
        let i = choose|i: int| 0 <= i < all.len() && all[i] == cell;
        if i < left.len() {
            assert(left[i] == cell);
        } else {
            assert(right[i - left.len()] == cell);
        }
    }
    if left.contains(cell) {
        let i = choose|i: int| 0 <= i < left.len() && left[i] == cell;
        assert(all[i] == cell);
    }
    if right.contains(cell) {
        let i = choose|i: int| 0 <= i < right.len() && right[i] == cell;
        assert(all[left.len() + i] == cell);
    }
}

proof fn lemma_insert_ordered(cells: Seq<CellView>, item: CellView, cell: CellView)
    requires
        forall|i: int, j: int| 0 <= i < j < cells.len() ==> cells[i].column <= cells[j].column,
    ensures
        cell_inserted(cells, item).len() == cells.len() + 1,
        cell_inserted(cells, item).contains(cell) <==> cells.contains(cell) || cell == item,
        forall|i: int, j: int|
            0 <= i < j < cell_inserted(cells, item).len() ==> cell_inserted(cells, item)[i].column
                <= cell_inserted(cells, item)[j].column,
        forall|i: int|
            0 <= i < cell_inserted(cells, item).len() ==> (#[trigger] cell_inserted(
                cells,
                item,
            )[i]).column <= item.column || (cells.len() > 0 && cell_inserted(
                cells,
                item,
            )[i].column <= cells.last().column),
    decreases cells.len(),
{
    if cells.len() > 0 && cells.last().column > item.column {
        let shorter = cells.drop_last();
        lemma_insert_ordered(shorter, item, cell);
        let before = cell_inserted(shorter, item);
        let all = cell_inserted(cells, item);
        assert(all == before.push(cells.last()));
        assert(cells =~= shorter.push(cells.last()));
        lemma_pushed_members(shorter, cells.last(), cell);
        lemma_pushed_members(before, cells.last(), cell);
        assert forall|i: int, j: int| 0 <= i < j < all.len() implies all[i].column
            <= all[j].column by {
            assert(all[i] == before[i]);
            if j < before.len() {
                assert(all[j] == before[j]);
            } else if shorter.len() > 0 {
                assert(shorter.last().column <= cells.last().column);
            }
        }
        assert forall|i: int| 0 <= i < all.len() implies (#[trigger] all[i]).column <= item.column
            || all[i].column <= cells.last().column by {
            if i < before.len() {
                assert(all[i] == before[i]);
                if shorter.len() > 0 {
                    assert(shorter.last().column <= cells.last().column);
                }
            }
        }
    } else {
        lemma_pushed_members(cells, item, cell);
    }
}

/// Sorting cells keeps every cell, and puts them in the order of their columns.
pub proof fn sorted_cells_are_in_order(cells: Seq<CellView>, cell: CellView)
    ensures
        cells_sorted(cells).len() == cells.len(),
        cells_sorted(cells).contains(cell) <==> cells.contains(cell),
        forall|i: int, j: int|
            0 <= i < j < cells.len() ==> cells_sorted(cells)[i].column
                <= cells_sorted(cells)[j].column,
    decreases cells.len(),
{
    if cells.len() > 0 {
        let shorter = cells.drop_last();
        sorted_cells_are_in_order(shorter, cell);
        lemma_insert_ordered(cells_sorted(shorter), cells.last(), cell);
        assert(cells =~= shorter.push(cells.last()));
        lemma_pushed_members(shorter, cells.last(), cell);
    }
}

/// A row with the text of an input method over it holds the cells of that text, and
/// of its own cells exactly those that the text does not touch, in the order of
/// their columns.
pub proof fn compositions_replace_what_they_touch(
    cells: Seq<CellView>,
    overlay: Overlay,
    column: int,
    cell: CellView,
)
    ensures
        ({
            let composed = composed_cells(cells, overlay, column);
            &&& composed.contains(cell) <==> overlay.cells.contains(cell) || (cells.contains(cell)
                && (overlay.end == column || cell.column + cell.width_in_columns <= column
                || cell.column >= overlay.end))
            &&& forall|i: int, j: int|
                0 <= i < j < composed.len() ==> composed[i].column <= composed[j].column
        }),
{
    let kept = kept_cells(cells, column, overlay.end);
    lemma_kept_members(cells, column, overlay.end, cell);
    lemma_joined_members(kept, overlay.cells, cell);
    sorted_cells_are_in_order(kept + overlay.cells, cell);
}

} // verus!
