//! What the renderer gets of a terminal grid: the cells that changed, and the
//! selection and the search results as decorations of their own.

use vstd::prelude::*;
use crate::ordering;
use crate::ordering::Keyed;
use crate::terminal::mode::CellFlags;
use crate::terminal::palette;
use crate::terminal::palette::{AnsiColor, ColorOverrides, RgbColor, TerminalTheme};
use crate::terminal::search;
use crate::terminal::search::{GridPoint, SearchHighlight, SearchMatch, SearchSnapshot, SearchView};
use crate::text;

verus! {

/// Everything that is drawn for one character.
#[derive(Clone, Debug, PartialEq, Eq)]
pub struct TerminalCellPatch {
    /// The base character; a blank cell holds a space.
    pub character: char,
    /// The marks that combine with the base character.
    pub zerowidth: Option<Vec<char>>,
    pub foreground: RgbColor,
    pub background: RgbColor,
    pub column: usize,
    /// Two for a wide character, else one.
    pub width_in_columns: usize,
    pub bold: bool,
    pub italic: bool,
    pub underline_style: i32,
    pub strikeout: bool,
    pub hidden: bool,
}

/// What a `TerminalCellPatch` holds.
#[verifier::ext_equal]
pub struct CellView {
    pub character: char,
    pub zerowidth: Option<Seq<char>>,
    pub foreground: RgbColor,
    pub background: RgbColor,
    pub column: int,
    pub width_in_columns: int,
    pub bold: bool,
    pub italic: bool,
    pub underline_style: int,
    pub strikeout: bool,
    pub hidden: bool,
}

/// The marks of a cell, as a sequence.
pub open spec fn marks(zerowidth: Option<Vec<char>>) -> Option<Seq<char>> {
    match zerowidth {
        Some(list) => Some(list@),
        None => None,
    }
}

impl View for TerminalCellPatch {
    type V = CellView;

    open spec fn view(&self) -> CellView {
        CellView {
            character: self.character,
            zerowidth: marks(self.zerowidth),
            foreground: self.foreground,
            background: self.background,
            column: self.column as int,
            width_in_columns: self.width_in_columns as int,
            bold: self.bold,
            italic: self.italic,
            underline_style: self.underline_style as int,
            strikeout: self.strikeout,
            hidden: self.hidden,
        }
    }
}

impl CellView {
    /// Whether no glyph is drawn for the cell.
    pub open spec fn blank(self) -> bool {
        self.character == ' ' && self.zerowidth is None
    }
}

impl Keyed for TerminalCellPatch {
    open spec fn key(&self) -> int {
        self.column as int
    }

    fn sort_key(&self) -> u64 {
        self.column as u64
    }
}

impl TerminalCellPatch {
    pub fn copy(&self) -> (copy: TerminalCellPatch)
        ensures
            copy@ == self@,
            copy.column == self.column,
    {
        TerminalCellPatch {
            character: self.character,
            zerowidth: match &self.zerowidth {
                Some(list) => Some(text::copy_characters(list)),
                None => None,
            },
            foreground: self.foreground,
            background: self.background,
            column: self.column,
            width_in_columns: self.width_in_columns,
            bold: self.bold,
            italic: self.italic,
            underline_style: self.underline_style,
            strikeout: self.strikeout,
            hidden: self.hidden,
        }
    }

    /// Whether no glyph is drawn for the cell.
    pub fn is_blank(&self) -> (blank: bool)
        ensures
            blank == self@.blank(),
    {
        self.character == ' ' && self.zerowidth.is_none()
    }
}

/// The cells of the columns `start_column..end_column` of one row.
#[derive(Clone, Debug, PartialEq, Eq)]
pub struct RowPatch {
    pub row: usize,
    pub start_column: usize,
    pub end_column: usize,
    pub cells: Vec<TerminalCellPatch>,
}

/// What a `RowPatch` holds.
#[verifier::ext_equal]
pub struct RowView {
    pub row: int,
    pub start_column: int,
    pub end_column: int,
    pub cells: Seq<CellView>,
}

/// What a list of cells holds.
pub open spec fn cell_views(cells: Seq<TerminalCellPatch>) -> Seq<CellView> {
    cells.map_values(|cell: TerminalCellPatch| cell@)
}

impl View for RowPatch {
    type V = RowView;

    open spec fn view(&self) -> RowView {
        RowView {
            row: self.row as int,
            start_column: self.start_column as int,
            end_column: self.end_column as int,
            cells: cell_views(self.cells@),
        }
    }
}

/// What a list of row patches holds.
pub open spec fn row_views(rows: Seq<RowPatch>) -> Seq<RowView> {
    rows.map_values(|row: RowPatch| row@)
}

/// The columns `start_column..end_column` of a row that changed.
#[derive(Clone, Copy, Debug, PartialEq, Eq, Structural)]
pub struct DamagedSpan {
    pub row: usize,
    pub start_column: usize,
    pub end_column: usize,
}

impl Keyed for DamagedSpan {
    open spec fn key(&self) -> int {
        self.row as int
    }

    fn sort_key(&self) -> u64 {
        self.row as u64
    }
}

/// What a decoration marks.
#[derive(Clone, Copy, Debug, PartialEq, Eq, Structural)]
pub enum DecorationKind {
    Selection,
    SearchMatch,
    SearchCurrent,
}

/// A decorated background behind the columns `start_column..end_column`.
#[derive(Clone, Copy, Debug, PartialEq, Eq, Structural)]
pub struct DecorationRange {
    pub row: usize,
    pub start_column: usize,
    pub end_column: usize,
    pub kind: DecorationKind,
}

impl Keyed for DecorationRange {
    open spec fn key(&self) -> int {
        self.row as int
    }

    fn sort_key(&self) -> u64 {
        self.row as u64
    }
}

/// Where the cursor is and how it looks.
#[derive(Clone, Copy, Debug, PartialEq, Eq, Structural)]
pub struct CursorPatch {
    pub column: usize,
    pub row: usize,
    pub visible: bool,
    pub shape: i32,
    pub blinking: bool,
}

/// Why a frame redraws everything.
#[derive(Clone, Copy, Debug, PartialEq, Eq, Structural)]
pub enum FullRedrawReason {
    TerminalDamage,
    RendererRequest,
    Resize,
}

/// One frame for the renderer.
#[derive(Debug)]
pub struct FramePatch {
    /// Counts the sizes the grid has had; patches of two sizes never mix.
    pub generation: u64,
    pub columns: usize,
    pub rows: usize,
    pub full_redraw: bool,
    pub full_redraw_reason: Option<FullRedrawReason>,
    /// Only the title and the exit message count.
    pub metadata_only: bool,
    pub changed_rows: Vec<RowPatch>,
    pub cursor: CursorPatch,
    pub scroll_offset: usize,
    pub scroll_history_lines: usize,
    pub search: SearchSnapshot,
    /// Every decoration of the view, in the order of the rows.
    pub decorations: Vec<DecorationRange>,
    pub title: Option<String>,
    pub exit_message: Option<String>,
}

/// What a `FramePatch` holds.
#[verifier::ext_equal]
pub struct FrameView {
    pub generation: u64,
    pub columns: int,
    pub rows: int,
    pub full_redraw: bool,
    pub full_redraw_reason: Option<FullRedrawReason>,
    pub metadata_only: bool,
    pub changed_rows: Seq<RowView>,
    pub cursor: CursorPatch,
    pub scroll_offset: int,
    pub scroll_history_lines: int,
    pub search: SearchView,
    pub decorations: Seq<DecorationRange>,
    pub title: Option<Seq<char>>,
    pub exit_message: Option<Seq<char>>,
}

impl View for FramePatch {
    type V = FrameView;

    open spec fn view(&self) -> FrameView {
        FrameView {
            generation: self.generation,
            columns: self.columns as int,
            rows: self.rows as int,
            full_redraw: self.full_redraw,
            full_redraw_reason: self.full_redraw_reason,
            metadata_only: self.metadata_only,
            changed_rows: row_views(self.changed_rows@),
            cursor: self.cursor,
            scroll_offset: self.scroll_offset as int,
            scroll_history_lines: self.scroll_history_lines as int,
            search: self.search@,
            decorations: self.decorations@,
            title: text::optional(self.title),
            exit_message: text::optional(self.exit_message),
        }
    }
}

/// The shapes a program can give the cursor.
#[derive(Clone, Copy, Debug, PartialEq, Eq, Structural)]
pub enum CursorShape {
    Block,
    Underline,
    Beam,
    HollowBlock,
    Hidden,
}

/// One cell of the terminal grid.
pub struct GridCell {
    pub character: char,
    /// The marks that combine with the character, mostly none.
    pub zerowidth: Vec<char>,
    pub foreground: AnsiColor,
    pub background: AnsiColor,
    pub flags: CellFlags,
}

/// The columns `left..=right` of a line that the terminal reports as changed.
#[derive(Clone, Copy, Debug, PartialEq, Eq, Structural)]
pub struct LineDamage {
    pub line: usize,
    pub left: usize,
    pub right: usize,
}

/// What the terminal reports as changed.
pub enum Damage {
    Full,
    Partial(Vec<LineDamage>),
}

/// A selection, from its first to its last cell; a block selection takes the
/// same columns of each line.
#[derive(Clone, Copy, Debug, PartialEq, Eq, Structural)]
pub struct SelectionSpan {
    pub start: GridPoint,
    pub end: GridPoint,
    pub is_block: bool,
}

/// The state of a terminal that a frame is captured from.
pub struct TerminalContent {
    /// The visible rows, from top to bottom.
    pub grid: Vec<Vec<GridCell>>,
    /// The line in which the program writes.
    pub writing_line: i32,
    /// The cursor that is drawn.
    pub cursor_point: GridPoint,
    pub cursor_shape: CursorShape,
    pub cursor_blinking: bool,
    /// How many lines the view is scrolled back.
    pub display_offset: usize,
    pub total_lines: usize,
    pub screen_lines: usize,
    pub damage: Damage,
    pub selection: Option<SelectionSpan>,
    pub colors: ColorOverrides,
}

impl TerminalContent {
    /// The grid holds the whole view, and lines can be counted in 32 bits.
    pub open spec fn well_formed(&self, columns: int, rows: int) -> bool {
        &&& rows <= i32::MAX
        &&& self.display_offset <= i32::MAX
        &&& self.grid@.len() >= rows
        &&& forall|row: int| 0 <= row < rows ==> (#[trigger] self.grid@[row])@.len() >= columns
        &&& self.colors.well_formed()
    }
}

/// A colour at two thirds of its strength.
pub fn dim_color(color: RgbColor) -> (dark: RgbColor)
    ensures
        dark == palette::dimmed(color),
{
    palette::dim(color)
}

/// How many columns a cell takes.
pub open spec fn width_of(flags: CellFlags) -> int {
    if flags.has(CellFlags::WIDE_CHAR) {
        2
    } else {
        1
    }
}

pub fn cell_width_in_columns(flags: CellFlags) -> (width: usize)
    ensures
        width == width_of(flags),
{
    if flags.contains(CellFlags::WIDE_CHAR) {
        2
    } else {
        1
    }
}

/// The number that the shader knows a cursor shape by.
pub open spec fn cursor_code(shape: CursorShape) -> int {
    match shape {
        CursorShape::Block => 0,
        CursorShape::Underline => 1,
        CursorShape::Beam => 2,
        CursorShape::HollowBlock => 3,
        CursorShape::Hidden => 0,
    }
}

pub fn cursor_shape(shape: CursorShape) -> (code: i32)
    ensures
        code == cursor_code(shape),
{
    match shape {
        CursorShape::Block => 0,
        CursorShape::Underline => 1,
        CursorShape::Beam => 2,
        CursorShape::HollowBlock => 3,
        CursorShape::Hidden => 0,
    }
}

/// The number that the shader knows an underline by; the most special one wins.
pub open spec fn underline_code(flags: CellFlags) -> int {
    if flags.has(CellFlags::DOUBLE_UNDERLINE) {
        2
    } else if flags.has(CellFlags::UNDERCURL) {
        3
    } else if flags.has(CellFlags::DOTTED_UNDERLINE) {
        4
    } else if flags.has(CellFlags::DASHED_UNDERLINE) {
        5
    } else if flags.has(CellFlags::UNDERLINE) {
        1
    } else {
        0
    }
}

pub fn underline_style(flags: CellFlags) -> (style: i32)
    ensures
        style == underline_code(flags),
{
    if flags.contains(CellFlags::DOUBLE_UNDERLINE) {
        2
    } else if flags.contains(CellFlags::UNDERCURL) {
        3
    } else if flags.contains(CellFlags::DOTTED_UNDERLINE) {
        4
    } else if flags.contains(CellFlags::DASHED_UNDERLINE) {
        5
    } else if flags.contains(CellFlags::UNDERLINE) {
        1
    } else {
        0
    }
}

/// The smaller of two numbers.
pub open spec fn least(left: int, right: int) -> int {
    if left < right {
        left
    } else {
        right
    }
}

/// The columns `start..=end_inclusive`, cut at the last column and widened so
/// that no wide character is cut in half, as a half-open range.
pub open spec fn expanded(
    row: Seq<GridCell>,
    start: int,
    end_inclusive: int,
    columns: int,
) -> (int, int) {
    let first = least(start, columns - 1);
    let last = least(end_inclusive, columns - 1);
    (
        if first > 0 && row[first].flags.has(CellFlags::WIDE_CHAR_SPACER) {
            first - 1
        } else {
            first
        },
        if row[last].flags.has(CellFlags::WIDE_CHAR) && last + 1 < columns {
            last + 2
        } else {
            last + 1
        },
    )
}

/// Widens a range of columns to whole characters.
pub fn expand_to_wide_cells(
    row: &Vec<GridCell>,
    start: usize,
    end_inclusive: usize,
    columns: usize,
) -> (range: (usize, usize))
    requires
        0 < columns <= row@.len(),
    ensures
        (range.0 as int, range.1 as int) == expanded(
            row@,
            start as int,
            end_inclusive as int,
            columns as int,
        ),
        range.0 < columns,
        range.1 <= columns,
{
    let mut first: usize = if start < columns - 1 {
        start
    } else {
        columns - 1
    };
    let mut last: usize = if end_inclusive < columns - 1 {
        end_inclusive
    } else {
        columns - 1
    };
    if first > 0 && row[first].flags.contains(CellFlags::WIDE_CHAR_SPACER) {
        first -= 1;
    }
    if row[last].flags.contains(CellFlags::WIDE_CHAR) && last + 1 < columns {
        last += 1;
    }
    (first, last + 1)
}

/// The columns `first..=last` of a grid line.
#[derive(Clone, Copy, Debug, PartialEq, Eq, Structural)]
pub struct RowSpan {
    pub line: i32,
    pub first: usize,
    pub last: usize,
}

/// The part of a range of cells that lies in one line.
pub open spec fn line_span(
    line: int,
    start: GridPoint,
    end: GridPoint,
    block: bool,
    columns: int,
) -> Seq<RowSpan> {
    let first = least(
        if block || line == start.line {
            start.column as int
        } else {
            0
        },
        columns - 1,
    );
    let last = least(
        if block || line == end.line {
            end.column as int
        } else {
            columns - 1
        },
        columns - 1,
    );
    if first <= last {
        seq![RowSpan { line: line as i32, first: first as usize, last: last as usize }]
    } else {
        Seq::empty()
    }
}

/// The parts of a range of cells in the lines `from..to`, line by line.
pub open spec fn line_spans(
    from: int,
    to: int,
    start: GridPoint,
    end: GridPoint,
    block: bool,
    columns: int,
) -> Seq<RowSpan>
    decreases to - from,
{
    if from >= to {
        Seq::empty()
    } else {
        line_spans(from, to - 1, start, end, block, columns) + line_span(
            to - 1,
            start,
            end,
            block,
            columns,
        )
    }
}

/// The parts of a range of cells in the visible lines, both ends included.
pub open spec fn visible_spans(
    start: GridPoint,
    end: GridPoint,
    block: bool,
    columns: int,
    visible: (int, int),
) -> Seq<RowSpan> {
    if columns == 0 || end.line < start.line {
        Seq::empty()
    } else {
        line_spans(
            if start.line > visible.0 {
                start.line as int
            } else {
                visible.0
            },
            least(end.line as int, visible.1) + 1,
            start,
            end,
            block,
            columns,
        )
    }
}

/// Splits a range of cells into the visible lines.
pub fn for_each_row_span(
    start: GridPoint,
    end: GridPoint,
    block: bool,
    columns: usize,
    visible: (i32, i32),
) -> (spans: Vec<RowSpan>)
    ensures
        spans@ == visible_spans(
            start,
            end,
            block,
            columns as int,
            (visible.0 as int, visible.1 as int),
        ),
{
    let mut spans: Vec<RowSpan> = Vec::new();
    if columns == 0 || end.line < start.line {
        return spans;
    }
    let last_column: usize = columns - 1;
    let from: i64 = if start.line > visible.0 {
        start.line as i64
    } else {
        visible.0 as i64
    };
    let to: i64 = if end.line < visible.1 {
        end.line as i64
    } else {
        visible.1 as i64
    };
    let mut line: i64 = from;
    while line <= to
        invariant
            from <= line,
            line <= to + 1 || line == from,
            i32::MIN <= from <= i32::MAX,
            i32::MIN <= to <= i32::MAX,
            columns > 0,
            last_column == columns - 1,
            spans@ == line_spans(from as int, line as int, start, end, block, columns as int),
        decreases to + 1 - line,
    {
        let first: usize = if block || line == start.line as i64 {
            start.column
        } else {
            0
        };
        let last: usize = if block || line == end.line as i64 {
            end.column
        } else {
            last_column
        };
        let first: usize = if first < last_column {
            first
        } else {
            last_column
        };
        let last: usize = if last < last_column {
            last
        } else {
            last_column
        };
        let ghost before = spans@;
        if first <= last {
            spans.push(RowSpan { line: line as i32, first, last });
        }
        assert(spans@ == before + line_span(line as int, start, end, block, columns as int));
        line += 1;
    }
    spans
}

/// What is drawn for one grid cell.
pub open spec fn drawn_cell(
    cell: GridCell,
    column: int,
    overrides: Seq<Option<RgbColor>>,
    theme: TerminalTheme,
) -> CellView {
    let first = palette::resolved_color(cell.foreground, overrides, theme);
    let second = palette::resolved_color(cell.background, overrides, theme);
    let inverse = cell.flags.has(CellFlags::INVERSE);
    let text_color = if inverse {
        second
    } else {
        first
    };
    let hidden = cell.flags.has(CellFlags::HIDDEN);
    let blank = hidden || cell.flags.has(CellFlags::LEADING_WIDE_CHAR_SPACER);
    CellView {
        character: if blank {
            ' '
        } else {
            cell.character
        },
        zerowidth: if blank || cell.zerowidth@.len() == 0 {
            None
        } else {
            Some(cell.zerowidth@)
        },
        foreground: if cell.flags.has(CellFlags::DIM) {
            palette::dimmed(text_color)
        } else {
            text_color
        },
        background: if inverse {
            first
        } else {
            second
        },
        column,
        width_in_columns: width_of(cell.flags),
        bold: cell.flags.has(CellFlags::BOLD),
        italic: cell.flags.has(CellFlags::ITALIC),
        underline_style: underline_code(cell.flags),
        strikeout: cell.flags.has(CellFlags::STRIKEOUT),
        hidden,
    }
}

fn draw_cell(
    cell: &GridCell,
    column: usize,
    colors: &ColorOverrides,
    theme: TerminalTheme,
) -> (patch: TerminalCellPatch)
    requires
        colors.well_formed(),
    ensures
        patch@ == drawn_cell(*cell, column as int, colors.entries@, theme),
{
    let first = palette::resolve_color(cell.foreground, colors, true, theme);
    let second = palette::resolve_color(cell.background, colors, false, theme);
    let inverse = cell.flags.contains(CellFlags::INVERSE);
    let (mut foreground, background) = if inverse {
        (second, first)
    } else {
        (first, second)
    };
    if cell.flags.contains(CellFlags::DIM) {
        foreground = dim_color(foreground);
    }
    let hidden = cell.flags.contains(CellFlags::HIDDEN);
    let blank = hidden || cell.flags.contains(CellFlags::LEADING_WIDE_CHAR_SPACER);
    TerminalCellPatch {
        character: if blank {
            ' '
        } else {
            cell.character
        },
        zerowidth: if blank || cell.zerowidth.len() == 0 {
            None
        } else {
            Some(text::copy_characters(&cell.zerowidth))
        },
        foreground,
        background,
        column,
        width_in_columns: cell_width_in_columns(cell.flags),
        bold: cell.flags.contains(CellFlags::BOLD),
        italic: cell.flags.contains(CellFlags::ITALIC),
        underline_style: underline_style(cell.flags),
        strikeout: cell.flags.contains(CellFlags::STRIKEOUT),
        hidden,
    }
}

/// What is drawn for the columns `from..to` of a row: the second half of a wide
/// character has no cell of its own.
pub open spec fn drawn_cells(
    row: Seq<GridCell>,
    from: int,
    to: int,
    overrides: Seq<Option<RgbColor>>,
    theme: TerminalTheme,
) -> Seq<CellView>
    decreases to - from,
{
    if from >= to {
        Seq::empty()
    } else {
        let before = drawn_cells(row, from, to - 1, overrides, theme);
        if row[to - 1].flags.has(CellFlags::WIDE_CHAR_SPACER) {
            before
        } else {
            before.push(drawn_cell(row[to - 1], to - 1, overrides, theme))
        }
    }
}

/// The patch for a damaged span.
pub open spec fn row_patch(
    grid: Seq<Vec<GridCell>>,
    span: DamagedSpan,
    columns: int,
    overrides: Seq<Option<RgbColor>>,
    theme: TerminalTheme,
) -> RowView {
    let row = grid[span.row as int]@;
    let (from, to) = expanded(row, span.start_column as int, span.end_column - 1, columns);
    RowView {
        row: span.row as int,
        start_column: from,
        end_column: to,
        cells: drawn_cells(row, from, to, overrides, theme),
    }
}

fn draw_row(
    grid: &Vec<Vec<GridCell>>,
    span: DamagedSpan,
    columns: usize,
    colors: &ColorOverrides,
    theme: TerminalTheme,
) -> (patch: RowPatch)
    requires
        colors.well_formed(),
        span.row < grid@.len(),
        span.start_column < span.end_column,
        0 < columns <= grid@[span.row as int]@.len(),
    ensures
        patch@ == row_patch(grid@, span, columns as int, colors.entries@, theme),
{
    let row: &Vec<GridCell> = &grid[span.row];
    let (from, to) = expand_to_wide_cells(row, span.start_column, span.end_column - 1, columns);
    let mut cells: Vec<TerminalCellPatch> = Vec::new();
    let mut column: usize = from;
    while column < to
        invariant
            from <= column,
            column <= to || column == from,
            to <= row@.len(),
            colors.well_formed(),
            cell_views(cells@) == drawn_cells(
                row@,
                from as int,
                column as int,
                colors.entries@,
                theme,
            ),
        decreases to - column,
    {
        let cell: &GridCell = &row[column];
        if !cell.flags.contains(CellFlags::WIDE_CHAR_SPACER) {
            let patch = draw_cell(cell, column, colors, theme);
            let ghost before = cell_views(cells@);
            cells.push(patch);
            assert(cell_views(cells@) == before.push(patch@));
        }
        column += 1;
    }
    if from > to {
        assert(drawn_cells(row@, from as int, to as int, colors.entries@, theme) == Seq::<
            CellView,
        >::empty());
    }
    let patch = RowPatch { row: span.row, start_column: from, end_column: to, cells };
    assert(patch@ == row_patch(grid@, span, columns as int, colors.entries@, theme));
    patch
}

/// The patches for the damaged spans that are not empty, in their order.
pub open spec fn row_patches(
    grid: Seq<Vec<GridCell>>,
    spans: Seq<DamagedSpan>,
    columns: int,
    overrides: Seq<Option<RgbColor>>,
    theme: TerminalTheme,
) -> Seq<RowView>
    decreases spans.len(),
{
    if spans.len() == 0 {
        Seq::empty()
    } else {
        let before = row_patches(grid, spans.drop_last(), columns, overrides, theme);
        if spans.last().start_column < spans.last().end_column {
            before.push(row_patch(grid, spans.last(), columns, overrides, theme))
        } else {
            before
        }
    }
}

/// Every row from its first to its last column.
pub open spec fn whole_screen(columns: int, rows: int) -> Seq<DamagedSpan> {
    Seq::new(
        rows as nat,
        |row: int|
            DamagedSpan { row: row as usize, start_column: 0, end_column: columns as usize },
    )
}

/// The reported damage that lies on the screen.
pub open spec fn damage_on_screen(lines: Seq<LineDamage>, columns: int, rows: int) -> Seq<
    DamagedSpan,
>
    decreases lines.len(),
{
    if lines.len() == 0 {
        Seq::empty()
    } else {
        let before = damage_on_screen(lines.drop_last(), columns, rows);
        let damage = lines.last();
        if damage.line < rows && damage.left < columns {
            before.push(
                DamagedSpan {
                    row: damage.line,
                    start_column: damage.left,
                    end_column: least(damage.right + 1, columns) as usize,
                },
            )
        } else {
            before
        }
    }
}

/// Where the first span of a row stands, or the number of spans.
pub open spec fn first_of_row(spans: Seq<DamagedSpan>, row: usize) -> int
    decreases spans.len(),
{
    if spans.len() == 0 || spans.first().row == row {
        0
    } else {
        1 + first_of_row(spans.drop_first(), row)
    }
}

/// The spans with one row damaged from its first to its last column.
pub open spec fn with_whole_row(spans: Seq<DamagedSpan>, row: usize, columns: int) -> Seq<
    DamagedSpan,
> {
    let whole = DamagedSpan { row, start_column: 0, end_column: columns as usize };
    let index = first_of_row(spans, row);
    if index < spans.len() {
        spans.update(index, whole)
    } else {
        spans.push(whole)
    }
}

/// Why everything is redrawn: a request goes before what the terminal reports.
pub open spec fn redraw_reason(forced: Option<FullRedrawReason>, damage: Damage) -> Option<
    FullRedrawReason,
> {
    match forced {
        Some(reason) => Some(reason),
        None => match damage {
            Damage::Full => Some(FullRedrawReason::TerminalDamage),
            Damage::Partial(_) => None,
        },
    }
}

/// What a frame has to redraw: everything, or what the terminal reports and
/// with it the whole line in which the program writes. A prompt and its cursor
/// belong together, and some shells leave only the cursor as damage.
pub open spec fn damaged_spans(
    content: TerminalContent,
    columns: int,
    rows: int,
    forced: Option<FullRedrawReason>,
) -> Seq<DamagedSpan> {
    if redraw_reason(forced, content.damage) is Some {
        whole_screen(columns, rows)
    } else {
        let reported = damage_on_screen(content.damage->Partial_0@, columns, rows);
        if 0 <= content.writing_line < rows {
            with_whole_row(reported, content.writing_line as usize, columns)
        } else {
            reported
        }
    }
}

fn find_damage(
    content: &TerminalContent,
    columns: usize,
    rows: usize,
    forced: Option<FullRedrawReason>,
) -> (result: (Option<FullRedrawReason>, Vec<DamagedSpan>))
    ensures
        result.0 == redraw_reason(forced, content.damage),
        result.1@ == damaged_spans(*content, columns as int, rows as int, forced),
{
    let reason = match forced {
        Some(reason) => Some(reason),
        None => match content.damage {
            Damage::Full => Some(FullRedrawReason::TerminalDamage),
            Damage::Partial(_) => None,
        },
    };
    let mut spans: Vec<DamagedSpan> = Vec::new();
    if reason.is_some() {
        while spans.len() < rows
            invariant
                spans@.len() <= rows,
                spans@ == whole_screen(columns as int, spans@.len() as int),
            decreases rows - spans.len(),
        {
            let row: usize = spans.len();
            let ghost before = spans@;
            spans.push(DamagedSpan { row, start_column: 0, end_column: columns });
            assert(spans@ == whole_screen(columns as int, row + 1));
        }
        return (reason, spans);
    }
    if let Damage::Partial(lines) = &content.damage {
        let mut index: usize = 0;
        while index < lines.len()
            invariant
                index <= lines@.len(),
                spans@ == damage_on_screen(lines@.take(index as int), columns as int, rows as int),
            decreases lines.len() - index,
        {
            let damage = lines[index];
            assert(lines@.take(index + 1).drop_last() == lines@.take(index as int));
            assert(lines@.take(index + 1).last() == damage);
            if damage.line < rows && damage.left < columns {
                spans.push(
                    DamagedSpan {
                        row: damage.line,
                        start_column: damage.left,
                        end_column: if damage.right < columns {
                            damage.right + 1
                        } else {
                            columns
                        },
                    },
                );
            }
            index += 1;
        }
        assert(lines@.take(index as int) == lines@);
    }
    if content.writing_line >= 0 && (content.writing_line as usize) < rows {
        let row: usize = content.writing_line as usize;
        let whole = DamagedSpan { row, start_column: 0, end_column: columns };
        let mut index: usize = 0;
        let ghost all = spans@;
        assert(all.skip(0) == all);
        while index < spans.len() && spans[index].row != row
            invariant
                index <= spans@.len(),
                spans@ == all,
                first_of_row(all, row) == index + first_of_row(all.skip(index as int), row),
            decreases spans.len() - index,
        {
            assert(all.skip(index as int).drop_first() == all.skip(index + 1));
            index += 1;
        }
        if index < spans.len() {
            spans.set(index, whole);
        } else {
            spans.push(whole);
        }
    }
    (reason, spans)
}

/// The decoration of one span, where its line is on the screen.
pub open spec fn span_decoration(
    grid: Seq<Vec<GridCell>>,
    display_offset: int,
    span: RowSpan,
    kind: DecorationKind,
    columns: int,
    rows: int,
) -> Seq<DecorationRange> {
    let row = span.line + display_offset;
    if row < 0 || row >= rows {
        Seq::empty()
    } else {
        let (from, to) = expanded(grid[row]@, span.first as int, span.last as int, columns);
        if from < to {
            seq![
                DecorationRange {
                    row: row as usize,
                    start_column: from as usize,
                    end_column: to as usize,
                    kind,
                },
            ]
        } else {
            Seq::empty()
        }
    }
}

/// The decorations of a list of spans, in its order.
pub open spec fn span_decorations(
    grid: Seq<Vec<GridCell>>,
    display_offset: int,
    spans: Seq<RowSpan>,
    kind: DecorationKind,
    columns: int,
    rows: int,
) -> Seq<DecorationRange>
    decreases spans.len(),
{
    if spans.len() == 0 {
        Seq::empty()
    } else {
        span_decorations(grid, display_offset, spans.drop_last(), kind, columns, rows)
            + span_decoration(grid, display_offset, spans.last(), kind, columns, rows)
    }
}

/// The visible lines of the grid, both ends included.
pub open spec fn visible_lines(display_offset: int, rows: int) -> (int, int) {
    (-display_offset, rows - 1 - display_offset)
}

/// The decorations of the selection.
pub open spec fn selection_decorations(content: TerminalContent, columns: int, rows: int) -> Seq<
    DecorationRange,
> {
    match content.selection {
        Some(range) => span_decorations(
            content.grid@,
            content.display_offset as int,
            visible_spans(
                range.start,
                range.end,
                range.is_block,
                columns,
                visible_lines(content.display_offset as int, rows),
            ),
            DecorationKind::Selection,
            columns,
            rows,
        ),
        None => Seq::empty(),
    }
}

/// What a highlighted match is drawn as.
pub open spec fn highlight_kind(highlight: SearchHighlight) -> DecorationKind {
    match highlight {
        SearchHighlight::Match => DecorationKind::SearchMatch,
        SearchHighlight::Current => DecorationKind::SearchCurrent,
    }
}

/// The decorations of the matches, in their order.
pub open spec fn match_decorations(
    content: TerminalContent,
    matches: Seq<(SearchMatch, SearchHighlight)>,
    columns: int,
    rows: int,
) -> Seq<DecorationRange>
    decreases matches.len(),
{
    if matches.len() == 0 {
        Seq::empty()
    } else {
        let (range, highlight) = matches.last();
        match_decorations(content, matches.drop_last(), columns, rows) + span_decorations(
            content.grid@,
            content.display_offset as int,
            visible_spans(
                range.start,
                range.end,
                false,
                columns,
                visible_lines(content.display_offset as int, rows),
            ),
            highlight_kind(highlight),
            columns,
            rows,
        )
    }
}

/// Every decoration of a frame, sorted by row.
pub open spec fn frame_decorations(
    content: TerminalContent,
    matches: Seq<(SearchMatch, SearchHighlight)>,
    columns: int,
    rows: int,
) -> Seq<DecorationRange> {
    ordering::sorted_by_key(
        selection_decorations(content, columns, rows) + match_decorations(
            content,
            matches,
            columns,
            rows,
        ),
    )
}

fn decorate(
    content: &TerminalContent,
    spans: &Vec<RowSpan>,
    kind: DecorationKind,
    columns: usize,
    rows: usize,
    decorations: &mut Vec<DecorationRange>,
)
    requires
        content.well_formed(columns as int, rows as int),
        columns > 0 || spans@.len() == 0,
    ensures
        final(decorations)@ == old(decorations)@ + span_decorations(
            content.grid@,
            content.display_offset as int,
            spans@,
            kind,
            columns as int,
            rows as int,
        ),
{
    let ghost before = decorations@;
    let offset: i64 = content.display_offset as i64;
    let mut index: usize = 0;
    assert(before + Seq::<DecorationRange>::empty() == before);
    while index < spans.len()
        invariant
            index <= spans@.len(),
            content.well_formed(columns as int, rows as int),
            columns > 0 || spans@.len() == 0,
            offset == content.display_offset,
            decorations@ == before + span_decorations(
                content.grid@,
                content.display_offset as int,
                spans@.take(index as int),
                kind,
                columns as int,
                rows as int,
            ),
        decreases spans.len() - index,
    {
        let span = spans[index];
        assert(spans@.take(index + 1).drop_last() == spans@.take(index as int));
        assert(spans@.take(index + 1).last() == span);
        let row: i64 = span.line as i64 + offset;
        let ghost earlier = decorations@;
        if row >= 0 && row < rows as i64 {
            let row: usize = row as usize;
            let (from, to) = expand_to_wide_cells(
                &content.grid[row],
                span.first,
                span.last,
                columns,
            );
            if from < to {
                decorations.push(
                    DecorationRange { row, start_column: from, end_column: to, kind },
                );
            }
        }
        assert(decorations@ == earlier + span_decoration(
            content.grid@,
            content.display_offset as int,
            span,
            kind,
            columns as int,
            rows as int,
        ));
        index += 1;
    }
    assert(spans@.take(index as int) == spans@);
}

fn collect_decorations(
    content: &TerminalContent,
    matches: &Vec<(SearchMatch, SearchHighlight)>,
    columns: usize,
    rows: usize,
) -> (decorations: Vec<DecorationRange>)
    requires
        content.well_formed(columns as int, rows as int),
    ensures
        decorations@ == frame_decorations(*content, matches@, columns as int, rows as int),
{
    let offset: i64 = content.display_offset as i64;
    let visible: (i32, i32) = ((-offset) as i32, (rows as i64 - 1 - offset) as i32);
    let ghost lines = visible_lines(content.display_offset as int, rows as int);
    let mut decorations: Vec<DecorationRange> = Vec::new();
    if let Some(range) = content.selection {
        let spans = for_each_row_span(range.start, range.end, range.is_block, columns, visible);
        decorate(content, &spans, DecorationKind::Selection, columns, rows, &mut decorations);
    }
    let ghost selected = decorations@;
    assert(selected == selection_decorations(*content, columns as int, rows as int));
    let mut index: usize = 0;
    assert(selected + Seq::<DecorationRange>::empty() == selected);
    while index < matches.len()
        invariant
            index <= matches@.len(),
            content.well_formed(columns as int, rows as int),
            (visible.0 as int, visible.1 as int) == visible_lines(
                content.display_offset as int,
                rows as int,
            ),
            decorations@ == selected + match_decorations(
                *content,
                matches@.take(index as int),
                columns as int,
                rows as int,
            ),
        decreases matches.len() - index,
    {
        let (range, highlight) = matches[index];
        assert(matches@.take(index + 1).drop_last() == matches@.take(index as int));
        assert(matches@.take(index + 1).last() == matches@[index as int]);
        let kind = match highlight {
            SearchHighlight::Match => DecorationKind::SearchMatch,
            SearchHighlight::Current => DecorationKind::SearchCurrent,
        };
        let spans = for_each_row_span(range.start, range.end, false, columns, visible);
        let ghost earlier = decorations@;
        decorate(content, &spans, kind, columns, rows, &mut decorations);
        proof {
            let added = span_decorations(
                content.grid@,
                content.display_offset as int,
                spans@,
                kind,
                columns as int,
                rows as int,
            );
            let matched = match_decorations(
                *content,
                matches@.take(index as int),
                columns as int,
                rows as int,
            );
            assert((selected + matched) + added == selected + (matched + added));
        }
        index += 1;
    }
    assert(matches@.take(index as int) == matches@);
    ordering::sort_by_key(decorations)
}

/// The cursor of a frame.
pub open spec fn frame_cursor(content: TerminalContent, rows: int) -> CursorPatch {
    let row = content.cursor_point.line + content.display_offset;
    CursorPatch {
        column: content.cursor_point.column,
        row: if row < 0 {
            0
        } else {
            row as usize
        },
        visible: content.cursor_shape != CursorShape::Hidden && 0 <= row < rows,
        shape: cursor_code(content.cursor_shape) as i32,
        blinking: content.cursor_blinking,
    }
}

/// The frame that is captured from a terminal.
pub open spec fn captured_frame(
    content: TerminalContent,
    columns: int,
    rows: int,
    generation: u64,
    forced: Option<FullRedrawReason>,
    theme: TerminalTheme,
    search: SearchView,
    matches: Seq<(SearchMatch, SearchHighlight)>,
) -> FrameView {
    let reason = redraw_reason(forced, content.damage);
    FrameView {
        generation,
        columns,
        rows,
        full_redraw: reason is Some,
        full_redraw_reason: reason,
        metadata_only: false,
        changed_rows: row_patches(
            content.grid@,
            ordering::sorted_by_key(damaged_spans(content, columns, rows, forced)),
            columns,
            content.colors.entries@,
            theme,
        ),
        cursor: frame_cursor(content, rows),
        scroll_offset: content.display_offset as int,
        scroll_history_lines: if content.total_lines < content.screen_lines {
            0
        } else {
            content.total_lines - content.screen_lines
        },
        search,
        decorations: frame_decorations(content, matches, columns, rows),
        title: None,
        exit_message: None,
    }
}

/// A damaged span lies on the screen.
pub open spec fn on_screen(span: DamagedSpan, columns: int, rows: int) -> bool {
    span.row < rows && span.start_column <= columns && span.end_column <= columns
}

proof fn lemma_damage_on_screen(lines: Seq<LineDamage>, columns: int, rows: int)
    requires
        columns <= usize::MAX,
        rows <= usize::MAX,
    ensures
        forall|i: int|
            0 <= i < damage_on_screen(lines, columns, rows).len() ==> on_screen(
                #[trigger] damage_on_screen(lines, columns, rows)[i],
                columns,
                rows,
            ),
    decreases lines.len(),
{
    if lines.len() > 0 {
        let before = damage_on_screen(lines.drop_last(), columns, rows);
        let all = damage_on_screen(lines, columns, rows);
        lemma_damage_on_screen(lines.drop_last(), columns, rows);
        assert forall|i: int| 0 <= i < all.len() implies on_screen(
            #[trigger] all[i],
            columns,
            rows,
        ) by {
            if i < before.len() {
                assert(all[i] == before[i]);
            }
        }
    }
}

proof fn lemma_first_of_row(spans: Seq<DamagedSpan>, row: usize)
    ensures
        0 <= first_of_row(spans, row) <= spans.len(),
    decreases spans.len(),
{
    if spans.len() > 0 && spans.first().row != row {
        lemma_first_of_row(spans.drop_first(), row);
    }
}

/// Whatever a frame redraws lies on the screen.
pub proof fn damage_stays_on_screen(
    content: TerminalContent,
    columns: usize,
    rows: usize,
    forced: Option<FullRedrawReason>,
)
    ensures
        forall|i: int|
            0 <= i < damaged_spans(content, columns as int, rows as int, forced).len()
                ==> on_screen(
                #[trigger] damaged_spans(content, columns as int, rows as int, forced)[i],
                columns as int,
                rows as int,
            ),
{
    let all = damaged_spans(content, columns as int, rows as int, forced);
    if redraw_reason(forced, content.damage) is None {
        let lines = content.damage->Partial_0@;
        lemma_damage_on_screen(lines, columns as int, rows as int);
        let reported = damage_on_screen(lines, columns as int, rows as int);
        lemma_first_of_row(reported, content.writing_line as usize);
        assert forall|i: int| 0 <= i < all.len() implies on_screen(
            #[trigger] all[i],
            columns as int,
            rows as int,
        ) by {
            if i < reported.len() {
                assert(on_screen(reported[i], columns as int, rows as int));
            }
        }
    } else {
        assert(all == whole_screen(columns as int, rows as int));
    }
}

/// Captures a frame. Neither the selection nor the search results are written
/// into the cells: they become decorations, so that a change of theirs shapes
/// no text anew.
pub fn capture_frame(
    content: &TerminalContent,
    columns: usize,
    rows: usize,
    generation: u64,
    forced_full_redraw: Option<FullRedrawReason>,
    theme: TerminalTheme,
    search: SearchSnapshot,
    search_matches: &Vec<(SearchMatch, SearchHighlight)>,
) -> (frame: FramePatch)
    requires
        content.well_formed(columns as int, rows as int),
    ensures
        frame@ == captured_frame(
            *content,
            columns as int,
            rows as int,
            generation,
            forced_full_redraw,
            theme,
            search@,
            search_matches@,
        ),
{
    let (full_redraw_reason, damaged) = find_damage(content, columns, rows, forced_full_redraw);
    let ghost reported = damaged@;
    let spans = ordering::sort_by_key(damaged);
    let full_redraw = full_redraw_reason.is_some();
    proof {
        damage_stays_on_screen(*content, columns, rows, forced_full_redraw);
        ordering::sort_keeps_members(reported);
        assert forall|i: int| 0 <= i < spans@.len() implies on_screen(
            #[trigger] spans@[i],
            columns as int,
            rows as int,
        ) by {
            assert(reported.contains(spans@[i]));
        }
    }

    let mut changed_rows: Vec<RowPatch> = Vec::new();
    let mut index: usize = 0;
    while index < spans.len()
        invariant
            index <= spans@.len(),
            content.well_formed(columns as int, rows as int),
            forall|i: int|
                0 <= i < spans@.len() ==> on_screen(
                    #[trigger] spans@[i],
                    columns as int,
                    rows as int,
                ),
            row_views(changed_rows@) == row_patches(
                content.grid@,
                spans@.take(index as int),
                columns as int,
                content.colors.entries@,
                theme,
            ),
        decreases spans.len() - index,
    {
        let span = spans[index];
        assert(spans@.take(index + 1).drop_last() == spans@.take(index as int));
        assert(spans@.take(index + 1).last() == span);
        if span.start_column < span.end_column {
            assert(content.grid@[span.row as int]@.len() >= columns);
            let patch = draw_row(&content.grid, span, columns, &content.colors, theme);
            let ghost before = row_views(changed_rows@);
            changed_rows.push(patch);
            assert(row_views(changed_rows@) == before.push(patch@));
        }
        index += 1;
    }
    assert(spans@.take(index as int) == spans@);

    let cursor_row: i64 = content.cursor_point.line as i64 + content.display_offset as i64;
    let cursor = CursorPatch {
        column: content.cursor_point.column,
        row: if cursor_row < 0 {
            0
        } else {
            cursor_row as usize
        },
        visible: content.cursor_shape != CursorShape::Hidden && cursor_row >= 0 && cursor_row
            < rows as i64,
        shape: cursor_shape(content.cursor_shape),
        blinking: content.cursor_blinking,
    };
    let decorations = collect_decorations(content, search_matches, columns, rows);
    FramePatch {
        generation,
        columns,
        rows,
        full_redraw,
        full_redraw_reason,
        metadata_only: false,
        changed_rows,
        cursor,
        scroll_offset: content.display_offset,
        scroll_history_lines: content.total_lines.saturating_sub(content.screen_lines),
        search,
        decorations,
        title: None,
        exit_message: None,
    }
}

/// A frame that redraws everything has a patch for every row, from its first to
/// its last column and in order.
pub proof fn full_frames_cover_every_row(
    content: TerminalContent,
    columns: usize,
    rows: usize,
    forced: Option<FullRedrawReason>,
    theme: TerminalTheme,
)
    requires
        content.well_formed(columns as int, rows as int),
        columns > 0,
        redraw_reason(forced, content.damage) is Some,
    ensures
        ({
            let patches = row_patches(
                content.grid@,
                ordering::sorted_by_key(damaged_spans(content, columns as int, rows as int, forced)),
                columns as int,
                content.colors.entries@,
                theme,
            );
            &&& patches.len() == rows
            &&& forall|row: int|
                0 <= row < rows ==> (#[trigger] patches[row]).row == row
                    && patches[row].start_column == 0 && patches[row].end_column == columns
        }),
{
    let spans = whole_screen(columns as int, rows as int);
    ordering::sort_keeps_ascending(spans);
    lemma_whole_screen_patches(content, columns, rows, rows as int, theme);
    assert(spans.take(rows as int) == spans);
}

proof fn lemma_whole_screen_patches(
    content: TerminalContent,
    columns: usize,
    rows: usize,
    count: int,
    theme: TerminalTheme,
)
    requires
        content.well_formed(columns as int, rows as int),
        columns > 0,
        0 <= count <= rows,
    ensures
        ({
            let patches = row_patches(
                content.grid@,
                whole_screen(columns as int, rows as int).take(count),
                columns as int,
                content.colors.entries@,
                theme,
            );
            &&& patches.len() == count
            &&& forall|row: int|
                0 <= row < count ==> (#[trigger] patches[row]).row == row
                    && patches[row].start_column == 0 && patches[row].end_column == columns
        }),
    decreases count,
{
    if count > 0 {
        lemma_whole_screen_patches(content, columns, rows, count - 1, theme);
        let spans = whole_screen(columns as int, rows as int);
        assert(spans.take(count).drop_last() == spans.take(count - 1));
        assert(spans.take(count).last() == spans[count - 1]);
    }
}

/// The two halves of every wide character stand side by side.
pub open spec fn halves_match(row: Seq<GridCell>, columns: int) -> bool {
    forall|column: int|
        0 <= column < columns ==> {
            &&& (#[trigger] row[column]).flags.has(CellFlags::WIDE_CHAR_SPACER) ==> column > 0
                && !row[column - 1].flags.has(CellFlags::WIDE_CHAR_SPACER)
            &&& row[column].flags.has(CellFlags::WIDE_CHAR) && column + 1 < columns
                ==> !row[column + 1].flags.has(CellFlags::WIDE_CHAR)
        }
}

/// Neither a patch nor a decoration cuts a wide character in half: the range
/// starts on no second half and ends on no first half, except that a first half
/// in the last column has no second one.
pub proof fn ranges_hold_whole_characters(
    row: Seq<GridCell>,
    start: int,
    end_inclusive: int,
    columns: int,
)
    requires
        0 < columns <= row.len(),
        0 <= start,
        0 <= end_inclusive,
        halves_match(row, columns),
    ensures
        ({
            let (from, to) = expanded(row, start, end_inclusive, columns);
            &&& 0 <= from < columns
            &&& 0 < to <= columns
            &&& !row[from].flags.has(CellFlags::WIDE_CHAR_SPACER)
            &&& row[to - 1].flags.has(CellFlags::WIDE_CHAR) ==> to == columns
            &&& from <= least(start, columns - 1)
            &&& to > least(end_inclusive, columns - 1)
        }),
{
    let first = least(start, columns - 1);
    let last = least(end_inclusive, columns - 1);
    assert(row[first] == row[first]);
    assert(row[last] == row[last]);
}

/// The selection and the search results have no influence on the cells of a
/// frame: where the grid, the damage and the colours are the same, so are the
/// patches.
pub proof fn decorations_never_change_cells(
    left: TerminalContent,
    right: TerminalContent,
    left_search: SearchView,
    right_search: SearchView,
    left_matches: Seq<(SearchMatch, SearchHighlight)>,
    right_matches: Seq<(SearchMatch, SearchHighlight)>,
    columns: usize,
    rows: usize,
    generation: u64,
    forced: Option<FullRedrawReason>,
    theme: TerminalTheme,
)
    requires
        left.grid@ == right.grid@,
        left.damage == right.damage,
        left.writing_line == right.writing_line,
        left.colors == right.colors,
    ensures
        captured_frame(
            left,
            columns as int,
            rows as int,
            generation,
            forced,
            theme,
            left_search,
            left_matches,
        ).changed_rows == captured_frame(
            right,
            columns as int,
            rows as int,
            generation,
            forced,
            theme,
            right_search,
            right_matches,
        ).changed_rows,
{
}

/// A decoration lies on the screen and is not empty.
pub open spec fn decorates_screen(decoration: DecorationRange, columns: int, rows: int) -> bool {
    decoration.row < rows && decoration.start_column < decoration.end_column <= columns
}

proof fn lemma_span_decorations(
    grid: Seq<Vec<GridCell>>,
    display_offset: int,
    spans: Seq<RowSpan>,
    kind: DecorationKind,
    columns: usize,
    rows: usize,
)
    requires
        columns > 0 || spans.len() == 0,
    ensures
        forall|i: int|
            0 <= i < span_decorations(
                grid,
                display_offset,
                spans,
                kind,
                columns as int,
                rows as int,
            ).len() ==> decorates_screen(
                #[trigger] span_decorations(
                    grid,
                    display_offset,
                    spans,
                    kind,
                    columns as int,
                    rows as int,
                )[i],
                columns as int,
                rows as int,
            ),
    decreases spans.len(),
{
    if spans.len() > 0 {
        lemma_span_decorations(grid, display_offset, spans.drop_last(), kind, columns, rows);
        let before = span_decorations(
            grid,
            display_offset,
            spans.drop_last(),
            kind,
            columns as int,
            rows as int,
        );
        let last = span_decoration(
            grid,
            display_offset,
            spans.last(),
            kind,
            columns as int,
            rows as int,
        );
        let all = before + last;
        assert forall|i: int| 0 <= i < all.len() implies decorates_screen(
            #[trigger] all[i],
            columns as int,
            rows as int,
        ) by {
            if i < before.len() {
                assert(all[i] == before[i]);
            } else {
                assert(all[i] == last[0]);
            }
        }
    }
}

proof fn lemma_match_decorations(
    content: TerminalContent,
    matches: Seq<(SearchMatch, SearchHighlight)>,
    columns: usize,
    rows: usize,
)
    ensures
        forall|i: int|
            0 <= i < match_decorations(content, matches, columns as int, rows as int).len()
                ==> decorates_screen(
                #[trigger] match_decorations(content, matches, columns as int, rows as int)[i],
                columns as int,
                rows as int,
            ),
    decreases matches.len(),
{
    if matches.len() > 0 {
        lemma_match_decorations(content, matches.drop_last(), columns, rows);
        let (range, highlight) = matches.last();
        let before = match_decorations(content, matches.drop_last(), columns as int, rows as int);
        let all = match_decorations(content, matches, columns as int, rows as int);
        let spans = visible_spans(
            range.start,
            range.end,
            false,
            columns as int,
            visible_lines(content.display_offset as int, rows as int),
        );
        let last = span_decorations(
            content.grid@,
            content.display_offset as int,
            spans,
            highlight_kind(highlight),
            columns as int,
            rows as int,
        );
        lemma_span_decorations(
            content.grid@,
            content.display_offset as int,
            visible_spans(
                range.start,
                range.end,
                false,
                columns as int,
                visible_lines(content.display_offset as int, rows as int),
            ),
            highlight_kind(highlight),
            columns,
            rows,
        );
        assert forall|i: int| 0 <= i < all.len() implies decorates_screen(
            #[trigger] all[i],
            columns as int,
            rows as int,
        ) by {
            if i < before.len() {
                assert(all[i] == before[i]);
            } else {
                assert(all[i] == last[i - before.len()]);
            }
        }
    }
}

/// The decorations of a frame are sorted by row, lie on the screen, and none of
/// them is empty.
pub proof fn decorations_stay_on_screen(
    content: TerminalContent,
    matches: Seq<(SearchMatch, SearchHighlight)>,
    columns: usize,
    rows: usize,
)
    ensures
        ordering::ascending(frame_decorations(content, matches, columns as int, rows as int)),
        forall|i: int|
            0 <= i < frame_decorations(content, matches, columns as int, rows as int).len()
                ==> decorates_screen(
                #[trigger] frame_decorations(content, matches, columns as int, rows as int)[i],
                columns as int,
                rows as int,
            ),
{
    let all = selection_decorations(content, columns as int, rows as int) + match_decorations(
        content,
        matches,
        columns as int,
        rows as int,
    );
    if let Some(range) = content.selection {
        lemma_span_decorations(
            content.grid@,
            content.display_offset as int,
            visible_spans(
                range.start,
                range.end,
                range.is_block,
                columns as int,
                visible_lines(content.display_offset as int, rows as int),
            ),
            DecorationKind::Selection,
            columns,
            rows,
        );
    }
    lemma_match_decorations(content, matches, columns, rows);
    ordering::sort_is_stable(all);
    ordering::sort_keeps_members(all);
    let sorted = frame_decorations(content, matches, columns as int, rows as int);
    assert forall|i: int| 0 <= i < sorted.len() implies decorates_screen(
        #[trigger] sorted[i],
        columns as int,
        rows as int,
    ) by {
        assert(all.contains(sorted[i]));
    }
}

/// Whether one of the spans covers a cell.
pub open spec fn covered(spans: Seq<RowSpan>, line: int, column: int) -> bool {
    exists|i: int|
        0 <= i < spans.len() && (#[trigger] spans[i]).line == line && spans[i].first <= column
            <= spans[i].last
}

proof fn lemma_line_spans_cover(
    from: int,
    to: int,
    start: GridPoint,
    end: GridPoint,
    block: bool,
    columns: int,
    line: int,
    column: int,
)
    requires
        0 < columns <= usize::MAX,
        i32::MIN <= from,
        to <= i32::MAX + 1,
    ensures
        covered(line_spans(from, to, start, end, block, columns), line, column) <==> from <= line
            < to && covered(line_span(line, start, end, block, columns), line, column),
    decreases to - from,
{
    if from < to {
        lemma_line_spans_cover(from, to - 1, start, end, block, columns, line, column);
        let before = line_spans(from, to - 1, start, end, block, columns);
        let last = line_span(to - 1, start, end, block, columns);
        let all = before + last;
        if covered(all, line, column) {
            let i = choose|i: int|
                0 <= i < all.len() && (#[trigger] all[i]).line == line && all[i].first <= column
                    <= all[i].last;
            if i < before.len() {
                assert(before[i] == all[i]);
                assert(covered(before, line, column));
            } else {
                assert(last[i - before.len()] == all[i]);
                assert(covered(last, line, column));
            }
        }
        if covered(before, line, column) {
            let i = choose|i: int|
                0 <= i < before.len() && (#[trigger] before[i]).line == line && before[i].first
                    <= column <= before[i].last;
            assert(all[i] == before[i]);
        }
        if line == to - 1 && covered(last, line, column) {
            assert(all[before.len() as int] == last[0]);
        }
    }
}

/// The spans of a range of cells cover exactly its visible cells: of a plain
/// range those between its ends in reading order, of a block those between its
/// ends in both directions.
pub proof fn spans_cover_exactly_the_range(
    start: GridPoint,
    end: GridPoint,
    block: bool,
    columns: usize,
    visible: (i32, i32),
    cell: GridPoint,
)
    requires
        start.column < columns,
        end.column < columns,
        cell.column < columns,
        visible.0 <= cell.line <= visible.1,
    ensures
        covered(
            visible_spans(
                start,
                end,
                block,
                columns as int,
                (visible.0 as int, visible.1 as int),
            ),
            cell.line as int,
            cell.column as int,
        ) <==> (if block {
            start.line <= cell.line <= end.line && start.column <= cell.column <= end.column
        } else {
            start.line <= end.line && start.not_after(cell) && cell.not_after(end)
        }),
{
    if start.line <= end.line {
        let from = if start.line > visible.0 {
            start.line as int
        } else {
            visible.0 as int
        };
        let to = least(end.line as int, visible.1 as int) + 1;
        lemma_line_spans_cover(
            from,
            to,
            start,
            end,
            block,
            columns as int,
            cell.line as int,
            cell.column as int,
        );
        let span = line_span(cell.line as int, start, end, block, columns as int);
        if span.len() > 0 {
            assert(span[0].line == cell.line);
            assert(covered(span, cell.line as int, cell.column as int) <==> span[0].first
                <= cell.column <= span[0].last);
        }
    }
}

/// Reverse video exchanges the colours of a cell and changes nothing else: of two
/// cells that differ in it only, and that are not dim, one is drawn with the
/// colours of the other exchanged. The plain one has the colours it was given.
pub proof fn inverse_cells_exchange_their_colors(
    plain: GridCell,
    inverse: GridCell,
    column: int,
    overrides: Seq<Option<RgbColor>>,
    theme: TerminalTheme,
)
    requires
        plain.flags.bits & 0x0081 == 0,
        inverse.flags.bits == plain.flags.bits | 0x0001,
        inverse.character == plain.character,
        inverse.zerowidth@ == plain.zerowidth@,
        inverse.foreground == plain.foreground,
        inverse.background == plain.background,
    ensures
        drawn_cell(plain, column, overrides, theme).foreground == palette::resolved_color(
            plain.foreground,
            overrides,
            theme,
        ),
        drawn_cell(plain, column, overrides, theme).background == palette::resolved_color(
            plain.background,
            overrides,
            theme,
        ),
        drawn_cell(inverse, column, overrides, theme) == (CellView {
            foreground: drawn_cell(plain, column, overrides, theme).background,
            background: drawn_cell(plain, column, overrides, theme).foreground,
            ..drawn_cell(plain, column, overrides, theme)
        }),
{
    let bits = plain.flags.bits;
    assert(bits & 0x0081 == 0 ==> bits & 0x0001 == 0 && bits & 0x0080 == 0) by (bit_vector);
    assert((bits | 0x0001) & 0x0001 == 0x0001) by (bit_vector);
    lemma_other_bits_stay(bits, 0x0001);
}

/// A dim cell is drawn as the same cell that is not, but with its text at two
/// thirds of the strength; its background stays.
pub proof fn dim_cells_have_darker_text(
    plain: GridCell,
    dim: GridCell,
    column: int,
    overrides: Seq<Option<RgbColor>>,
    theme: TerminalTheme,
)
    requires
        plain.flags.bits & 0x0080 == 0,
        dim.flags.bits == plain.flags.bits | 0x0080,
        dim.character == plain.character,
        dim.zerowidth@ == plain.zerowidth@,
        dim.foreground == plain.foreground,
        dim.background == plain.background,
    ensures
        ({
            let light = drawn_cell(plain, column, overrides, theme).foreground;
            let dark = drawn_cell(dim, column, overrides, theme).foreground;
            &&& drawn_cell(dim, column, overrides, theme) == (CellView {
                foreground: dark,
                ..drawn_cell(plain, column, overrides, theme)
            })
            &&& 3 * dark.red <= 2 * light.red < 3 * dark.red + 3
            &&& 3 * dark.green <= 2 * light.green < 3 * dark.green + 3
            &&& 3 * dark.blue <= 2 * light.blue < 3 * dark.blue + 3
        }),
{
    let bits = plain.flags.bits;
    assert((bits | 0x0080) & 0x0080 == 0x0080) by (bit_vector);
    lemma_other_bits_stay(bits, 0x0080);
}

proof fn lemma_other_bits_stay(bits: u16, bit: u16)
    requires
        bit == 0x0001 || bit == 0x0080,
    ensures
        forall|mask: u16| mask & bit == 0 ==> #[trigger] ((bits | bit) & mask) == bits & mask,
        0x0001u16 & 0x0080 == 0,
        0x0080u16 & 0x0001 == 0,
        0x0002u16 & bit == 0,
        0x0004u16 & bit == 0,
        0x0008u16 & bit == 0,
        0x0020u16 & bit == 0,
        0x0100u16 & bit == 0,
        0x0200u16 & bit == 0,
        0x0400u16 & bit == 0,
        0x0800u16 & bit == 0,
        0x1000u16 & bit == 0,
        0x2000u16 & bit == 0,
        0x4000u16 & bit == 0,
{
    assert forall|mask: u16| mask & bit == 0 implies #[trigger] ((bits | bit) & mask) == bits
        & mask by {
        assert(mask & bit == 0 ==> (bits | bit) & mask == bits & mask) by (bit_vector);
    }
    assert(0x0001u16 & 0x0080 == 0 && 0x0080u16 & 0x0001 == 0) by (bit_vector);
    assert(bit == 0x0001 || bit == 0x0080 ==> 0x0002u16 & bit == 0 && 0x0004u16 & bit == 0
        && 0x0008u16 & bit == 0 && 0x0020u16 & bit == 0 && 0x0100u16 & bit == 0 && 0x0200u16 & bit
        == 0 && 0x0400u16 & bit == 0 && 0x0800u16 & bit == 0 && 0x1000u16 & bit == 0 && 0x2000u16
        & bit == 0 && 0x4000u16 & bit == 0) by (bit_vector);
}

/// A cell shows its character with the marks on it, at its column. A hidden cell
/// shows nothing, nor does the gap that is left before a wide character at the end
/// of a line.
pub proof fn cells_show_their_character(
    cell: GridCell,
    column: int,
    overrides: Seq<Option<RgbColor>>,
    theme: TerminalTheme,
)
    ensures
        ({
            let drawn = drawn_cell(cell, column, overrides, theme);
            let shown = cell.flags.bits & 0x0100 != 0x0100 && cell.flags.bits & 0x0400 != 0x0400;
            &&& drawn.column == column
            &&& shown ==> drawn.character == cell.character
            &&& shown && cell.zerowidth@.len() > 0 ==> drawn.zerowidth == Some(cell.zerowidth@)
            &&& !shown ==> drawn.character == ' '
            &&& !shown || cell.zerowidth@.len() == 0 ==> drawn.zerowidth is None
            &&& drawn.hidden == (cell.flags.bits & 0x0100 == 0x0100)
        }),
{
}

/// The style of a cell is that of its flags, one bit for each: bold, italic and
/// strikeout are passed on, and of two kinds of underline the more special one
/// counts. A wide character takes two columns, any other one.
pub proof fn cells_have_the_style_of_their_flags(
    cell: GridCell,
    column: int,
    overrides: Seq<Option<RgbColor>>,
    theme: TerminalTheme,
)
    ensures
        ({
            let drawn = drawn_cell(cell, column, overrides, theme);
            let bits = cell.flags.bits;
            &&& drawn.bold == (bits & 0x0002 == 0x0002)
            &&& drawn.italic == (bits & 0x0004 == 0x0004)
            &&& drawn.strikeout == (bits & 0x0200 == 0x0200)
            &&& drawn.width_in_columns == 2 <==> bits & 0x0020 == 0x0020
            &&& drawn.width_in_columns == 1 <==> bits & 0x0020 != 0x0020
            &&& drawn.underline_style == 2 <==> bits & 0x0800 == 0x0800
            &&& drawn.underline_style == 3 <==> bits & 0x0800 != 0x0800 && bits & 0x1000 == 0x1000
            &&& drawn.underline_style == 4 <==> bits & 0x0800 != 0x0800 && bits & 0x1000 != 0x1000
                && bits & 0x2000 == 0x2000
            &&& drawn.underline_style == 5 <==> bits & 0x0800 != 0x0800 && bits & 0x1000 != 0x1000
                && bits & 0x2000 != 0x2000 && bits & 0x4000 == 0x4000
            &&& drawn.underline_style == 0 <==> bits & 0x0800 != 0x0800 && bits & 0x1000 != 0x1000
                && bits & 0x2000 != 0x2000 && bits & 0x4000 != 0x4000 && bits & 0x0008 != 0x0008
            &&& 0 <= drawn.underline_style <= 5
        }),
{
}

/// What is drawn for a range of columns has one cell for each column that is not
/// the second half of a wide character, in the order of the columns.
pub proof fn patches_hold_every_character(
    row: Seq<GridCell>,
    from: int,
    to: int,
    overrides: Seq<Option<RgbColor>>,
    theme: TerminalTheme,
)
    requires
        0 <= from,
        to <= row.len(),
    ensures
        ({
            let cells = drawn_cells(row, from, to, overrides, theme);
            &&& forall|i: int|
                0 <= i < cells.len() ==> from <= (#[trigger] cells[i]).column < to
                    && row[cells[i].column].flags.bits & 0x0040 != 0x0040 && cells[i] == drawn_cell(
                    row[cells[i].column],
                    cells[i].column,
                    overrides,
                    theme,
                )
            &&& forall|i: int, j: int|
                0 <= i < j < cells.len() ==> (#[trigger] cells[i]).column < (
                #[trigger] cells[j]).column
            &&& forall|column: int|
                from <= column < to && (#[trigger] row[column]).flags.bits & 0x0040 != 0x0040
                    ==> cells.contains(drawn_cell(row[column], column, overrides, theme))
        }),
    decreases to - from,
{
    if from < to {
        patches_hold_every_character(row, from, to - 1, overrides, theme);
        let before = drawn_cells(row, from, to - 1, overrides, theme);
        let cells = drawn_cells(row, from, to, overrides, theme);
        assert forall|column: int|
            from <= column < to && (#[trigger] row[column]).flags.bits & 0x0040
                != 0x0040 implies cells.contains(
            drawn_cell(row[column], column, overrides, theme),
        ) by {
            let wanted = drawn_cell(row[column], column, overrides, theme);
            if column < to - 1 {
                assert(before.contains(wanted));
                let i = choose|i: int| 0 <= i < before.len() && before[i] == wanted;
                assert(cells[i] == wanted);
            } else {
                assert(cells[before.len() as int] == wanted);
            }
        }
    }
}

/// The cursor of a frame stands where the program has it, moved down by as many
/// lines as the view is scrolled back. It is seen if the program shows it and its
/// row is on the screen.
pub proof fn cursors_move_with_the_view(content: TerminalContent, rows: int)
    requires
        content.display_offset <= i32::MAX,
    ensures
        ({
            let cursor = frame_cursor(content, rows);
            let row = content.cursor_point.line + content.display_offset;
            &&& cursor.column == content.cursor_point.column
            &&& cursor.blinking == content.cursor_blinking
            &&& cursor.visible <==> content.cursor_shape !is Hidden && 0 <= row && row < rows
            &&& row >= 0 ==> cursor.row == row
            &&& row < 0 ==> cursor.row == 0
            &&& cursor.shape == 1 <==> content.cursor_shape is Underline
            &&& cursor.shape == 2 <==> content.cursor_shape is Beam
            &&& cursor.shape == 3 <==> content.cursor_shape is HollowBlock
            &&& cursor.shape == 0 <==> content.cursor_shape is Block || content.cursor_shape
                is Hidden
        }),
{
}

proof fn lemma_patches_of_spans(
    grid: Seq<Vec<GridCell>>,
    spans: Seq<DamagedSpan>,
    columns: int,
    overrides: Seq<Option<RgbColor>>,
    theme: TerminalTheme,
)
    ensures
        forall|k: int|
            0 <= k < spans.len() && (#[trigger] spans[k]).start_column < spans[k].end_column
                ==> row_patches(grid, spans, columns, overrides, theme).contains(
                row_patch(grid, spans[k], columns, overrides, theme),
            ),
        forall|i: int|
            0 <= i < row_patches(grid, spans, columns, overrides, theme).len() ==> exists|k: int|
                0 <= k < spans.len() && (#[trigger] spans[k]).start_column < spans[k].end_column
                    && #[trigger] row_patches(grid, spans, columns, overrides, theme)[i]
                    == row_patch(grid, spans[k], columns, overrides, theme),
    decreases spans.len(),
{
    if spans.len() > 0 {
        let shorter = spans.drop_last();
        lemma_patches_of_spans(grid, shorter, columns, overrides, theme);
        let before = row_patches(grid, shorter, columns, overrides, theme);
        let all = row_patches(grid, spans, columns, overrides, theme);
        assert forall|k: int|
            0 <= k < spans.len() && (#[trigger] spans[k]).start_column
                < spans[k].end_column implies all.contains(
            row_patch(grid, spans[k], columns, overrides, theme),
        ) by {
            let wanted = row_patch(grid, spans[k], columns, overrides, theme);
            if k < shorter.len() {
                assert(shorter[k] == spans[k]);
                assert(before.contains(wanted));
                let i = choose|i: int| 0 <= i < before.len() && before[i] == wanted;
                assert(all[i] == wanted);
            } else {
                assert(all[before.len() as int] == wanted);
            }
        }
        assert forall|i: int| 0 <= i < all.len() implies exists|k: int|
            0 <= k < spans.len() && (#[trigger] spans[k]).start_column < spans[k].end_column
                && #[trigger] all[i] == row_patch(grid, spans[k], columns, overrides, theme) by {
            if i < before.len() {
                assert(before[i] == all[i]);
                let k = choose|k: int|
                    0 <= k < shorter.len() && (#[trigger] shorter[k]).start_column
                        < shorter[k].end_column && before[i] == row_patch(
                        grid,
                        shorter[k],
                        columns,
                        overrides,
                        theme,
                    );
                assert(spans[k] == shorter[k]);
            } else {
                assert(spans[spans.len() - 1] == spans.last());
            }
        }
    }
}

proof fn lemma_reported_damage(lines: Seq<LineDamage>, columns: int, rows: int, place: int)
    requires
        0 <= place < lines.len(),
        lines[place].line < rows,
        lines[place].left < columns,
        columns <= usize::MAX,
    ensures
        damage_on_screen(lines, columns, rows).contains(
            DamagedSpan {
                row: lines[place].line,
                start_column: lines[place].left,
                end_column: if lines[place].right < columns {
                    (lines[place].right + 1) as usize
                } else {
                    columns as usize
                },
            },
        ),
    decreases lines.len(),
{
    let shorter = lines.drop_last();
    let before = damage_on_screen(shorter, columns, rows);
    let all = damage_on_screen(lines, columns, rows);
    let wanted = DamagedSpan {
        row: lines[place].line,
        start_column: lines[place].left,
        end_column: if lines[place].right < columns {
            (lines[place].right + 1) as usize
        } else {
            columns as usize
        },
    };
    if place < shorter.len() {
        assert(shorter[place] == lines[place]);
        lemma_reported_damage(shorter, columns, rows, place);
        let i = choose|i: int| 0 <= i < before.len() && before[i] == wanted;
        assert(all[i] == wanted);
    } else {
        assert(all[before.len() as int] == wanted);
    }
}

proof fn lemma_whole_row_added(spans: Seq<DamagedSpan>, row: usize, columns: int)
    ensures
        with_whole_row(spans, row, columns).contains(
            DamagedSpan { row, start_column: 0, end_column: columns as usize },
        ),
        forall|span: DamagedSpan|
            spans.contains(span) && span.row != row ==> #[trigger] with_whole_row(
                spans,
                row,
                columns,
            ).contains(span),
        first_of_row(spans, row) < spans.len() ==> spans[first_of_row(spans, row)].row == row,
{
    lemma_first_of_row(spans, row);
    lemma_first_of_row_has_row(spans, row);
    let all = with_whole_row(spans, row, columns);
    let index = first_of_row(spans, row);
    if index < spans.len() {
        assert(all[index].row == row);
    } else {
        assert(all[spans.len() as int].row == row);
    }
    assert forall|span: DamagedSpan| spans.contains(span) && span.row != row implies #[trigger] with_whole_row(
        spans,
        row,
        columns,
    ).contains(span) by {
        let i = choose|i: int| 0 <= i < spans.len() && spans[i] == span;
        assert(all[i] == span);
    }
}

proof fn lemma_first_of_row_has_row(spans: Seq<DamagedSpan>, row: usize)
    ensures
        first_of_row(spans, row) < spans.len() ==> spans[first_of_row(spans, row)].row == row,
    decreases spans.len(),
{
    if spans.len() > 0 && spans.first().row != row {
        lemma_first_of_row(spans.drop_first(), row);
        lemma_first_of_row_has_row(spans.drop_first(), row);
    }
}

proof fn lemma_sorted_contains<T: Keyed>(items: Seq<T>, item: T)
    requires
        items.contains(item),
    ensures
        ordering::sorted_by_key(items).contains(item),
{
    broadcast use vstd::seq_lib::group_to_multiset_ensures;

    ordering::sort_is_stable(items);
    assert(items.to_multiset().count(item) > 0);
    assert(ordering::sorted_by_key(items).to_multiset().count(item) > 0);
}

/// Whether one of the patches of a frame holds a cell.
pub open spec fn patched(patches: Seq<RowView>, row: int, column: int) -> bool {
    exists|i: int|
        0 <= i < patches.len() && (#[trigger] patches[i]).row == row && patches[i].start_column
            <= column < patches[i].end_column
}

/// A frame redraws every cell on the screen that the terminal reports as changed,
/// every cell of the line in which the program writes, and every cell at all
/// where a redraw was asked for or the terminal reports everything.
pub proof fn changes_are_redrawn(
    content: TerminalContent,
    columns: usize,
    rows: usize,
    generation: u64,
    forced: Option<FullRedrawReason>,
    theme: TerminalTheme,
    search: SearchView,
    matches: Seq<(SearchMatch, SearchHighlight)>,
    row: int,
    column: int,
)
    requires
        content.well_formed(columns as int, rows as int),
        0 <= row < rows,
        0 <= column < columns,
        forced is Some || content.damage is Full || content.writing_line == row || exists|k: int|
            0 <= k < content.damage->Partial_0@.len() && (
            #[trigger] content.damage->Partial_0@[k]).line == row
                && content.damage->Partial_0@[k].left <= column
                <= content.damage->Partial_0@[k].right,
    ensures
        patched(
            captured_frame(
                content,
                columns as int,
                rows as int,
                generation,
                forced,
                theme,
                search,
                matches,
            ).changed_rows,
            row,
            column,
        ),
{
    let spans = damaged_spans(content, columns as int, rows as int, forced);
    let sorted = ordering::sorted_by_key(spans);
    let patches = row_patches(
        content.grid@,
        sorted,
        columns as int,
        content.colors.entries@,
        theme,
    );
    let whole = DamagedSpan { row: row as usize, start_column: 0, end_column: columns };
    let wanted = if forced is Some || content.damage is Full {
        assert(spans[row] == whole);
        whole
    } else {
        let lines = content.damage->Partial_0@;
        let reported = damage_on_screen(lines, columns as int, rows as int);
        if content.writing_line == row {
            lemma_whole_row_added(reported, row as usize, columns as int);
            whole
        } else {
            let k = choose|k: int|
                0 <= k < lines.len() && (#[trigger] lines[k]).line == row && lines[k].left
                    <= column <= lines[k].right;
            lemma_reported_damage(lines, columns as int, rows as int, k);
            if 0 <= content.writing_line < rows {
                lemma_whole_row_added(
                    reported,
                    content.writing_line as usize,
                    columns as int,
                );
            }
            DamagedSpan {
                row: lines[k].line,
                start_column: lines[k].left,
                end_column: if lines[k].right < columns {
                    (lines[k].right + 1) as usize
                } else {
                    columns
                },
            }
        }
    };
    assert(spans.contains(wanted));
    lemma_sorted_contains(spans, wanted);
    let place = choose|i: int| 0 <= i < sorted.len() && sorted[i] == wanted;
    lemma_patches_of_spans(
        content.grid@,
        sorted,
        columns as int,
        content.colors.entries@,
        theme,
    );
    let patch = row_patch(content.grid@, wanted, columns as int, content.colors.entries@, theme);
    assert(sorted[place].start_column < sorted[place].end_column);
    assert(patches.contains(patch));
    let i = choose|i: int| 0 <= i < patches.len() && patches[i] == patch;
    assert(patches[i].row == row && patches[i].start_column <= column < patches[i].end_column);
}

/// A frame says where the view stands in the history, which grid it belongs to and
/// what is searched for, and it counts as a redraw of everything if and only if
/// one was asked for or the terminal reports everything. A request is the reason
/// that is given where there is one.
pub proof fn frames_describe_the_view(
    content: TerminalContent,
    columns: usize,
    rows: usize,
    generation: u64,
    forced: Option<FullRedrawReason>,
    theme: TerminalTheme,
    search: SearchView,
    matches: Seq<(SearchMatch, SearchHighlight)>,
)
    ensures
        ({
            let frame = captured_frame(
                content,
                columns as int,
                rows as int,
                generation,
                forced,
                theme,
                search,
                matches,
            );
            &&& frame.generation == generation
            &&& frame.columns == columns
            &&& frame.rows == rows
            &&& frame.search == search
            &&& !frame.metadata_only
            &&& frame.title is None
            &&& frame.exit_message is None
            &&& frame.scroll_offset == content.display_offset
            &&& content.total_lines >= content.screen_lines ==> frame.scroll_history_lines
                + content.screen_lines == content.total_lines
            &&& content.total_lines < content.screen_lines ==> frame.scroll_history_lines == 0
            &&& frame.full_redraw <==> forced is Some || content.damage is Full
            &&& forced is Some ==> frame.full_redraw_reason == forced
            &&& forced is None && content.damage is Full ==> frame.full_redraw_reason == Some(
                FullRedrawReason::TerminalDamage,
            )
            &&& forced is None && content.damage is Partial ==> frame.full_redraw_reason is None
        }),
{
}

/// Whether one of the decorations marks a cell as something.
pub open spec fn decorated(
    decorations: Seq<DecorationRange>,
    kind: DecorationKind,
    row: int,
    column: int,
) -> bool {
    exists|i: int|
        0 <= i < decorations.len() && (#[trigger] decorations[i]).kind == kind && decorations[i].row
            == row && decorations[i].start_column <= column < decorations[i].end_column
}

/// Whether no cell of a row belongs to a wide character.
pub open spec fn narrow(row: Seq<GridCell>) -> bool {
    forall|column: int| 0 <= column < row.len() ==> (#[trigger] row[column]).flags.bits & 0x0060 == 0
}

proof fn lemma_narrow(row: Seq<GridCell>, column: int)
    requires
        narrow(row),
        0 <= column < row.len(),
    ensures
        row[column].flags.bits & 0x0020 != 0x0020,
        row[column].flags.bits & 0x0040 != 0x0040,
{
    let bits = row[column].flags.bits;
    assert(bits & 0x0060 == 0 ==> bits & 0x0020 != 0x0020 && bits & 0x0040 != 0x0040)
        by (bit_vector);
}

proof fn lemma_decorated_parts(
    left: Seq<DecorationRange>,
    right: Seq<DecorationRange>,
    kind: DecorationKind,
    row: int,
    column: int,
)
    ensures
        decorated(left + right, kind, row, column) <==> decorated(left, kind, row, column)
            || decorated(right, kind, row, column),
{
    let all = left + right;
    if decorated(all, kind, row, column) {
        let i = choose|i: int|
            0 <= i < all.len() && (#[trigger] all[i]).kind == kind && all[i].row == row
                && all[i].start_column <= column < all[i].end_column;
        if i < left.len() {
            assert(left[i] == all[i]);
        } else {
            assert(right[i - left.len()] == all[i]);
        }
    }
    if decorated(left, kind, row, column) {
        let i = choose|i: int|
            0 <= i < left.len() && (#[trigger] left[i]).kind == kind && left[i].row == row
                && left[i].start_column <= column < left[i].end_column;
        assert(all[i] == left[i]);
    }
    if decorated(right, kind, row, column) {
        let i = choose|i: int|
            0 <= i < right.len() && (#[trigger] right[i]).kind == kind && right[i].row == row
                && right[i].start_column <= column < right[i].end_column;
        assert(all[left.len() + i] == right[i]);
    }
}

proof fn lemma_decorated_sorted(
    items: Seq<DecorationRange>,
    kind: DecorationKind,
    row: int,
    column: int,
)
    ensures
        decorated(ordering::sorted_by_key(items), kind, row, column) <==> decorated(
            items,
            kind,
            row,
            column,
        ),
{
    let sorted = ordering::sorted_by_key(items);
    ordering::sort_keeps_members(items);
    if decorated(sorted, kind, row, column) {
        let i = choose|i: int|
            0 <= i < sorted.len() && (#[trigger] sorted[i]).kind == kind && sorted[i].row == row
                && sorted[i].start_column <= column < sorted[i].end_column;
        assert(items.contains(sorted[i]));
        let j = choose|j: int| 0 <= j < items.len() && items[j] == sorted[i];
        assert(items[j].kind == kind);
    }
    if decorated(items, kind, row, column) {
        let i = choose|i: int|
            0 <= i < items.len() && (#[trigger] items[i]).kind == kind && items[i].row == row
                && items[i].start_column <= column < items[i].end_column;
        assert(items.contains(items[i]));
        lemma_sorted_contains(items, items[i]);
        let j = choose|j: int| 0 <= j < sorted.len() && sorted[j] == items[i];
        assert(sorted[j].kind == kind);
    }
}

proof fn lemma_decorated_spans(
    grid: Seq<Vec<GridCell>>,
    display_offset: int,
    spans: Seq<RowSpan>,
    made: DecorationKind,
    columns: usize,
    rows: usize,
    kind: DecorationKind,
    row: int,
    column: int,
)
    requires
        0 <= row < rows <= grid.len(),
        0 <= column < columns <= grid[row]@.len(),
        forall|i: int|
            0 <= i < spans.len() ==> (#[trigger] spans[i]).first <= spans[i].last < columns,
    ensures
        kind == made && covered(spans, row - display_offset, column) ==> decorated(
            span_decorations(
                grid,
                display_offset,
                spans,
                made,
                columns as int,
                rows as int,
            ),
            kind,
            row,
            column,
        ),
        decorated(
            span_decorations(
                grid,
                display_offset,
                spans,
                made,
                columns as int,
                rows as int,
            ),
            kind,
            row,
            column,
        ) ==> kind == made && (narrow(grid[row]@) ==> covered(
            spans,
            row - display_offset,
            column,
        )),
    decreases spans.len(),
{
    let all = span_decorations(grid, display_offset, spans, made, columns as int, rows as int);
    if spans.len() > 0 {
        let shorter = spans.drop_last();
        let last = spans.last();
        assert forall|i: int| 0 <= i < shorter.len() implies (#[trigger] shorter[i]).first
            <= shorter[i].last < columns by {
            assert(spans[i] == shorter[i]);
        }
        lemma_decorated_spans(
            grid,
            display_offset,
            shorter,
            made,
            columns,
            rows,
            kind,
            row,
            column,
        );
        let before = span_decorations(
            grid,
            display_offset,
            shorter,
            made,
            columns as int,
            rows as int,
        );
        let added = span_decoration(
            grid,
            display_offset,
            last,
            made,
            columns as int,
            rows as int,
        );
        lemma_decorated_parts(before, added, kind, row, column);
        assert(spans[spans.len() - 1] == last);
        if covered(spans, row - display_offset, column) {
            let i = choose|i: int|
                0 <= i < spans.len() && (#[trigger] spans[i]).line == row - display_offset
                    && spans[i].first <= column <= spans[i].last;
            if i < shorter.len() {
                assert(shorter[i] == spans[i]);
            } else if kind == made {
                assert(added[0].kind == kind);
            }
        }
        if covered(shorter, row - display_offset, column) {
            let i = choose|i: int|
                0 <= i < shorter.len() && (#[trigger] shorter[i]).line == row - display_offset
                    && shorter[i].first <= column <= shorter[i].last;
            assert(spans[i] == shorter[i]);
        }
        if decorated(added, kind, row, column) {
            assert(added[0].kind == kind);
            if narrow(grid[row]@) {
                lemma_narrow(grid[row]@, last.first as int);
                lemma_narrow(grid[row]@, last.last as int);
                assert(last.line == row - display_offset);
                assert(last.first <= column <= last.last);
            }
        }
    }
}

proof fn lemma_spans_are_ranges(
    from: int,
    to: int,
    start: GridPoint,
    end: GridPoint,
    block: bool,
    columns: usize,
)
    requires
        columns > 0,
    ensures
        forall|i: int|
            0 <= i < line_spans(from, to, start, end, block, columns as int).len() ==> (
            #[trigger] line_spans(from, to, start, end, block, columns as int)[i]).first
                <= line_spans(from, to, start, end, block, columns as int)[i].last < columns,
    decreases to - from,
{
    if from < to {
        lemma_spans_are_ranges(from, to - 1, start, end, block, columns);
        let before = line_spans(from, to - 1, start, end, block, columns as int);
        let last = line_span(to - 1, start, end, block, columns as int);
        let all = line_spans(from, to, start, end, block, columns as int);
        assert forall|i: int| 0 <= i < all.len() implies (#[trigger] all[i]).first
            <= all[i].last < columns by {
            if i < before.len() {
                assert(all[i] == before[i]);
            } else {
                assert(all[i] == last[0]);
            }
        }
    }
}

/// Whether a range of cells holds a cell. A block takes the same columns of each
/// line; any other range goes from its first to its last cell as text is read.
pub open spec fn range_holds(
    start: GridPoint,
    end: GridPoint,
    block: bool,
    line: int,
    column: int,
) -> bool {
    &&& start.line <= line <= end.line
    &&& block || line == start.line ==> start.column <= column
    &&& block || line == end.line ==> column <= end.column
}

proof fn lemma_decorated_range(
    content: TerminalContent,
    start: GridPoint,
    end: GridPoint,
    block: bool,
    made: DecorationKind,
    columns: usize,
    rows: usize,
    kind: DecorationKind,
    row: int,
    column: int,
)
    requires
        content.well_formed(columns as int, rows as int),
        0 <= row < rows,
        0 <= column < columns,
        start.column < columns,
        end.column < columns,
    ensures
        ({
            let decorations = span_decorations(
                content.grid@,
                content.display_offset as int,
                visible_spans(
                    start,
                    end,
                    block,
                    columns as int,
                    visible_lines(content.display_offset as int, rows as int),
                ),
                made,
                columns as int,
                rows as int,
            );
            &&& kind == made && range_holds(start, end, block, row - content.display_offset, column)
                ==> decorated(decorations, kind, row, column)
            &&& decorated(decorations, kind, row, column) ==> kind == made && (narrow(
                content.grid@[row]@,
            ) ==> range_holds(start, end, block, row - content.display_offset, column))
        }),
{
    let visible = visible_lines(content.display_offset as int, rows as int);
    let spans = visible_spans(start, end, block, columns as int, visible);
    let line = row - content.display_offset;
    assert(content.grid@[row]@.len() >= columns);
    if start.line <= end.line {
        let from = if start.line > visible.0 {
            start.line as int
        } else {
            visible.0
        };
        let to = least(end.line as int, visible.1) + 1;
        lemma_spans_are_ranges(from, to, start, end, block, columns);
        lemma_line_spans_cover(from, to, start, end, block, columns as int, line, column);
        let span = line_span(line, start, end, block, columns as int);
        if span.len() > 0 {
            assert(span[0].line == line);
            assert(covered(span, line, column) <==> span[0].first <= column <= span[0].last);
        }
    }
    lemma_decorated_spans(
        content.grid@,
        content.display_offset as int,
        spans,
        made,
        columns,
        rows,
        kind,
        row,
        column,
    );
}

proof fn lemma_decorated_matches(
    content: TerminalContent,
    matches: Seq<(SearchMatch, SearchHighlight)>,
    columns: usize,
    rows: usize,
    kind: DecorationKind,
    row: int,
    column: int,
)
    requires
        content.well_formed(columns as int, rows as int),
        0 <= row < rows,
        0 <= column < columns,
        forall|k: int|
            0 <= k < matches.len() ==> (#[trigger] matches[k]).0.start.column < columns
                && matches[k].0.end.column < columns,
    ensures
        forall|k: int|
            0 <= k < matches.len() && highlight_kind((#[trigger] matches[k]).1) == kind
                && range_holds(
                matches[k].0.start,
                matches[k].0.end,
                false,
                row - content.display_offset,
                column,
            ) ==> decorated(
                match_decorations(content, matches, columns as int, rows as int),
                kind,
                row,
                column,
            ),
        decorated(
            match_decorations(content, matches, columns as int, rows as int),
            kind,
            row,
            column,
        ) ==> exists|k: int|
            0 <= k < matches.len() && highlight_kind((#[trigger] matches[k]).1) == kind && (narrow(
                content.grid@[row]@,
            ) ==> range_holds(
                matches[k].0.start,
                matches[k].0.end,
                false,
                row - content.display_offset,
                column,
            )),
    decreases matches.len(),
{
    if matches.len() > 0 {
        let shorter = matches.drop_last();
        assert forall|k: int| 0 <= k < shorter.len() implies (
        #[trigger] shorter[k]).0.start.column < columns && shorter[k].0.end.column < columns by {
            assert(matches[k] == shorter[k]);
        }
        lemma_decorated_matches(content, shorter, columns, rows, kind, row, column);
        let (range, highlight) = matches.last();
        assert(matches[matches.len() - 1] == matches.last());
        lemma_decorated_range(
            content,
            range.start,
            range.end,
            false,
            highlight_kind(highlight),
            columns,
            rows,
            kind,
            row,
            column,
        );
        let before = match_decorations(content, shorter, columns as int, rows as int);
        let added = span_decorations(
            content.grid@,
            content.display_offset as int,
            visible_spans(
                range.start,
                range.end,
                false,
                columns as int,
                visible_lines(content.display_offset as int, rows as int),
            ),
            highlight_kind(highlight),
            columns as int,
            rows as int,
        );
        lemma_decorated_parts(before, added, kind, row, column);
        assert forall|k: int|
            0 <= k < matches.len() && highlight_kind((#[trigger] matches[k]).1) == kind
                && range_holds(
                matches[k].0.start,
                matches[k].0.end,
                false,
                row - content.display_offset,
                column,
            ) implies decorated(
            match_decorations(content, matches, columns as int, rows as int),
            kind,
            row,
            column,
        ) by {
            if k < shorter.len() {
                assert(shorter[k] == matches[k]);
            }
        }
        if decorated(before, kind, row, column) {
            let k = choose|k: int|
                0 <= k < shorter.len() && highlight_kind((#[trigger] shorter[k]).1) == kind && (
                narrow(content.grid@[row]@) ==> range_holds(
                    shorter[k].0.start,
                    shorter[k].0.end,
                    false,
                    row - content.display_offset,
                    column,
                ));
            assert(matches[k] == shorter[k]);
        }
    }
}

/// A frame marks exactly the cells on the screen that are selected. Where a row has
/// wide characters, the other half of a selected one may be marked too.
pub proof fn selected_cells_are_marked(
    content: TerminalContent,
    matches: Seq<(SearchMatch, SearchHighlight)>,
    columns: usize,
    rows: usize,
    row: int,
    column: int,
)
    requires
        content.well_formed(columns as int, rows as int),
        0 <= row < rows,
        0 <= column < columns,
        content.selection matches Some(range) ==> range.start.column < columns && range.end.column
            < columns,
        forall|k: int|
            0 <= k < matches.len() ==> (#[trigger] matches[k]).0.start.column < columns
                && matches[k].0.end.column < columns,
    ensures
        ({
            let marked = decorated(
                frame_decorations(content, matches, columns as int, rows as int),
                DecorationKind::Selection,
                row,
                column,
            );
            match content.selection {
                None => !marked,
                Some(range) => {
                    let selected = range_holds(
                        range.start,
                        range.end,
                        range.is_block,
                        row - content.display_offset,
                        column,
                    );
                    &&& selected ==> marked
                    &&& marked && narrow(content.grid@[row]@) ==> selected
                },
            }
        }),
{
    let kind = DecorationKind::Selection;
    let selection = selection_decorations(content, columns as int, rows as int);
    let found = match_decorations(content, matches, columns as int, rows as int);
    lemma_decorated_sorted(selection + found, kind, row, column);
    lemma_decorated_parts(selection, found, kind, row, column);
    lemma_decorated_matches(content, matches, columns, rows, kind, row, column);
    if let Some(range) = content.selection {
        lemma_decorated_range(
            content,
            range.start,
            range.end,
            range.is_block,
            kind,
            columns,
            rows,
            kind,
            row,
            column,
        );
    }
}

/// A frame marks exactly the cells on the screen that belong to a match, and those
/// of the current match in a way of their own. Where a row has wide characters,
/// the other half of one may be marked too.
pub proof fn matches_are_marked(
    content: TerminalContent,
    matches: Seq<(SearchMatch, SearchHighlight)>,
    columns: usize,
    rows: usize,
    row: int,
    column: int,
    current: bool,
)
    requires
        content.well_formed(columns as int, rows as int),
        0 <= row < rows,
        0 <= column < columns,
        content.selection matches Some(range) ==> range.start.column < columns && range.end.column
            < columns,
        forall|k: int|
            0 <= k < matches.len() ==> (#[trigger] matches[k]).0.start.column < columns
                && matches[k].0.end.column < columns,
    ensures
        ({
            let marked = decorated(
                frame_decorations(content, matches, columns as int, rows as int),
                if current {
                    DecorationKind::SearchCurrent
                } else {
                    DecorationKind::SearchMatch
                },
                row,
                column,
            );
            let found = exists|k: int|
                0 <= k < matches.len() && (#[trigger] matches[k]).1 == (if current {
                    SearchHighlight::Current
                } else {
                    SearchHighlight::Match
                }) && range_holds(
                    matches[k].0.start,
                    matches[k].0.end,
                    false,
                    row - content.display_offset,
                    column,
                );
            &&& found ==> marked
            &&& marked && narrow(content.grid@[row]@) ==> found
        }),
{
    let kind = if current {
        DecorationKind::SearchCurrent
    } else {
        DecorationKind::SearchMatch
    };
    let selection = selection_decorations(content, columns as int, rows as int);
    let found = match_decorations(content, matches, columns as int, rows as int);
    lemma_decorated_sorted(selection + found, kind, row, column);
    lemma_decorated_parts(selection, found, kind, row, column);
    lemma_decorated_matches(content, matches, columns, rows, kind, row, column);
    if let Some(range) = content.selection {
        lemma_decorated_range(
            content,
            range.start,
            range.end,
            range.is_block,
            DecorationKind::Selection,
            columns,
            rows,
            kind,
            row,
            column,
        );
    }
    assert forall|k: int| 0 <= k < matches.len() implies (highlight_kind((#[trigger] matches[k]).1)
        == kind) == (matches[k].1 == (if current {
        SearchHighlight::Current
    } else {
        SearchHighlight::Match
    })) by {}
}

/// A range of columns is widened by the missing half of a wide character at
/// either end, and by nothing else.
pub proof fn ranges_grow_by_missing_halves_only(
    row: Seq<GridCell>,
    start: int,
    end_inclusive: int,
    columns: int,
)
    requires
        0 <= start < columns,
        0 <= end_inclusive < columns,
    ensures
        expanded(row, start, end_inclusive, columns).0 == if start > 0
            && row[start].flags.bits & 0x0040 == 0x0040 {
            start - 1
        } else {
            start
        },
        expanded(row, start, end_inclusive, columns).1 == if end_inclusive < columns - 1
            && row[end_inclusive].flags.bits & 0x0020 == 0x0020 {
            end_inclusive + 2
        } else {
            end_inclusive + 1
        },
{
}

} // verus!
