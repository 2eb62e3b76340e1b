use slint_terminal::terminal::frame;
use slint_terminal::terminal::frame::{
    capture_frame, expand_to_wide_cells, for_each_row_span, CursorPatch, CursorShape, Damage,
    DecorationKind, DecorationRange, FramePatch, FullRedrawReason, GridCell, LineDamage, RowPatch,
    SelectionSpan, TerminalContent,
};
use slint_terminal::terminal::mode::CellFlags;
use slint_terminal::terminal::notifier::{Notifier, TerminalEvent, WindowSize};
use slint_terminal::terminal::palette::{
    AnsiColor, ColorOverrides, NamedColor, RgbColor, TerminalTheme,
};
use slint_terminal::terminal::search::{
    GridPoint, SearchHighlight, SearchMatch, SearchSnapshot,
};
use slint_terminal::terminal::snapshot;
use slint_terminal::terminal::worker::{publish_frame, MailboxState, MAILBOX_ROW_PATCH_FACTOR};

fn rgb(red: u8, green: u8, blue: u8) -> RgbColor {
    RgbColor { red, green, blue }
}

fn theme() -> TerminalTheme {
    TerminalTheme {
        background: rgb(1, 2, 3),
        foreground: rgb(4, 5, 6),
        selection_background: rgb(7, 8, 9),
        selection_foreground: rgb(10, 11, 12),
        search_match_background: rgb(13, 14, 15),
        search_current_background: rgb(19, 20, 21),
    }
}

fn no_cursor() -> CursorPatch {
    CursorPatch {
        column: 0,
        row: 0,
        visible: false,
        shape: 0,
        blinking: false,
    }
}

fn frame(generation: u64, changed_rows: &[usize]) -> FramePatch {
    FramePatch {
        generation,
        columns: 80,
        rows: 24,
        full_redraw: false,
        full_redraw_reason: None,
        metadata_only: false,
        changed_rows: changed_rows
            .iter()
            .map(|row| RowPatch {
                row: *row,
                start_column: 0,
                end_column: 80,
                cells: Vec::new(),
            })
            .collect(),
        cursor: no_cursor(),
        scroll_offset: 0,
        scroll_history_lines: 0,
        search: SearchSnapshot::empty(),
        decorations: Vec::new(),
        title: None,
        exit_message: None,
    }
}

fn grid_cell(character: char, flags: u16) -> GridCell {
    GridCell {
        character,
        zerowidth: Vec::new(),
        foreground: AnsiColor::Named(NamedColor::Foreground),
        background: AnsiColor::Named(NamedColor::Background),
        flags: CellFlags::new(flags),
    }
}

fn content(lines: &[&str], damage: Damage) -> TerminalContent {
    TerminalContent {
        grid: lines
            .iter()
            .map(|line| line.chars().map(|character| grid_cell(character, 0)).collect())
            .collect(),
        writing_line: -1,
        cursor_point: GridPoint::new(0, 1),
        cursor_shape: CursorShape::Beam,
        cursor_blinking: true,
        display_offset: 0,
        total_lines: lines.len(),
        screen_lines: lines.len(),
        damage,
        selection: None,
        colors: ColorOverrides::none(),
    }
}

fn found(line: i32, first: usize, last: usize) -> SearchMatch {
    SearchMatch {
        start: GridPoint::new(line, first),
        end: GridPoint::new(line, last),
    }
}

fn capture(content: &TerminalContent, matches: Vec<(SearchMatch, SearchHighlight)>) -> FramePatch {
    let columns = content.grid[0].len();
    let rows = content.grid.len();
    capture_frame(
        content,
        columns,
        rows,
        3,
        None,
        theme(),
        SearchSnapshot::empty(),
        &matches,
    )
}

#[test]
fn frame_dim_reduces_each_color_channel() {
    assert_eq!(
        frame::dim_color(RgbColor {
            red: 150,
            green: 90,
            blue: 30,
        }),
        RgbColor {
            red: 100,
            green: 60,
            blue: 20,
        }
    );
}

#[test]
fn frame_preserves_cursor_shapes() {
    assert_eq!(frame::cursor_shape(CursorShape::Block), 0);
    assert_eq!(frame::cursor_shape(CursorShape::Underline), 1);
    assert_eq!(frame::cursor_shape(CursorShape::Beam), 2);
    assert_eq!(frame::cursor_shape(CursorShape::HollowBlock), 3);
}

#[test]
fn frame_preserves_extended_underline_styles() {
    let style = |flags: u16| frame::underline_style(CellFlags::new(flags));
    assert_eq!(style(CellFlags::UNDERLINE), 1);
    assert_eq!(style(CellFlags::DOUBLE_UNDERLINE), 2);
    assert_eq!(style(CellFlags::UNDERCURL), 3);
    assert_eq!(style(CellFlags::DOTTED_UNDERLINE), 4);
    assert_eq!(style(CellFlags::DASHED_UNDERLINE), 5);
}

#[test]
fn frame_wide_cells_occupy_two_columns() {
    assert_eq!(frame::cell_width_in_columns(CellFlags::new(0)), 1);
    assert_eq!(
        frame::cell_width_in_columns(CellFlags::new(CellFlags::WIDE_CHAR)),
        2
    );
}

#[test]
fn decoration_ranges_cover_both_halves_of_a_wide_character() {
    let mut row: Vec<GridCell> = (0..6).map(|_| grid_cell(' ', 0)).collect();
    row[3].flags = CellFlags::new(CellFlags::WIDE_CHAR);
    row[4].flags = CellFlags::new(CellFlags::WIDE_CHAR_SPACER);

    // A selected placeholder is drawn from the column of its glyph.
    assert_eq!(expand_to_wide_cells(&row, 4, 4, 6), (3, 5));
    // A selected first half covers its placeholder.
    assert_eq!(expand_to_wide_cells(&row, 1, 3, 6), (1, 5));
    assert_eq!(expand_to_wide_cells(&row, 0, 1, 6), (0, 2));
}

fn spans_of(
    start: GridPoint,
    end: GridPoint,
    block: bool,
    columns: usize,
    visible: (i32, i32),
) -> Vec<(i32, usize, usize)> {
    for_each_row_span(start, end, block, columns, visible)
        .iter()
        .map(|span| (span.line, span.first, span.last))
        .collect()
}

#[test]
fn multi_line_ranges_are_split_per_row() {
    let visible = (-5, 5);
    let spans = spans_of(
        GridPoint::new(-1, 5),
        GridPoint::new(1, 2),
        false,
        10,
        visible,
    );
    assert_eq!(spans, vec![(-1, 5, 9), (0, 0, 9), (1, 0, 2)]);

    let block = spans_of(
        GridPoint::new(0, 3),
        GridPoint::new(1, 5),
        true,
        10,
        visible,
    );
    assert_eq!(block, vec![(0, 3, 5), (1, 3, 5)]);
}

#[test]
fn rows_outside_the_viewport_are_never_visited() {
    let spans = spans_of(
        GridPoint::new(-1000, 0),
        GridPoint::new(1000, 3),
        false,
        10,
        (-1, 1),
    );
    assert_eq!(spans, vec![(-1, 0, 9), (0, 0, 9), (1, 0, 9)]);
}

#[test]
fn snapshot_dim_reduces_each_color_channel() {
    assert_eq!(
        snapshot::dim_color(RgbColor {
            red: 150,
            green: 90,
            blue: 30,
        }),
        RgbColor {
            red: 100,
            green: 60,
            blue: 20,
        }
    );
}

#[test]
fn snapshot_preserves_cursor_shapes() {
    assert_eq!(snapshot::cursor_shape(CursorShape::Block), 0);
    assert_eq!(snapshot::cursor_shape(CursorShape::Underline), 1);
    assert_eq!(snapshot::cursor_shape(CursorShape::Beam), 2);
    assert_eq!(snapshot::cursor_shape(CursorShape::HollowBlock), 3);
}

#[test]
fn snapshot_preserves_extended_underline_styles() {
    let style = |flags: u16| snapshot::underline_style(CellFlags::new(flags));
    assert_eq!(style(CellFlags::UNDERLINE), 1);
    assert_eq!(style(CellFlags::DOUBLE_UNDERLINE), 2);
    assert_eq!(style(CellFlags::UNDERCURL), 3);
    assert_eq!(style(CellFlags::DOTTED_UNDERLINE), 4);
    assert_eq!(style(CellFlags::DASHED_UNDERLINE), 5);
    assert_eq!(snapshot::underline_decoration(3, 3), "~~~");
    assert_eq!(snapshot::underline_decoration(4, 3), "......");
}

#[test]
fn snapshot_wide_cells_occupy_two_columns() {
    assert_eq!(snapshot::cell_width_in_columns(CellFlags::new(0)), 1);
    assert_eq!(
        snapshot::cell_width_in_columns(CellFlags::new(CellFlags::WIDE_CHAR)),
        2
    );
}

#[test]
fn selecting_a_wide_character_spacer_selects_its_glyph_cell() {
    let selection = SelectionSpan {
        start: GridPoint::new(0, 4),
        end: GridPoint::new(0, 4),
        is_block: false,
    };

    assert!(snapshot::selection_contains_cell(
        Some(selection),
        0,
        3,
        CellFlags::new(CellFlags::WIDE_CHAR),
    ));
}

#[test]
fn mailbox_preserves_incremental_patch_order() {
    let mut slot = None;
    publish_frame(&mut slot, frame(0, &[1, 3]));
    publish_frame(&mut slot, frame(0, &[2, 3]));

    let frame = slot.take().unwrap();
    let rows = frame
        .changed_rows
        .iter()
        .map(|row| row.row)
        .collect::<Vec<_>>();
    assert_eq!(rows, vec![1, 3, 2, 3]);
}

#[test]
fn worker_mailbox_discards_frames_from_an_old_generation() {
    let mut slot = None;
    publish_frame(&mut slot, frame(0, &[1]));
    publish_frame(&mut slot, frame(1, &[2]));

    let frame = slot.take().unwrap();
    assert_eq!(frame.generation, 1);
    assert_eq!(frame.changed_rows[0].row, 2);
}

#[test]
fn worker_mailbox_retains_exit_status_while_merging() {
    let mut slot = None;
    publish_frame(&mut slot, frame(0, &[1]));
    let mut exited = frame(0, &[2]);
    exited.exit_message = Some("Process exited with code 7".into());
    publish_frame(&mut slot, exited);

    assert_eq!(
        slot.as_ref().unwrap().exit_message.as_deref(),
        Some("Process exited with code 7")
    );
}

#[test]
fn mailbox_retains_latest_full_redraw_reason() {
    let mut slot = None;
    let mut full = frame(0, &[0]);
    full.full_redraw = true;
    full.full_redraw_reason = Some(FullRedrawReason::Resize);
    publish_frame(&mut slot, full);
    publish_frame(&mut slot, frame(0, &[1]));

    assert_eq!(
        slot.as_ref().unwrap().full_redraw_reason,
        Some(FullRedrawReason::Resize)
    );
}

#[test]
fn mailbox_retains_latest_scrollbar_state() {
    let mut slot = None;
    let mut first = frame(0, &[1]);
    first.scroll_offset = 2;
    first.scroll_history_lines = 40;
    publish_frame(&mut slot, first);

    let mut latest = frame(0, &[2]);
    latest.scroll_offset = 17;
    latest.scroll_history_lines = 64;
    publish_frame(&mut slot, latest);

    let frame = slot.take().unwrap();
    assert_eq!(frame.scroll_offset, 17);
    assert_eq!(frame.scroll_history_lines, 64);
}

#[test]
fn mailbox_stops_accumulating_rows_and_asks_for_a_full_redraw() {
    let mut slot = None;
    let rows = (0..24 * MAILBOX_ROW_PATCH_FACTOR)
        .map(|row| row % 24)
        .collect::<Vec<_>>();
    assert_eq!(
        publish_frame(&mut slot, frame(0, &rows)),
        MailboxState::Merged
    );
    let mut overflow = frame(0, &[3]);
    overflow.title = Some("busy".into());
    assert_eq!(
        publish_frame(&mut slot, overflow),
        MailboxState::Overflowed
    );

    let frame = slot.take().unwrap();
    assert!(frame.changed_rows.is_empty());
    assert!(!frame.full_redraw);
    assert_eq!(frame.title.as_deref(), Some("busy"));
}

#[test]
fn metadata_only_frames_never_replace_viewport_state() {
    let mut slot = None;
    let mut pending = frame(0, &[1]);
    pending.scroll_offset = 5;
    publish_frame(&mut slot, pending);

    let mut metadata = frame(0, &[]);
    metadata.metadata_only = true;
    metadata.exit_message = Some("Process exited".into());
    publish_frame(&mut slot, metadata);

    let frame = slot.take().unwrap();
    assert!(!frame.metadata_only);
    assert_eq!(frame.scroll_offset, 5);
    assert_eq!(frame.changed_rows.len(), 1);
    assert_eq!(frame.exit_message.as_deref(), Some("Process exited"));
}

#[test]
fn full_frame_replacement_keeps_pending_metadata() {
    let mut slot = None;
    let mut pending = frame(0, &[1]);
    pending.title = Some("title".into());
    publish_frame(&mut slot, pending);
    let mut full = frame(0, &[0]);
    full.full_redraw = true;
    publish_frame(&mut slot, full);

    let frame = slot.take().unwrap();
    assert!(frame.full_redraw);
    assert_eq!(frame.title.as_deref(), Some("title"));
}

#[test]
fn mailbox_retains_latest_search_state() {
    let mut slot = None;
    let mut first = frame(0, &[1]);
    first.search.query = "old".to_owned();
    first.search.current = 1;
    first.search.total = 2;
    publish_frame(&mut slot, first);

    let mut latest = frame(0, &[2]);
    latest.search.query = "cargo".to_owned();
    latest.search.current = 3;
    latest.search.total = 12;
    publish_frame(&mut slot, latest);

    let frame = slot.take().unwrap();
    assert_eq!(frame.search.query, "cargo");
    assert_eq!(frame.search.current, 3);
    assert_eq!(frame.search.total, 12);
}

#[test]
fn full_damage_gives_every_row() {
    let shown = content(&["ab", "cd", "ef"], Damage::Full);
    let frame = capture(&shown, Vec::new());
    assert!(frame.full_redraw);
    assert_eq!(
        frame.full_redraw_reason,
        Some(FullRedrawReason::TerminalDamage)
    );
    let rows: Vec<(usize, usize, usize)> = frame
        .changed_rows
        .iter()
        .map(|row| (row.row, row.start_column, row.end_column))
        .collect();
    assert_eq!(rows, vec![(0, 0, 2), (1, 0, 2), (2, 0, 2)]);
    assert_eq!(frame.changed_rows[2].cells[1].character, 'f');
    assert_eq!(frame.changed_rows[2].cells[1].foreground, rgb(4, 5, 6));
    assert_eq!(frame.generation, 3);
    assert_eq!(
        frame.cursor,
        CursorPatch {
            column: 1,
            row: 0,
            visible: true,
            shape: 2,
            blinking: true
        }
    );
}

#[test]
fn forced_redraws_name_their_reason() {
    let shown = content(&["ab"], Damage::Partial(Vec::new()));
    let forced = capture_frame(
        &shown,
        2,
        1,
        0,
        Some(FullRedrawReason::Resize),
        theme(),
        SearchSnapshot::empty(),
        &Vec::new(),
    );
    assert_eq!(forced.full_redraw_reason, Some(FullRedrawReason::Resize));
    assert_eq!(forced.changed_rows.len(), 1);
    let quiet = capture(&shown, Vec::new());
    assert!(!quiet.full_redraw);
    assert!(quiet.changed_rows.is_empty());
}

#[test]
fn partial_damage_gives_the_damaged_columns() {
    let damage = Damage::Partial(vec![LineDamage {
        line: 1,
        left: 1,
        right: 2,
    }]);
    let shown = content(&["abcd", "efgh", "ijkl"], damage);
    let frame = capture(&shown, Vec::new());
    assert!(!frame.full_redraw);
    assert_eq!(frame.changed_rows.len(), 1);
    let row = &frame.changed_rows[0];
    assert_eq!((row.row, row.start_column, row.end_column), (1, 1, 3));
    let shown: Vec<char> = row.cells.iter().map(|cell| cell.character).collect();
    assert_eq!(shown, vec!['f', 'g']);
}

#[test]
fn the_line_of_the_prompt_is_always_redrawn() {
    let damage = Damage::Partial(vec![LineDamage {
        line: 1,
        left: 3,
        right: 3,
    }]);
    let mut shown = content(&["abcd", "efgh", "ijkl"], damage);
    shown.writing_line = 1;
    let frame = capture(&shown, Vec::new());
    assert_eq!(frame.changed_rows.len(), 1);
    assert_eq!(frame.changed_rows[0].cells.len(), 4);
    shown.writing_line = 0;
    let frame = capture(&shown, Vec::new());
    assert_eq!(frame.changed_rows.len(), 2);
    assert_eq!(frame.changed_rows[0].cells.len(), 4);
    assert_eq!(frame.changed_rows[1].cells.len(), 1);
}

#[test]
fn damage_covers_whole_wide_characters() {
    let damage = Damage::Partial(vec![LineDamage {
        line: 0,
        left: 2,
        right: 2,
    }]);
    let mut shown = content(&["a中 b"], damage);
    shown.grid[0][1].flags = CellFlags::new(CellFlags::WIDE_CHAR);
    shown.grid[0][2].flags = CellFlags::new(CellFlags::WIDE_CHAR_SPACER);
    let frame = capture(&shown, Vec::new());
    let row = &frame.changed_rows[0];
    assert_eq!((row.start_column, row.end_column), (1, 3));
    assert_eq!(row.cells.len(), 1);
    assert_eq!(row.cells[0].width_in_columns, 2);
}

#[test]
fn selections_and_results_become_decorations() {
    let mut shown = content(&["abcd", "efgh"], Damage::Full);
    let plain = capture(&shown, Vec::new());
    shown.selection = Some(SelectionSpan {
        start: GridPoint::new(0, 2),
        end: GridPoint::new(1, 0),
        is_block: false,
    });
    let decorated = capture(
        &shown,
        vec![
            (found(0, 1, 2), SearchHighlight::Match),
            (found(1, 0, 3), SearchHighlight::Current),
        ],
    );
    assert_eq!(decorated.changed_rows, plain.changed_rows);
    let range = |row: usize, start_column: usize, end_column: usize, kind: DecorationKind| {
        DecorationRange {
            row,
            start_column,
            end_column,
            kind,
        }
    };
    assert_eq!(
        decorated.decorations,
        vec![
            range(0, 2, 4, DecorationKind::Selection),
            range(0, 1, 3, DecorationKind::SearchMatch),
            range(1, 0, 1, DecorationKind::Selection),
            range(1, 0, 4, DecorationKind::SearchCurrent),
        ]
    );
}

fn quiet_notifier() -> Notifier {
    Notifier::new(
        WindowSize {
            num_lines: 2,
            num_cols: 4,
            cell_width: 9,
            cell_height: 18,
        },
        "Terminal 1".to_owned(),
    )
}

#[test]
fn single_terminals_paint_the_selection_into_the_cells() {
    let mut notifier = quiet_notifier();
    let mut shown = content(&["abcd", "efgh"], Damage::Partial(Vec::new()));
    shown.selection = Some(SelectionSpan {
        start: GridPoint::new(1, 1),
        end: GridPoint::new(1, 2),
        is_block: false,
    });
    let mut force = true;
    assert!(
        snapshot::take_frame(&mut notifier, &shown, 4, 2, 0, &mut force, theme()).is_none()
    );
    assert!(force);
    notifier.send_event(TerminalEvent::Wakeup);
    let frame =
        snapshot::take_frame(&mut notifier, &shown, 4, 2, 0, &mut force, theme()).unwrap();
    assert!(!force);
    assert!(frame.full_redraw);
    assert_eq!(frame.changed_rows.len(), 2);
    let backgrounds: Vec<RgbColor> = frame.changed_rows[1]
        .cells
        .iter()
        .map(|cell| cell.background)
        .collect();
    assert_eq!(
        backgrounds,
        vec![
            rgb(1, 2, 3),
            rgb(0x26, 0x4f, 0x78),
            rgb(0x26, 0x4f, 0x78),
            rgb(1, 2, 3)
        ]
    );
    assert_eq!(frame.changed_rows[1].cells[1].text, "f");
    assert!(
        snapshot::take_frame(&mut notifier, &shown, 4, 2, 0, &mut force, theme()).is_none()
    );
    notifier.send_event(TerminalEvent::Wakeup);
    let quiet =
        snapshot::take_frame(&mut notifier, &shown, 4, 2, 0, &mut force, theme()).unwrap();
    assert!(!quiet.full_redraw);
    assert!(quiet.changed_rows.is_empty());
}
