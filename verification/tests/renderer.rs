use slint_terminal::renderer::clusters::{cluster_glyphs, map_bytes, ByteInterval, GlyphBytes};
use slint_terminal::renderer::decoration::{
    changed_rows, decoration_color, DecorationLayer, DecorationTheme,
};
use slint_terminal::renderer::glyphs::{
    add_quad, painted_cells, rgba_pixels, Atlas, Batch, GlyphImage, PixelContent, Sprite,
    PAGE_SIZE,
};
use slint_terminal::renderer::grid::{
    frame_is_complete, merge_row_cells, update_cell_range, CellPaint, CursorMark, GridState,
    SurfaceChange,
};
use slint_terminal::renderer::shaping::{
    build_text_runs, compose_graphemes, compose_preedit, glyph_cells, same_glyph_content,
};
use slint_terminal::renderer::stats::{
    average_us, percentile, reason_index, PerfStats, REPORT_INTERVAL,
};
use slint_terminal::terminal::frame::{
    capture_frame, CursorPatch, CursorShape, Damage, DecorationKind, DecorationRange, FramePatch,
    FullRedrawReason, GridCell, LineDamage, RowPatch, TerminalCellPatch, TerminalContent,
};
use slint_terminal::terminal::mode::CellFlags;
use slint_terminal::terminal::palette::{
    AnsiColor, ColorOverrides, NamedColor, RgbColor, RgbaColor, TerminalTheme,
};
use slint_terminal::terminal::search::{GridPoint, SearchSnapshot};
use slint_terminal::terminal::worker::publish_frame;

const WHITE: RgbColor = RgbColor {
    red: 255,
    green: 255,
    blue: 255,
};

const BLACK: RgbColor = RgbColor {
    red: 0,
    green: 0,
    blue: 0,
};

fn cell(column: usize, character: char) -> TerminalCellPatch {
    TerminalCellPatch {
        column,
        character,
        zerowidth: None,
        width_in_columns: 1,
        foreground: WHITE,
        background: BLACK,
        bold: false,
        italic: false,
        hidden: false,
        underline_style: 0,
        strikeout: false,
    }
}

fn wide(column: usize, character: char) -> TerminalCellPatch {
    TerminalCellPatch {
        width_in_columns: 2,
        ..cell(column, character)
    }
}

fn letters(cells: &[TerminalCellPatch]) -> String {
    cells.iter().map(|cell| cell.character).collect()
}

fn no_cursor() -> CursorPatch {
    CursorPatch {
        column: 0,
        row: 0,
        visible: false,
        shape: 0,
        blinking: false,
    }
}

fn full_frame(rows: usize) -> FramePatch {
    FramePatch {
        generation: 1,
        columns: 80,
        rows,
        full_redraw: true,
        full_redraw_reason: Some(FullRedrawReason::RendererRequest),
        metadata_only: false,
        changed_rows: (0..rows)
            .map(|row| RowPatch {
                row,
                start_column: 0,
                end_column: 80,
                cells: Vec::new(),
            })
            .collect(),
        cursor: no_cursor(),
        scroll_offset: 0,
        scroll_history_lines: 0,
        search: SearchSnapshot::empty(),
        decorations: Vec::new(),
        title: None,
        exit_message: None,
    }
}

fn range(row: usize, start: usize, end: usize, kind: DecorationKind) -> DecorationRange {
    DecorationRange {
        row,
        start_column: start,
        end_column: end,
        kind,
    }
}

#[test]
fn only_rows_whose_decorations_changed_are_reported() {
    let previous = vec![
        range(1, 0, 4, DecorationKind::SearchMatch),
        range(3, 2, 5, DecorationKind::SearchCurrent),
        range(7, 0, 9, DecorationKind::Selection),
    ];
    let next = vec![
        range(1, 0, 4, DecorationKind::SearchMatch),
        range(3, 2, 5, DecorationKind::SearchMatch),
        range(5, 2, 5, DecorationKind::SearchCurrent),
    ];

    assert_eq!(changed_rows(&previous, &next), vec![3, 5, 7]);
    assert!(changed_rows(&next, &next).is_empty());
}

#[test]
fn layers_know_the_instances_of_a_row() {
    let mut layer = DecorationLayer::new();
    assert!(layer.is_empty());
    let ranges = vec![
        range(1, 0, 4, DecorationKind::SearchMatch),
        range(3, 0, 2, DecorationKind::Selection),
        range(3, 2, 5, DecorationKind::SearchCurrent),
    ];
    assert_eq!(layer.replace(&ranges), vec![1, 3]);
    assert_eq!(layer.instance_range(3), (1, 3));
    assert_eq!(layer.instance_range(0), (0, 0));
    assert!(layer.replace(&ranges).is_empty());
    layer.clear();
    assert!(layer.is_empty());
}

#[test]
fn decorations_take_their_colors_from_the_theme() {
    let color = |red: u8| RgbaColor {
        red,
        green: 0,
        blue: 0,
        alpha: 128,
    };
    let theme = DecorationTheme {
        selection_background: color(1),
        search_match_background: color(2),
        search_current_background: color(3),
    };
    assert_eq!(decoration_color(DecorationKind::Selection, theme), color(1));
    assert_eq!(
        decoration_color(DecorationKind::SearchMatch, theme),
        color(2)
    );
    assert_eq!(
        decoration_color(DecorationKind::SearchCurrent, theme),
        color(3)
    );
}

#[test]
fn accepts_only_complete_ordered_full_frames_for_reconstruction() {
    let mut frame = full_frame(3);
    assert!(frame_is_complete(&frame));

    frame.changed_rows.pop();
    assert!(!frame_is_complete(&frame));

    let mut frame = full_frame(3);
    frame.changed_rows.swap(1, 2);
    assert!(!frame_is_complete(&frame));
}

#[test]
fn percentile_uses_nearest_rank() {
    let samples = (1..=100).collect::<Vec<u64>>();
    assert_eq!(percentile(&samples, 95), 95);
    assert_eq!(percentile(&samples, 99), 99);
    assert_eq!(percentile(&Vec::new(), 95), 0);
}

#[test]
fn percentiles_do_not_need_an_order() {
    let samples = vec![30, 10, 20];
    assert_eq!(percentile(&samples, 50), 20);
    assert_eq!(percentile(&samples, 100), 30);
    assert_eq!(average_us(9_000, 3), 3);
    assert_eq!(average_us(9_000, 0), 9);
}

#[test]
fn reports_come_once_in_an_interval() {
    let mut stats = PerfStats::new(Some(0));
    stats.record_apply(
        Some(FullRedrawReason::Resize),
        4,
        30,
        3,
        2,
        2_000_000,
        10,
    );
    assert!(stats.record_render(true, 4, 1_000_000, 20).is_none());
    let report = stats
        .record_render(false, 1, 3_000_000, REPORT_INTERVAL)
        .unwrap();
    assert_eq!(report.applied_frames, 1);
    assert_eq!(report.rendered_frames, 2);
    assert_eq!(report.full_surface_renders, 1);
    assert_eq!(report.resize_redraws, 1);
    assert_eq!(report.terminal_damage_redraws, 0);
    assert_eq!(report.rendered_dirty_rows, 5);
    assert_eq!(report.apply_average_us, 2_000);
    assert_eq!(report.render_average_us, 2_000);
    assert_eq!(stats.rendered_frames, 0);
    assert_eq!(stats.interval_started, Some(REPORT_INTERVAL));
    let indices: Vec<usize> = [
        FullRedrawReason::TerminalDamage,
        FullRedrawReason::RendererRequest,
        FullRedrawReason::Resize,
    ]
    .iter()
    .map(|reason| reason_index(*reason))
    .collect();
    assert_eq!(indices, vec![0, 1, 2]);
}

#[test]
fn intervals_start_with_the_first_record() {
    let mut stats = PerfStats::new(None);
    stats.record_apply(None, 4, 30, 3, 2, 2_000_000, 10);
    assert_eq!(stats.interval_started, Some(10));
    assert!(stats
        .record_render(true, 4, 1, REPORT_INTERVAL + 9)
        .is_none());
    assert!(stats
        .record_render(true, 4, 1, REPORT_INTERVAL + 10)
        .is_some());
    stats.start_interval(5);
    assert_eq!(stats.interval_started, Some(REPORT_INTERVAL + 10));
}

#[test]
fn paint_does_not_split_context_but_font_style_does() {
    let mut cells = vec![cell(0, '!'), cell(1, '='), cell(2, 'x')];
    cells[1].foreground.red = 0;
    assert_eq!(build_text_runs(3, &cells).len(), 1);
    cells[2].bold = true;
    assert_eq!(build_text_runs(3, &cells).len(), 2);
}

#[test]
fn runs_hold_the_whole_text_of_their_cells() {
    let mut cells = vec![cell(0, 'a'), wide(1, '中'), cell(3, 'e'), cell(5, 'z')];
    cells[2].zerowidth = Some(vec!['\u{301}']);
    let runs = build_text_runs(6, &cells);
    let texts: Vec<&str> = runs.iter().map(|run| run.text.as_str()).collect();
    assert_eq!(texts, vec!["a中e\u{301}", "z"]);
}

#[test]
fn background_changes_preserve_glyph_content() {
    let before = vec![cell(0, 'a')];
    let mut after = before.clone();
    after[0].background.red = 99;
    after[0].strikeout = true;
    assert!(same_glyph_content(1, &before, &after));
    after[0].character = 'b';
    assert!(!same_glyph_content(1, &before, &after));
}

#[test]
fn blank_cells_have_no_glyphs() {
    let cells = vec![cell(0, 'a'), cell(1, ' '), cell(2, 'b'), cell(9, 'c')];
    assert_eq!(letters(&glyph_cells(3, &cells)), "ab");
}

#[test]
fn composition_replaces_intersected_wide_cells_without_mutating_terminal() {
    let mut cells = vec![cell(0, 'a'), cell(1, '中'), cell(3, 'b'), cell(4, 'c')];
    cells[1].width_in_columns = 2;
    let original = cells.clone();
    let (composed, width) = compose_preedit(&cells, 5, 2, "XY", cells[0].foreground);
    assert_eq!(width, 2);
    assert_eq!(
        composed.iter().map(|c| c.character).collect::<String>(),
        "aXYc"
    );
    assert_eq!(cells, original);
    assert_eq!(
        compose_preedit(&cells, 5, 2, "", cells[0].foreground).0,
        original
    );
}

#[test]
fn composition_never_squeezes_a_wide_grapheme_into_the_last_column() {
    let cells = vec![cell(0, 'a'), cell(1, 'b')];
    let (composed, width) = compose_preedit(&cells, 2, 1, "中", cells[0].foreground);
    assert_eq!(width, 0);
    assert_eq!(composed, cells);
}

#[test]
fn compositions_show_the_text() {
    let fg = cell(0, 'a').foreground;
    let shown = "A中e\u{301}x";
    let (cells, _) = compose_preedit(&Vec::new(), 10, 3, shown, fg);
    let mut text = String::new();
    for cell in &cells {
        text.push(cell.character);
        for mark in cell.zerowidth.iter().flatten() {
            text.push(*mark);
        }
    }
    assert_eq!(text, shown);
}

#[test]
fn composition_tracks_grapheme_widths() {
    let fg = cell(0, 'a').foreground;
    let (cells, width) = compose_preedit(&Vec::new(), 10, 0, "A中e\u{301}", fg);
    assert_eq!(width, 4);
    assert_eq!(
        cells.iter().map(|c| c.column).collect::<Vec<_>>(),
        vec![0, 1, 3]
    );
}

#[test]
fn measured_graphemes_are_laid_over_the_row() {
    let row = vec![cell(0, 'a'), cell(1, 'b'), cell(2, 'c')];
    let graphemes = vec!["x".to_owned(), "yz".to_owned()];
    let (composed, width) = compose_graphemes(&row, 3, 1, &graphemes, &vec![1, 1], BLACK);
    assert_eq!(width, 2);
    assert_eq!(letters(&composed), "axy");
    assert_eq!(composed[2].zerowidth, Some(vec!['z']));
    assert_eq!(composed[1].foreground, BLACK);
    assert_eq!(composed[1].underline_style, 0);
}

#[test]
fn bytes_lead_back_to_their_columns() {
    let mut cells = vec![cell(0, 'a'), wide(1, '中'), cell(3, 'e')];
    cells[2].zerowidth = Some(vec!['\u{301}']);
    let interval = |start: usize, end: usize, start_column: usize, end_column: usize| {
        ByteInterval {
            start,
            end,
            start_column,
            end_column,
        }
    };
    let intervals = map_bytes(&cells);
    assert_eq!(
        intervals,
        vec![
            interval(0, 1, 0, 1),
            interval(1, 4, 1, 3),
            interval(4, 7, 3, 4)
        ]
    );
    let glyph = |start: usize, end: usize| GlyphBytes { start, end };
    let clusters = cluster_glyphs(&intervals, &vec![glyph(4, 7), glyph(0, 4), glyph(4, 7)]);
    let found: Vec<(usize, usize, Vec<usize>)> = clusters
        .iter()
        .map(|cluster| {
            (
                cluster.start_column,
                cluster.end_column,
                cluster.glyphs.iter().map(|glyph| glyph.index).collect(),
            )
        })
        .collect();
    assert_eq!(found, vec![(0, 3, vec![1]), (3, 4, vec![0, 2])]);
}

fn image(width: u32, height: u32) -> GlyphImage {
    GlyphImage {
        width,
        height,
        left: 1,
        top: 9,
        colored: false,
    }
}

fn overlap(one: &Sprite, other: &Sprite) -> bool {
    one.page == other.page
        && one.x < other.x + other.width
        && other.x < one.x + one.width
        && one.y < other.y + other.height
        && other.y < one.y + one.height
}

#[test]
fn glyphs_are_packed_without_overlap() {
    let mut atlas = Atlas::new();
    let mut sprites: Vec<Sprite> = Vec::new();
    for key in 0..40u64 {
        let sprite = atlas.sprite(key, Some(image(300, 200 + key as u32))).unwrap();
        assert!(sprite.x + sprite.width <= PAGE_SIZE);
        assert!(sprite.y + sprite.height <= PAGE_SIZE);
        assert!(sprites.iter().all(|other| !overlap(&sprite, other)));
        assert_eq!(atlas.find(key), Some(Some(sprite)));
        sprites.push(sprite);
    }
    assert_eq!(atlas.page_count(), 1);
    assert!(atlas.sprite(90, None).is_none());
    assert_eq!(atlas.find(90), Some(None));
    assert!(atlas.sprite(91, Some(image(PAGE_SIZE + 1, 3))).is_none());
    assert_eq!(atlas.find(77), None);
    atlas.clear_cache();
    assert_eq!(atlas.find(0), None);
}

#[test]
fn masks_become_white_pixels() {
    assert_eq!(
        rgba_pixels(PixelContent::Mask, vec![7, 9]),
        vec![255, 255, 255, 7, 255, 255, 255, 9]
    );
    assert_eq!(
        rgba_pixels(PixelContent::SubpixelMask, vec![1, 5, 3, 9, 2]),
        vec![255, 255, 255, 5]
    );
    assert_eq!(
        rgba_pixels(PixelContent::Color, vec![1, 2, 3, 4]),
        vec![1, 2, 3, 4]
    );
}

#[test]
fn quads_of_one_page_share_a_batch() {
    let mut batches: Vec<Batch> = Vec::new();
    add_quad(&mut batches, 0, 0);
    add_quad(&mut batches, 0, 6);
    add_quad(&mut batches, 1, 12);
    let found: Vec<(usize, u32, u32)> = batches
        .iter()
        .map(|batch| (batch.page, batch.start, batch.end))
        .collect();
    assert_eq!(found, vec![(0, 0, 12), (1, 12, 18)]);
}

#[test]
fn clusters_are_painted_cell_by_cell() {
    let cells = vec![cell(0, 'a'), wide(1, '中'), cell(3, 'e')];
    assert_eq!(painted_cells(&cells, 1, 4), (1, 3));
    assert_eq!(painted_cells(&cells, 0, 1), (0, 1));
}

fn unpainted() -> CellPaint {
    CellPaint {
        width: 0,
        background: BLACK,
        foreground: BLACK,
        underline: 0,
        strikeout: false,
    }
}

#[test]
fn cells_paint_their_columns() {
    let mut row = vec![unpainted(); 4];
    let mut struck = cell(2, 'x');
    struck.strikeout = true;
    struck.underline_style = 3;
    update_cell_range(&mut row, 1, 3, &vec![struck]);
    assert_eq!(row[2].width, 1);
    assert_eq!(row[2].underline, 3);
    assert!(row[2].strikeout);
    assert_eq!(row[0], unpainted());
    update_cell_range(&mut row, 2, 3, &Vec::new());
    assert_eq!(row[2].width, 0);
}

#[test]
fn patches_replace_the_cells_in_their_range() {
    let cached = vec![cell(0, 'a'), wide(1, '中'), cell(3, 'b')];
    let (merged, changed) = merge_row_cells(4, cached.clone(), 1, 3, &vec![cell(1, 'x'), cell(2, 'y')]);
    assert!(changed);
    assert_eq!(letters(&merged), "axyb");
    let mut repainted = cell(3, 'b');
    repainted.background = WHITE;
    let (merged, changed) = merge_row_cells(4, cached, 3, 4, &vec![repainted]);
    assert!(!changed);
    assert_eq!(merged[2].background, WHITE);
}

fn text_frame(generation: u64, lines: &[&str], full_redraw: bool) -> FramePatch {
    let columns = lines[0].chars().count();
    let changed_rows = lines
        .iter()
        .enumerate()
        .map(|(row, line)| RowPatch {
            row,
            start_column: 0,
            end_column: columns,
            cells: line
                .chars()
                .enumerate()
                .map(|(column, character)| cell(column, character))
                .collect(),
        })
        .collect();
    FramePatch {
        generation,
        columns,
        full_redraw,
        full_redraw_reason: None,
        changed_rows,
        cursor: CursorPatch {
            column: 1,
            row: 0,
            visible: true,
            shape: 0,
            blinking: true,
        },
        ..full_frame(lines.len())
    }
}

fn grid(columns: usize, rows: usize) -> GridState {
    GridState::new(columns, rows, 100, 50, "Hack", WHITE)
}

#[test]
fn grids_need_a_full_frame_first() {
    let mut state = grid(3, 2);
    assert!(state.apply_frame(&text_frame(1, &["abc", "def"], false)).is_none());
    assert_eq!(
        state.apply_frame(&text_frame(1, &["abc", "def"], true)),
        Some(vec![0, 1])
    );
    assert_eq!(letters(state.row_to_shape(1)), "def");
    let mut partial = text_frame(1, &["xyz", "def"], false);
    partial.changed_rows.truncate(1);
    partial.changed_rows[0].start_column = 1;
    partial.changed_rows[0].end_column = 2;
    partial.changed_rows[0].cells = vec![cell(1, 'Y')];
    assert_eq!(state.apply_frame(&partial), Some(vec![0]));
    assert_eq!(letters(state.row_to_shape(0)), "aYc");
    assert_eq!(state.row_paint(0)[1].width, 1);
    assert!(state.apply_frame(&text_frame(2, &["abc", "def"], false)).is_none());
    assert!(state.apply_frame(&text_frame(1, &["abcd", "defg"], false)).is_none());
    assert_eq!(
        state.apply_frame(&text_frame(2, &["abcd", "defg"], true)),
        Some(vec![0, 1])
    );
}

#[test]
fn only_changed_rows_are_drawn() {
    let mut state = grid(3, 3);
    let first = state.render_if_needed().unwrap();
    assert_eq!(first.rows, vec![0, 1, 2]);
    assert!(first.clear && first.full_surface);
    assert!(state.render_if_needed().is_none());
    state.apply_frame(&text_frame(1, &["abc", "def", "ghi"], true));
    state.render_if_needed();
    let mut partial = text_frame(1, &["abc", "def", "ghX"], false);
    partial.changed_rows.drain(0..2);
    state.apply_frame(&partial);
    let plan = state.render_if_needed().unwrap();
    assert_eq!(plan.rows, vec![2]);
    assert!(!plan.clear && !plan.full_surface);
    assert!(state.tick_cursor());
    assert_eq!(state.render_if_needed().unwrap().rows, vec![0]);
}

#[test]
fn merged_frames_draw_like_single_ones() {
    let part = |row: usize, column: usize, character: char| {
        let mut frame = text_frame(1, &["....", "...."], false);
        frame.changed_rows = vec![RowPatch {
            row,
            start_column: column,
            end_column: column + 1,
            cells: vec![cell(column, character)],
        }];
        frame
    };
    let mut once = grid(4, 2);
    let mut twice = grid(4, 2);
    let base = text_frame(1, &["abcd", "efgh"], true);
    once.apply_frame(&base);
    twice.apply_frame(&base);
    let mut mailbox = None;
    publish_frame(&mut mailbox, part(0, 1, 'X'));
    publish_frame(&mut mailbox, part(0, 2, 'Y'));
    publish_frame(&mut mailbox, part(0, 1, 'Z'));
    once.apply_frame(&mailbox.unwrap());
    twice.apply_frame(&part(0, 1, 'X'));
    twice.apply_frame(&part(0, 2, 'Y'));
    twice.apply_frame(&part(0, 1, 'Z'));
    assert_eq!(letters(once.row_to_shape(0)), "aZYd");
    assert_eq!(once.row_to_shape(0), twice.row_to_shape(0));
    assert_eq!(once.row_paint(0), twice.row_paint(0));
}

fn screen(lines: &[&str], damage: Damage) -> TerminalContent {
    TerminalContent {
        grid: lines
            .iter()
            .map(|line| {
                line.chars()
                    .map(|character| GridCell {
                        character,
                        zerowidth: Vec::new(),
                        foreground: AnsiColor::Named(NamedColor::Foreground),
                        background: AnsiColor::Named(NamedColor::Background),
                        flags: CellFlags::new(match character {
                            '中' => CellFlags::WIDE_CHAR,
                            '_' => CellFlags::WIDE_CHAR_SPACER,
                            _ => 0,
                        }),
                    })
                    .collect()
            })
            .collect(),
        writing_line: -1,
        cursor_point: GridPoint::new(0, 0),
        cursor_shape: CursorShape::Block,
        cursor_blinking: false,
        display_offset: 0,
        total_lines: lines.len(),
        screen_lines: lines.len(),
        damage,
        selection: None,
        colors: ColorOverrides::none(),
    }
}

fn captured(content: &TerminalContent) -> FramePatch {
    let theme = TerminalTheme {
        background: BLACK,
        foreground: WHITE,
        selection_background: BLACK,
        selection_foreground: WHITE,
        search_match_background: BLACK,
        search_current_background: BLACK,
    };
    capture_frame(
        content,
        content.grid[0].len(),
        content.grid.len(),
        1,
        None,
        theme,
        SearchSnapshot::empty(),
        &Vec::new(),
    )
}

#[test]
fn partial_frames_show_what_full_frames_show() {
    let mut partial = grid(5, 2);
    let mut full = grid(5, 2);
    partial.apply_frame(&captured(&screen(&["ab中_c", "fghij"], Damage::Full)));
    let damage = Damage::Partial(vec![LineDamage {
        line: 0,
        left: 3,
        right: 3,
    }]);
    partial.apply_frame(&captured(&screen(&["ab中_c", "fghij"], damage)));
    full.apply_frame(&captured(&screen(&["ab中_c", "fghij"], Damage::Full)));
    assert_eq!(letters(full.row_to_shape(0)), "ab中c");
    let damage = Damage::Partial(vec![LineDamage {
        line: 0,
        left: 2,
        right: 3,
    }]);
    partial.apply_frame(&captured(&screen(&["abXYc", "fghij"], damage)));
    full.apply_frame(&captured(&screen(&["abXYc", "fghij"], Damage::Full)));
    for row in 0..2 {
        assert_eq!(partial.row_to_shape(row), full.row_to_shape(row));
        assert_eq!(partial.row_paint(row), full.row_paint(row));
    }
    assert_eq!(letters(partial.row_to_shape(0)), "abXYc");
}

#[test]
fn cursors_are_marked_on_the_grid_only() {
    let mut state = grid(3, 2);
    assert_eq!(state.cursor_mark(), None);
    let mut frame = text_frame(1, &["abc", "def"], true);
    frame.cursor.shape = 2;
    frame.decorations = vec![range(1, 0, 2, DecorationKind::Selection)];
    state.apply_frame(&frame);
    assert_eq!(
        state.cursor_mark(),
        Some(CursorMark {
            column: 1,
            row: 0,
            shape: 3
        })
    );
    assert_eq!(state.decorations().instance_range(1), (0, 1));
    assert_eq!(
        state.decorations().range(0),
        range(1, 0, 2, DecorationKind::Selection)
    );
    frame.cursor.column = 3;
    state.apply_frame(&frame);
    assert_eq!(state.cursor_mark(), None);
}

#[test]
fn compositions_come_and_go() {
    let mut state = grid(4, 2);
    state.apply_frame(&text_frame(1, &["abcd", "efgh"], true));
    state.render_if_needed();
    assert!(state.set_ime_preedit("中"));
    let plan = state.render_if_needed().unwrap();
    assert_eq!(plan.rows, vec![0]);
    assert!(plan.draw_ime);
    assert_eq!(letters(state.row_to_shape(0)), "a中d");
    let mark = state.ime_mark().unwrap();
    assert_eq!((mark.column, mark.row, mark.columns), (1, 0, 2));
    assert!(state.set_ime_preedit(""));
    assert_eq!(letters(state.row_to_shape(0)), "abcd");
    assert_eq!(state.render_if_needed().unwrap().rows, vec![0]);
}

#[test]
fn new_surfaces_are_drawn_in_full() {
    let mut state = grid(3, 2);
    state.render_if_needed();
    assert_eq!(
        state.sync_surface(100, 50, false, "Hack"),
        SurfaceChange {
            texture_changed: false,
            metrics_changed: false,
            font_changed: false
        }
    );
    assert!(state.render_if_needed().is_none());
    let change = state.sync_surface(0, 50, false, "Fira");
    assert!(change.texture_changed && change.font_changed);
    assert_eq!(state.render_if_needed().unwrap().rows, vec![0, 1]);
}
