use slint_terminal::app::bindings::{
    application_command, grid_coordinate, is_consumed, key_target, AppCommand, ResizeGuard,
    ResizeStep,
};
use slint_terminal::app::input::{KeyAction, KeyDecision};
use slint_terminal::app::rendering::{FrameGate, FrameStep};
use slint_terminal::app::sessions::{
    decoration_theme, default_title, physical_cell_size, query_for, terminal_theme, to_ui_number,
    viewport_grid, CloseOutcome, MetadataOutcome, SelectOutcome, ShownTab, TabData, TabManager,
    ThemeTokens, SETTINGS_TAB_ID,
};
use slint_terminal::app::viewport::{to_ui_cell, UiViewport};
use slint_terminal::terminal::frame::{CursorPatch, FramePatch};
use slint_terminal::terminal::palette::{RgbColor, RgbaColor};
use slint_terminal::terminal::search::SearchSnapshot;
use slint_terminal::terminal::snapshot;
use slint_terminal::text;

fn ids(tabs: &TabManager) -> Vec<i32> {
    tabs.sessions.iter().map(|session| session.id).collect()
}

fn three_tabs() -> TabManager {
    let mut tabs = TabManager::new();
    for _ in 0..2 {
        let id = tabs.allocate_id();
        tabs.add_tab(id);
    }
    tabs
}

fn metadata(title: Option<&str>, exit_message: Option<&str>) -> FramePatch {
    FramePatch {
        generation: 0,
        columns: 80,
        rows: 24,
        full_redraw: false,
        full_redraw_reason: None,
        metadata_only: false,
        changed_rows: Vec::new(),
        cursor: CursorPatch {
            column: 4,
            row: 2,
            visible: true,
            shape: 0,
            blinking: false,
        },
        scroll_offset: 7,
        scroll_history_lines: usize::MAX,
        search: SearchSnapshot::empty(),
        decorations: Vec::new(),
        title: title.map(str::to_owned),
        exit_message: exit_message.map(str::to_owned),
    }
}

#[test]
fn new_tabs_are_shown() {
    let mut tabs = TabManager::new();
    assert_eq!(tabs.active_id(), Some(1));
    let id = tabs.allocate_id();
    assert_eq!(id, 2);
    tabs.add_tab(id);
    assert_eq!(tabs.active_id(), Some(2));
    assert_eq!(tabs.selected_session().unwrap().title, default_title(2));
    assert_eq!(tabs.allocate_id(), 3);
}

#[test]
fn closing_keeps_the_selection() {
    let mut tabs = three_tabs();
    assert_eq!(tabs.close_tab(1), CloseOutcome::Show(Some(3)));
    assert_eq!(ids(&tabs), vec![2, 3]);
    assert_eq!(tabs.close_tab(3), CloseOutcome::Show(Some(2)));
    assert_eq!(tabs.close_tab(9), CloseOutcome::Nothing);
    assert_eq!(tabs.close_tab(2), CloseOutcome::Quit);
}

#[test]
fn settings_stay_when_the_last_terminal_goes() {
    let mut tabs = TabManager::new();
    tabs.open_settings();
    assert_eq!(tabs.active_id(), None);
    assert_eq!(tabs.selected_session().unwrap().id, 1);
    assert!(tabs.active_session().is_none());
    assert_eq!(tabs.close(1), CloseOutcome::Show(None));
    assert!(tabs.sessions.is_empty());
    assert_eq!(tabs.close(SETTINGS_TAB_ID), CloseOutcome::Quit);
}

#[test]
fn closed_settings_uncover_the_terminal() {
    let mut tabs = three_tabs();
    tabs.open_settings();
    assert_eq!(tabs.close_settings(), CloseOutcome::Show(Some(3)));
    assert!(!tabs.settings_open);
}

#[test]
fn selected_tabs_are_shown() {
    let mut tabs = three_tabs();
    assert_eq!(tabs.select_tab(3), SelectOutcome::Nothing);
    assert_eq!(tabs.select_tab(1), SelectOutcome::Terminal(1));
    assert_eq!(tabs.select_tab(SETTINGS_TAB_ID), SelectOutcome::Nothing);
    tabs.open_settings();
    assert_eq!(tabs.select_tab(1), SelectOutcome::Terminal(1));
    assert_eq!(tabs.select_tab(SETTINGS_TAB_ID), SelectOutcome::Settings);
    assert!(tabs.settings_active);
}

#[test]
fn frames_change_the_data_of_their_tab() {
    let mut tabs = three_tabs();
    assert_eq!(
        tabs.apply_frame_metadata(3, &metadata(Some("vim"), None)),
        MetadataOutcome {
            position: true,
            tabs: true
        }
    );
    let session = tabs.active_session().unwrap();
    assert_eq!(session.title, "vim");
    assert_eq!((session.cursor_column, session.cursor_row), (4, 2));
    assert_eq!(session.scroll_offset, 7);
    assert_eq!(session.scroll_history_lines, i32::MAX);
    assert_eq!(
        tabs.apply_frame_metadata(1, &metadata(None, Some("Process exited"))),
        MetadataOutcome {
            position: false,
            tabs: true
        }
    );
    assert!(!tabs.sessions[0].terminal_active);
    assert_eq!(tabs.sessions[0].exit_message, "Process exited");
    let mut quiet = metadata(None, None);
    quiet.metadata_only = true;
    quiet.scroll_offset = 99;
    assert_eq!(
        tabs.apply_frame_metadata(3, &quiet),
        MetadataOutcome {
            position: false,
            tabs: false
        }
    );
    assert_eq!(tabs.sessions[2].scroll_offset, 7);
    assert_eq!(
        tabs.apply_frame_metadata(8, &quiet),
        MetadataOutcome {
            position: false,
            tabs: false
        }
    );
}

#[test]
fn tabs_are_listed_with_the_settings_last() {
    let mut tabs = TabManager::new();
    tabs.open_settings();
    assert_eq!(
        tabs.tab_data(),
        vec![
            TabData {
                id: 1,
                title: default_title(1),
                terminal_active: true,
                is_settings: false
            },
            TabData {
                id: SETTINGS_TAB_ID,
                title: "设置".to_owned(),
                terminal_active: false,
                is_settings: true
            },
        ]
    );
    let shown = tabs.shown_tab().unwrap();
    assert_eq!((shown.id, shown.index), (SETTINGS_TAB_ID, 1));
    tabs.close_settings();
    assert_eq!(
        tabs.shown_tab(),
        Some(ShownTab {
            id: 1,
            index: 0,
            title: default_title(1)
        })
    );
}

#[test]
fn shortcuts_act_on_the_shown_tab() {
    let mut tabs = TabManager::new();
    assert_eq!(
        application_command(Some(KeyAction::CloseTab), &tabs),
        AppCommand::CloseTab(1)
    );
    assert_eq!(
        application_command(Some(KeyAction::Copy), &tabs),
        AppCommand::Copy
    );
    assert_eq!(
        application_command(Some(KeyAction::Interrupt), &tabs),
        AppCommand::Interrupt
    );
    assert_eq!(application_command(None, &tabs), AppCommand::Nothing);
    tabs.open_settings();
    assert_eq!(
        application_command(Some(KeyAction::CloseTab), &tabs),
        AppCommand::CloseTab(SETTINGS_TAB_ID)
    );
    assert_eq!(
        application_command(Some(KeyAction::Find), &tabs),
        AppCommand::Nothing
    );
    assert_eq!(
        application_command(Some(KeyAction::Quit), &tabs),
        AppCommand::Quit
    );
    assert_eq!(
        application_command(Some(KeyAction::NewTab), &tabs),
        AppCommand::NewTab
    );
}

#[test]
fn keys_go_to_running_terminals_only() {
    let mut tabs = TabManager::new();
    let decision = |forward: bool| KeyDecision {
        action: Some(KeyAction::Copy),
        forward,
    };
    assert_eq!(key_target(&tabs), Some(1));
    assert!(is_consumed(decision(false), &tabs));
    assert!(!is_consumed(decision(true), &tabs));
    assert!(!is_consumed(
        KeyDecision {
            action: None,
            forward: false
        },
        &tabs
    ));
    tabs.apply_frame_metadata(1, &metadata(None, Some("Process exited")));
    assert_eq!(key_target(&tabs), None);
    assert!(is_consumed(decision(true), &tabs));
}

#[test]
fn minimized_windows_do_not_resize_terminals() {
    let mut guard = ResizeGuard::new();
    assert_eq!(guard.resized(80, 24, false, true), ResizeStep::Nothing);
    assert!(guard.suspended);
    assert_eq!(guard.resized(2, 24, true, true), ResizeStep::Nothing);
    assert_eq!(guard.resized(80, 24, true, false), ResizeStep::Nothing);
    assert_eq!(
        guard.resized(80, 24, true, true),
        ResizeStep::Resize {
            columns: 80,
            rows: 24,
            redraw: true
        }
    );
    assert_eq!(
        guard.resized(81, 24, true, true),
        ResizeStep::Resize {
            columns: 81,
            rows: 24,
            redraw: false
        }
    );
}

#[test]
fn numbers_of_the_view_stay_in_range() {
    assert_eq!(grid_coordinate(-4), 0);
    assert_eq!(grid_coordinate(4), 4);
    assert_eq!(to_ui_number(usize::MAX), i32::MAX);
    assert_eq!(viewport_grid(0, -1), (2, 1));
    assert_eq!(viewport_grid(80, 24), (80, 24));
    assert_eq!(physical_cell_size(0, 18), (1, 18));
}

#[test]
fn themes_follow_the_interface() {
    let color = |red: u8| RgbaColor {
        red,
        green: 2,
        blue: 3,
        alpha: 100,
    };
    let tokens = ThemeTokens {
        background: color(10),
        foreground: color(20),
        selection: color(30),
        search_match: color(40),
        search_current: color(50),
    };
    let theme = terminal_theme(tokens);
    assert_eq!(
        theme.foreground,
        RgbColor {
            red: 20,
            green: 2,
            blue: 3
        }
    );
    assert_eq!(theme.selection_background.red, 30);
    assert_eq!(decoration_theme(tokens).search_current_background, color(50));
    assert_eq!(query_for(true, "abc"), "abc");
    assert_eq!(query_for(false, "abc"), "");
}

#[test]
fn partial_frames_wait_for_a_full_one() {
    let mut gate = FrameGate::new();
    assert_eq!(gate.arrive(true, false, false, true), FrameStep::RequestFull);
    assert_eq!(gate.arrive(true, false, true, true), FrameStep::Apply);
    assert!(!gate.drawn(true, true));
    assert_eq!(gate.arrive(true, false, false, true), FrameStep::Apply);
    assert!(gate.drawn(false, false));
    assert!(gate.awaiting_full_frame);
    gate.drawn(true, true);
    assert_eq!(gate.arrive(true, true, false, true), FrameStep::Ignore);
    assert_eq!(gate.arrive(false, false, true, true), FrameStep::Ignore);
    assert!(!gate.awaiting_full_frame);
    assert_eq!(gate.arrive(true, false, true, false), FrameStep::Ignore);
    assert!(gate.awaiting_full_frame);
    gate.drawn(true, true);
    gate.wait_for_full_frame();
    assert!(gate.awaiting_full_frame);
}

fn plain_cell(shown: &str) -> snapshot::TerminalCellPatch {
    let black = RgbColor {
        red: 0,
        green: 0,
        blue: 0,
    };
    snapshot::TerminalCellPatch {
        text: shown.to_owned(),
        foreground: black,
        background: black,
        column: 3,
        width_in_columns: 2,
        bold: true,
        italic: false,
        underline_style: 0,
        underline_decoration: String::new(),
        strikeout: false,
        hidden: false,
    }
}

fn plain_frame(generation: u64, rows: usize, changed: &[(usize, &str)]) -> snapshot::FramePatch {
    snapshot::FramePatch {
        generation,
        columns: 80,
        rows,
        full_redraw: false,
        changed_rows: changed
            .iter()
            .map(|(row, shown)| snapshot::RowPatch {
                row: *row,
                cells: vec![plain_cell(shown)],
            })
            .collect(),
        cursor: CursorPatch {
            column: 0,
            row: 0,
            visible: true,
            shape: 0,
            blinking: false,
        },
        title: Some("top".to_owned()),
        exit_message: None,
    }
}

fn shown_row(view: &UiViewport, row: usize) -> Vec<&str> {
    view.row(row)
        .unwrap()
        .iter()
        .map(|cell| cell.text.as_str())
        .collect()
}

#[test]
fn views_show_the_newest_grid() {
    let mut view = UiViewport::new(2);
    assert!(shown_row(&view, 1).is_empty());
    assert!(view.row(2).is_none());
    let update = view.apply(plain_frame(1, 2, &[(0, "a"), (1, "b"), (9, "c")])).unwrap();
    assert_eq!(update.title, Some("top".to_owned()));
    assert_eq!(shown_row(&view, 1), vec!["b"]);
    assert!(view.apply(plain_frame(0, 2, &[(0, "x")])).is_none());
    assert_eq!(shown_row(&view, 0), vec!["a"]);
    assert!(view.apply(plain_frame(1, 2, &[(0, "y")])).is_some());
    assert_eq!(shown_row(&view, 0), vec!["y"]);
    assert_eq!(shown_row(&view, 1), vec!["b"]);
    let mut partial = plain_frame(2, 2, &[(0, "z")]);
    partial.full_redraw = true;
    assert!(view.apply(partial).is_none());
    assert!(shown_row(&view, 0).is_empty());
    let cell = to_ui_cell(plain_cell("q"));
    assert_eq!((cell.column, cell.width_in_columns), (3, 2));
    assert!(cell.bold);
}

#[test]
fn trimmed_texts_stay_trimmed() {
    for shown in ["", "  ", " a b ", "\u{3000}x\n"] {
        let trimmed = text::trim(shown);
        assert_eq!(trimmed, shown.trim());
        assert_eq!(text::trim(trimmed.as_str()), trimmed);
    }
}
