use slint_terminal::app::settings::environment::Environment;
use slint_terminal::app::settings::{ProfileKind, ShellProfile};
use slint_terminal::ordering::{sort_by_key, Keyed};
use slint_terminal::renderer::stats::Sample;
use slint_terminal::terminal::backend::{
    encode_paste, mouse_scroll, paste, scroll_to, select_all, send_key, ssh_arguments, window_size,
    MouseOutcome, ResizeOutcome, ScrollOutcome, SelectionKind, Side, TerminalBackend,
};
use slint_terminal::terminal::command::{
    CoalescedCommand, MouseAction, MouseButton, MouseInput, MouseScrollInput, TerminalSize,
};
use slint_terminal::terminal::controller::{may_be_dropped, mouse_input, TerminalController};
use slint_terminal::terminal::frame::{CursorPatch, FramePatch, FullRedrawReason};
use slint_terminal::terminal::input::{
    control_byte, encode_key, encode_text, encode_without_modifiers, function_sequence,
    modifier_parameter, no_modifiers, tilde_sequence, KeyInput,
};
use slint_terminal::terminal::launch::launch_plan;
use slint_terminal::terminal::mode::TermMode;
use slint_terminal::terminal::mouse::{
    accumulate_scroll_lines, encode_mouse_report, visible_point,
};
use slint_terminal::terminal::notifier::{Notifier, NotifierAction, TerminalEvent, WindowSize};
use slint_terminal::terminal::palette::{
    dim, indexed_color, resolve_color, resolve_dynamic_color, AnsiColor, ColorOverrides,
    NamedColor, RgbColor, TerminalTheme,
};
use slint_terminal::terminal::pty;
use slint_terminal::terminal::pty::{redraws_everything, PtyAction, PtyMessage, PtyWorker};
use slint_terminal::terminal::search::{
    escape_regex_literal, prepare_search, GridPoint, SearchHighlight, SearchMatch, SearchSnapshot,
    SearchState, Viewport,
};
use slint_terminal::terminal::snapshot;
use slint_terminal::terminal::ssh::{
    configure_askpass, configure_askpass_with_executable, is_password_prompt, respond_to_askpass,
    AskpassReply, ASKPASS_MODE_ENV, OPENSSH_ASKPASS_ENV, OPENSSH_ASKPASS_REQUIRE_ENV,
    PASSWORD_ENV,
};
use slint_terminal::terminal::worker::{
    mouse_effect_action, FrameKind, MailboxState, MouseEffect, WorkerAction, WorkerMessage,
    WorkerState, FRAME_INTERVAL, SEARCH_DEBOUNCE,
};

const NO_MODE: TermMode = TermMode { bits: 0 };

fn rgb(red: u8, green: u8, blue: u8) -> RgbColor {
    RgbColor { red, green, blue }
}

fn theme() -> TerminalTheme {
    TerminalTheme {
        background: rgb(1, 2, 3),
        foreground: rgb(4, 5, 6),
        selection_background: rgb(7, 8, 9),
        selection_foreground: rgb(10, 11, 12),
        search_match_background: rgb(13, 14, 15),
        search_current_background: rgb(19, 20, 21),
    }
}

fn mode(flags: u32) -> TermMode {
    TermMode::new(flags)
}

fn size() -> TerminalSize {
    TerminalSize::new(80, 24, 9.0f32.to_bits(), 18.0f32.to_bits())
}

fn mouse(button: MouseButton, action: MouseAction, shift: bool) -> MouseInput {
    MouseInput {
        column: 4,
        row: 2,
        button,
        action,
        shift,
        alt: false,
        control: false,
        right_half: true,
    }
}

#[test]
fn backend_paste_normalizes_lines_and_protects_bracketed_terminator() {
    assert_eq!(encode_paste("one\r\ntwo\n", false), b"one\rtwo\r");
    assert_eq!(
        encode_paste("one\x1b[201~two", true),
        b"\x1b[200~one[201~two\x1b[201~"
    );
}

#[test]
fn pty_paste_normalizes_lines_and_protects_bracketed_terminator() {
    assert_eq!(pty::encode_paste("one\r\ntwo\n", false), b"one\rtwo\r");
    assert_eq!(
        pty::encode_paste("one\x1b[201~two", true),
        b"\x1b[200~one[201~two\x1b[201~"
    );
}

#[test]
fn pastes_follow_the_mode() {
    assert_eq!(paste("a\rb", NO_MODE), b"a\rb");
    assert_eq!(
        paste("a\rb", mode(TermMode::BRACKETED_PASTE)),
        b"\x1b[200~a\nb\x1b[201~"
    );
    assert_eq!(paste("é\n", NO_MODE), "é\r".as_bytes());
}

#[test]
fn ssh_profile_builds_arguments_without_shell_quoting() {
    let profile = ShellProfile {
        kind: ProfileKind::Ssh,
        ssh_host: "example.com".to_owned(),
        ssh_user: "deploy".to_owned(),
        ssh_port: 2222,
        ssh_identity_file: Some("C:\\Keys\\work key".into()),
        ssh_password: "plain secret".to_owned(),
        arguments: vec!["-A".to_owned()],
        ..ShellProfile::empty()
    };
    assert_eq!(
        ssh_arguments(&profile),
        vec![
            "-o",
            "SendEnv=-SLINT_TERMINAL_SSH_PASSWORD",
            "-p",
            "2222",
            "-i",
            "C:\\Keys\\work key",
            "-A",
            "deploy@example.com"
        ]
    );
}

#[test]
fn plain_ssh_profiles_need_the_host_only() {
    let profile = ShellProfile {
        kind: ProfileKind::Ssh,
        ssh_host: "example.com".to_owned(),
        ..ShellProfile::empty()
    };
    assert_eq!(ssh_arguments(&profile), vec!["example.com"]);
}

#[test]
fn configures_the_current_program_as_forced_askpass() {
    let mut environment = Environment::new();
    configure_askpass_with_executable(
        &mut environment,
        "plain secret",
        "C:\\Apps\\slint-terminal.exe",
    );
    assert_eq!(
        environment.get(OPENSSH_ASKPASS_ENV),
        Some("C:\\Apps\\slint-terminal.exe")
    );
    assert_eq!(environment.get(OPENSSH_ASKPASS_REQUIRE_ENV), Some("force"));
    assert_eq!(environment.get(ASKPASS_MODE_ENV), Some("1"));
    assert_eq!(environment.get(PASSWORD_ENV), Some("plain secret"));
}

#[test]
fn answers_only_password_prompts() {
    assert!(is_password_prompt(Some("deploy@example.com's password:")));
    assert!(is_password_prompt(Some("Password:")));
    assert!(is_password_prompt(None));
    assert!(!is_password_prompt(Some("Enter passphrase for key:")));
    assert!(!is_password_prompt(Some(
        "Are you sure you want to continue connecting?"
    )));
}

#[test]
fn profiles_without_a_password_need_no_helper() {
    let mut environment = Environment::new();
    let mut profile = ShellProfile::empty();
    let no_path = || Err::<String, String>("no path".to_owned());
    assert!(configure_askpass(&mut environment, &profile, no_path()).is_ok());
    assert!(environment.is_empty());
    profile.ssh_password = "secret".to_owned();
    assert_eq!(
        configure_askpass(&mut environment, &profile, no_path()),
        Err("no path".to_owned())
    );
    assert!(environment.is_empty());
    assert!(configure_askpass(&mut environment, &profile, Ok("/me".to_owned())).is_ok());
    assert_eq!(environment.len(), 4);
}

#[test]
fn prompts_are_answered_where_the_program_was_asked() {
    let asked = || Some("1".to_owned());
    let password = || Ok::<String, String>("secret".to_owned());
    assert_eq!(
        respond_to_askpass(None, password(), None),
        AskpassReply::NotAsked
    );
    assert_eq!(
        respond_to_askpass(Some("0".to_owned()), password(), None),
        AskpassReply::NotAsked
    );
    assert_eq!(
        respond_to_askpass(asked(), password(), Some("Password:")),
        AskpassReply::Answer("secret".to_owned())
    );
    assert_eq!(
        respond_to_askpass(asked(), password(), Some("Continue?")),
        AskpassReply::Refused("SSH askpass refused a non-password prompt".to_owned())
    );
    assert_eq!(
        respond_to_askpass(asked(), Err("not present".to_owned()), None),
        AskpassReply::NoPassword(
            "SSH askpass password is unavailable: not present".to_owned()
        )
    );
}

#[test]
fn terminal_size_tracks_and_clamps_cell_pixels() {
    let size = TerminalSize::new(80, 24, 8.2f32.to_bits(), 17.1f32.to_bits());
    assert_eq!(size.cell_width, 9);
    assert_eq!(size.cell_height, 18);

    let minimum = TerminalSize::new(80, 24, 0.0f32.to_bits(), (-1.0f32).to_bits());
    assert_eq!(minimum.cell_width, 1);
    assert_eq!(minimum.cell_height, 1);
}

#[test]
fn terminal_sizes_stay_within_their_numbers() {
    let large = TerminalSize::new(1, 1, 1e9f32.to_bits(), f32::NAN.to_bits());
    assert_eq!(large.cell_width, u16::MAX);
    assert_eq!(large.cell_height, 0);
    let odd = TerminalSize::new(1, 1, f32::INFINITY.to_bits(), 0.25f32.to_bits());
    assert_eq!(odd.cell_width, u16::MAX);
    assert_eq!(odd.cell_height, 1);
    assert_eq!(
        window_size(TerminalSize {
            columns: 100_000,
            rows: 3,
            cell_width: 9,
            cell_height: 18
        }),
        WindowSize {
            num_lines: 3,
            num_cols: u16::MAX,
            cell_width: 9,
            cell_height: 18
        }
    );
}

#[test]
fn coalesced_commands_keep_the_latest_value() {
    let mut command = CoalescedCommand::new();
    assert!(command.put(1));
    assert!(!command.put(2));
    assert_eq!(command.take(), Some(2));
    assert_eq!(command.take(), None);
    assert!(command.put(3));
}

#[test]
fn encodes_control_characters() {
    for (text, expected) in [("c", 3), ("[", 27), (" ", 0), ("?", 127), ("8", 127)] {
        assert_eq!(
            encode_key(
                KeyInput::Text(text.into()),
                true,
                false,
                false,
                false,
                NO_MODE,
            ),
            vec![expected]
        );
    }
}

#[test]
fn prefixes_alt_text_with_escape() {
    assert_eq!(
        encode_key(
            KeyInput::Text("x".into()),
            false,
            true,
            false,
            false,
            NO_MODE,
        ),
        b"\x1bx"
    );
}

#[test]
fn altgr_sends_printable_text_without_control_encoding() {
    assert_eq!(
        encode_key(
            KeyInput::Text("@".into()),
            true,
            true,
            false,
            true,
            NO_MODE,
        ),
        b"@"
    );
}

#[test]
fn encodes_xterm_modified_special_keys() {
    assert_eq!(
        encode_key(KeyInput::Left, true, false, false, false, NO_MODE),
        b"\x1b[1;5D"
    );
    assert_eq!(
        encode_key(KeyInput::Function(5), false, false, true, false, NO_MODE),
        b"\x1b[15;2~"
    );
}

#[test]
fn application_cursor_mode_uses_ss3_sequences_without_modifiers() {
    assert_eq!(
        encode_without_modifiers(KeyInput::Up, mode(TermMode::APP_CURSOR)),
        b"\x1bOA"
    );
    assert_eq!(encode_without_modifiers(KeyInput::Up, NO_MODE), b"\x1b[A");
}

#[test]
fn keys_are_made_of_parts() {
    assert_eq!(no_modifiers(), (false, false, false, false));
    assert_eq!(control_byte('a'), Some(1));
    assert_eq!(control_byte('é'), None);
    assert_eq!(modifier_parameter(false, false, false), None);
    assert_eq!(modifier_parameter(true, true, true), Some(8));
    assert_eq!(tilde_sequence(3, None), "\x1b[3~");
    assert_eq!(function_sequence(1, None), "\x1bOP");
    assert_eq!(function_sequence(1, Some(5)), "\x1b[1;5P");
    assert_eq!(function_sequence(12, None), "\x1b[24~");
    assert_eq!(encode_text("ab", true, false), b"ab");
    assert_eq!(encode_text("a", true, true), b"\x1b\x01");
    assert_eq!(
        encode_key(KeyInput::Backspace, false, false, false, false, NO_MODE),
        b"\x7f"
    );
    assert_eq!(
        encode_key(KeyInput::Backtab, false, false, false, false, NO_MODE),
        b"\x1b[Z"
    );
}

#[test]
fn keys_without_bytes_are_not_sent() {
    assert_eq!(
        send_key(KeyInput::Text(String::new()), false, false, false, false, NO_MODE),
        None
    );
    assert_eq!(
        send_key(KeyInput::Return, false, false, false, false, NO_MODE),
        Some(b"\r".to_vec())
    );
}

fn check_sgr_reports() {
    let mode = mode(TermMode::SGR_MOUSE);
    assert_eq!(
        encode_mouse_report(
            MouseButton::Left,
            MouseAction::Press,
            4,
            2,
            false,
            false,
            true,
            mode,
        ),
        b"\x1b[<16;5;3M"
    );
    assert_eq!(
        encode_mouse_report(
            MouseButton::Left,
            MouseAction::Release,
            4,
            2,
            false,
            false,
            false,
            mode,
        ),
        b"\x1b[<0;5;3m"
    );
}

fn check_legacy_reports() {
    assert_eq!(
        encode_mouse_report(
            MouseButton::Right,
            MouseAction::Move,
            0,
            0,
            false,
            false,
            false,
            NO_MODE,
        ),
        b"\x1b[MB!!"
    );
    assert_eq!(
        encode_mouse_report(
            MouseButton::Left,
            MouseAction::Release,
            0,
            0,
            false,
            false,
            false,
            NO_MODE,
        ),
        b"\x1b[M#!!"
    );
}

#[test]
fn mouse_sgr_mouse_encodes_press_release_and_modifiers() {
    check_sgr_reports();
}

#[test]
fn mouse_legacy_mouse_encodes_motion_and_release() {
    check_legacy_reports();
}

#[test]
fn pty_sgr_mouse_encodes_press_release_and_modifiers() {
    check_sgr_reports();
}

#[test]
fn pty_legacy_mouse_encodes_motion_and_release() {
    check_legacy_reports();
}

#[test]
fn far_positions_are_clamped_in_old_reports() {
    let report = encode_mouse_report(
        MouseButton::Left,
        MouseAction::Press,
        500,
        0,
        false,
        false,
        false,
        NO_MODE,
    );
    assert_eq!(report, b"\x1b[M \xff!");
    let wide = encode_mouse_report(
        MouseButton::Left,
        MouseAction::Press,
        500,
        0,
        false,
        false,
        false,
        mode(TermMode::UTF8_MOUSE),
    );
    assert_eq!(wide, "\x1b[M \u{ff}!".as_bytes());
    assert!(encode_mouse_report(
        MouseButton::Other,
        MouseAction::Press,
        0,
        0,
        false,
        false,
        false,
        NO_MODE,
    )
    .is_empty());
}

#[test]
fn wheel_delta_is_never_lost_and_is_bounded() {
    assert_eq!(pty::scroll_lines(0.2f32.to_bits()), 1);
    assert_eq!(pty::scroll_lines((-0.2f32).to_bits()), -1);
    assert_eq!(pty::scroll_lines(50.0f32.to_bits()), 20);
    assert_eq!(pty::scroll_lines(f32::NAN.to_bits()), 0);
}

#[test]
fn wheel_turns_are_rounded() {
    assert_eq!(pty::scroll_lines(2.5f32.to_bits()), 3);
    assert_eq!(pty::scroll_lines((-2.4f32).to_bits()), -2);
    assert_eq!(pty::scroll_lines(0.0f32.to_bits()), 0);
    assert_eq!(pty::scroll_lines(f32::NEG_INFINITY.to_bits()), 0);
    assert_eq!(pty::scroll_lines(19.6f32.to_bits()), 20);
}

#[test]
fn visible_points_follow_the_scroll_position() {
    assert_eq!(visible_point(5, size(), 200, 3), GridPoint::new(-2, 79));
    assert_eq!(visible_point(0, size(), 1, 99), GridPoint::new(23, 1));
}

#[test]
fn drags_stay_with_their_owner() {
    let mut backend = TerminalBackend::new(size(), theme());
    let reports = mode(TermMode::MOUSE_REPORT_CLICK | TermMode::SGR_MOUSE);
    let outcome = backend.mouse_input(
        mouse(MouseButton::Left, MouseAction::Press, false),
        reports,
        0,
    );
    assert_eq!(outcome, MouseOutcome::Report(b"\x1b[<0;5;3M".to_vec()));
    let released = backend.mouse_input(
        mouse(MouseButton::Right, MouseAction::Release, true),
        reports,
        0,
    );
    assert_eq!(released, MouseOutcome::Report(b"\x1b[<4;5;3m".to_vec()));
    let selected = backend.mouse_input(
        mouse(MouseButton::Left, MouseAction::Press, true),
        reports,
        1,
    );
    assert_eq!(
        selected,
        MouseOutcome::StartSelection {
            kind: SelectionKind::Simple,
            point: GridPoint::new(1, 4),
            side: Side::Right
        }
    );
    let dragged = backend.mouse_input(
        mouse(MouseButton::Left, MouseAction::Move, false),
        reports,
        1,
    );
    assert_eq!(
        dragged,
        MouseOutcome::ExtendSelection {
            point: GridPoint::new(1, 4),
            side: Side::Right
        }
    );
    assert!(redraws_everything(&dragged));
    assert!(!redraws_everything(&MouseOutcome::Nothing));
    assert!(!redraws_everything(&MouseOutcome::Report(Vec::new())));
}

#[test]
fn wheels_scroll_or_report() {
    let input = MouseScrollInput {
        column: 0,
        row: 0,
        lines: 0,
        shift: false,
        alt: false,
        control: false,
    };
    assert_eq!(mouse_scroll(input, 0, NO_MODE), ScrollOutcome::Nothing);
    assert_eq!(
        mouse_scroll(input, 3, NO_MODE),
        ScrollOutcome::ScrollDisplay(3)
    );
    assert_eq!(
        mouse_scroll(
            input,
            -2,
            mode(TermMode::ALT_SCREEN | TermMode::ALTERNATE_SCROLL)
        ),
        ScrollOutcome::Send {
            bytes: b"\x1b[B".to_vec(),
            times: 2
        }
    );
    assert_eq!(
        mouse_scroll(
            input,
            90,
            mode(TermMode::MOUSE_REPORT_CLICK | TermMode::SGR_MOUSE)
        ),
        ScrollOutcome::Send {
            bytes: b"\x1b[<64;1;1M".to_vec(),
            times: 20
        }
    );
}

#[test]
fn scroll_bars_reach_their_target() {
    let view = Viewport {
        display_offset: 5,
        screen_lines: 24,
        total_lines: 124,
    };
    assert_eq!(scroll_to(view, 40), 35);
    assert_eq!(scroll_to(view, 500), 95);
    assert_eq!(scroll_to(view, 0), -5);
}

#[test]
fn new_sizes_start_new_generations() {
    let mut backend = TerminalBackend::new(size(), theme());
    assert_eq!(backend.resize(size()), ResizeOutcome::Unchanged);
    let taller = TerminalSize {
        cell_height: 20,
        ..size()
    };
    assert!(matches!(
        backend.resize(taller),
        ResizeOutcome::Changed {
            grid_changed: false,
            ..
        }
    ));
    assert_eq!(backend.generation, 0);
    let wider = TerminalSize {
        columns: 81,
        ..taller
    };
    assert!(matches!(
        backend.resize(wider),
        ResizeOutcome::Changed {
            grid_changed: true,
            ..
        }
    ));
    assert_eq!(backend.generation, 1);
    assert_eq!(backend.forced_full_redraw, Some(FullRedrawReason::Resize));
}

#[test]
fn bright_dim_colors_do_not_overflow() {
    let color = resolve_color(
        AnsiColor::Named(NamedColor::DimRed),
        &ColorOverrides::none(),
        true,
        theme(),
    );
    assert_eq!((color.red, color.green, color.blue), (170, 82, 76));
}

#[test]
fn dynamic_queries_use_overrides_then_theme_defaults() {
    let mut colors = ColorOverrides::none();
    colors.set(NamedColor::Foreground.index(), Some(rgb(20, 21, 22)));

    assert_eq!(
        resolve_dynamic_color(NamedColor::Foreground.index(), &colors, theme()),
        colors.entries[NamedColor::Foreground.index()]
    );
    assert_eq!(
        resolve_dynamic_color(NamedColor::Background.index(), &colors, theme()),
        Some(rgb(1, 2, 3))
    );
    assert!(resolve_dynamic_color(usize::MAX, &colors, theme()).is_none());
}

#[test]
fn queries_agree_with_what_is_drawn() {
    let colors = ColorOverrides::none();
    for color in [
        NamedColor::Black,
        NamedColor::BrightWhite,
        NamedColor::Cursor,
        NamedColor::DimForeground,
    ] {
        assert_eq!(
            resolve_dynamic_color(color.index(), &colors, theme()),
            Some(resolve_color(AnsiColor::Named(color), &colors, true, theme()))
        );
    }
}

#[test]
fn indexed_colors_follow_the_program() {
    let mut colors = ColorOverrides::none();
    colors.set(3, Some(rgb(7, 8, 9)));
    colors.set(200, Some(rgb(20, 21, 22)));
    let drawn = |index: u8| resolve_color(AnsiColor::Indexed(index), &colors, true, theme());
    assert_eq!(drawn(3), rgb(7, 8, 9));
    assert_eq!(drawn(200), rgb(20, 21, 22));
    assert_eq!(drawn(16), rgb(0, 0, 0));
    for index in 0..=255u8 {
        assert_eq!(
            resolve_dynamic_color(usize::from(index), &colors, theme()),
            Some(drawn(index))
        );
    }
}

#[test]
fn mouse_effects_use_the_clipboard() {
    assert_eq!(mouse_effect_action(MouseEffect::Nothing), WorkerAction::Nothing);
    assert_eq!(
        mouse_effect_action(MouseEffect::CopyToClipboard("x".to_owned())),
        WorkerAction::CopyToClipboard("x".to_owned())
    );
    assert_eq!(
        mouse_effect_action(MouseEffect::PasteFromClipboard),
        WorkerAction::PasteClipboard
    );
}

#[test]
fn indexed_colors_form_a_cube_and_a_ramp() {
    assert_eq!(indexed_color(16), rgb(0, 0, 0));
    assert_eq!(indexed_color(231), rgb(255, 255, 255));
    assert_eq!(indexed_color(232), rgb(8, 8, 8));
    assert_eq!(indexed_color(255), rgb(238, 238, 238));
    assert_eq!(dim(rgb(255, 3, 1)), rgb(170, 2, 0));
}

#[test]
fn plain_text_search_escapes_regex_syntax() {
    assert_eq!(
        escape_regex_literal(r"a.*[b] (c)? \\"),
        r"a\.\*\[b\] \(c\)\? \\\\"
    );
}

#[test]
fn only_queries_are_compiled() {
    assert!(prepare_search("").is_none());
    assert!(prepare_search("a.*[").is_some());
}

fn found(line: i32) -> SearchMatch {
    SearchMatch {
        start: GridPoint::new(line, 0),
        end: GridPoint::new(line, 2),
    }
}

#[test]
fn searches_step_through_their_matches() {
    let view = Viewport {
        display_offset: 0,
        screen_lines: 10,
        total_lines: 110,
    };
    let mut search = SearchState::new(0);
    let scroll = search.set_query(
        "abc".to_owned(),
        vec![found(-50), found(2), found(5)],
        view,
        0,
    );
    let start = search.snapshot(view);
    assert_eq!(start.total, 3);
    assert!(start.current >= 1);
    assert_eq!(search.query(), "abc");
    let first = start.current;
    search.step(false, view);
    search.step(true, view);
    assert_eq!(search.snapshot(view).current, first);
    for _ in 0..3 {
        search.step(false, view);
    }
    assert_eq!(search.snapshot(view).current, first);
    let shown = search.snapshot(view).visible_matches;
    assert_eq!(shown.len(), 2);
    assert!(shown
        .iter()
        .any(|(_, highlight)| *highlight == SearchHighlight::Match
            || *highlight == SearchHighlight::Current));
    assert!(scroll.is_none() || scroll.unwrap() >= 0);
}

#[test]
fn searches_are_refreshed_after_a_while() {
    let view = Viewport {
        display_offset: 0,
        screen_lines: 10,
        total_lines: 10,
    };
    let mut search = SearchState::new(0);
    assert!(!search.is_refresh_due(10_000));
    search.set_query("a".to_owned(), vec![found(1)], view, 0);
    assert!(!search.is_refresh_due(249));
    assert!(search.is_refresh_due(250));
    assert!(!search.refresh_if_due(Vec::new(), view, 100));
    assert!(search.refresh_if_due(vec![found(1), found(2)], view, 300));
    assert_eq!(search.snapshot(view).total, 2);
    assert!(!search.refresh_if_due(vec![found(1), found(2)], view, 600));
}

fn notifier() -> Notifier {
    Notifier::new(window_size(size()), "Terminal 1".to_owned())
}

#[test]
fn exit_codes_stay_on_record() {
    let mut notifier = notifier();
    assert_eq!(
        notifier.send_event(TerminalEvent::ChildExit(Some(7))),
        NotifierAction::WakeWorker
    );
    assert_eq!(
        notifier.send_event(TerminalEvent::Exit),
        NotifierAction::Nothing
    );
    assert_eq!(
        notifier.take_exit_message(),
        Some("Process exited with code 7".to_owned())
    );
    notifier.send_event(TerminalEvent::ChildExit(None));
    assert_eq!(
        notifier.take_exit_message(),
        Some("Process terminated".to_owned())
    );
    notifier.send_event(TerminalEvent::Exit);
    assert_eq!(
        notifier.take_exit_message(),
        Some("Process exited".to_owned())
    );
}

#[test]
fn titles_fall_back_to_their_default() {
    let mut notifier = notifier();
    notifier.send_event(TerminalEvent::Title("vim".to_owned()));
    assert_eq!(notifier.take_title(), Some("vim".to_owned()));
    notifier.send_event(TerminalEvent::ResetTitle);
    assert_eq!(notifier.take_title(), Some("Terminal 1".to_owned()));
    assert!(notifier.begin_frame());
    assert!(!notifier.begin_frame());
    assert_eq!(
        notifier.send_event(TerminalEvent::Wakeup),
        NotifierAction::WakeWorker
    );
    assert_eq!(notifier.send_event(TerminalEvent::Bell), NotifierAction::Nothing);
    assert_eq!(
        notifier.send_event(TerminalEvent::PtyWrite("x".to_owned())),
        NotifierAction::WriteToPty("x".to_owned())
    );
    assert_eq!(
        notifier.send_event(TerminalEvent::TextAreaSizeRequest),
        NotifierAction::ReportSize(window_size(size()))
    );
    assert_eq!(
        notifier.send_event(TerminalEvent::ColorRequest(3)),
        NotifierAction::RequestColor(3)
    );
}

#[test]
fn workers_wait_for_what_comes_first() {
    let mut worker = WorkerState::new(1_000);
    assert_eq!(worker.wait(1_000), Some(0));
    assert_eq!(worker.due_frame(1_000), Some(FrameKind::View));
    worker.frame_taken(1_000, false);
    assert_eq!(worker.wait(1_000), None);
    assert_eq!(
        worker.receive(WorkerMessage::Search("a".to_owned()), 2_000),
        WorkerAction::Nothing
    );
    assert_eq!(worker.wait(2_000), Some(1_000 + FRAME_INTERVAL - 2_000));
    assert_eq!(worker.due_frame(2_000), None);
    assert_eq!(worker.take_due_search(2_000), None);
    assert_eq!(
        worker.take_due_search(2_000 + SEARCH_DEBOUNCE),
        Some("a".to_owned())
    );
    assert_eq!(
        worker.receive(WorkerMessage::SetActive(false), 3_000),
        WorkerAction::Nothing
    );
    assert_eq!(
        worker.due_frame(1_000 + FRAME_INTERVAL),
        Some(FrameKind::Metadata)
    );
    worker.frame_taken(1_000 + FRAME_INTERVAL, true);
    assert_eq!(worker.wait(1_000 + FRAME_INTERVAL), Some(FRAME_INTERVAL));
}

#[test]
fn workers_answer_messages() {
    let mut worker = WorkerState::new(0);
    assert_eq!(
        worker.receive(WorkerMessage::Shutdown, 0),
        WorkerAction::Stop
    );
    assert_eq!(
        worker.receive(WorkerMessage::ScrollTo(Some(4)), 0),
        WorkerAction::ScrollTo(4)
    );
    assert_eq!(
        worker.receive(WorkerMessage::ScrollTo(None), 0),
        WorkerAction::Nothing
    );
    assert_eq!(
        worker.receive(WorkerMessage::ClipboardStore("x".repeat(1024 * 1024)), 0),
        WorkerAction::CopyToClipboard("x".repeat(1024 * 1024))
    );
    assert_eq!(
        worker.receive(WorkerMessage::ClipboardStore("x".repeat(1024 * 1024 + 1)), 0),
        WorkerAction::Nothing
    );
    worker.receive(WorkerMessage::Search("a".to_owned()), 0);
    assert_eq!(
        worker.receive(WorkerMessage::SearchStep(true), 0),
        WorkerAction::SearchStep {
            query: Some("a".to_owned()),
            previous: true
        }
    );
    assert_eq!(
        worker.receive(WorkerMessage::SearchStep(false), 0),
        WorkerAction::SearchStep {
            query: None,
            previous: false
        }
    );
    assert_eq!(
        worker.receive(WorkerMessage::Search(String::new()), 0),
        WorkerAction::UpdateSearch(String::new())
    );
}

#[test]
fn single_terminals_draw_when_told() {
    let mut worker = PtyWorker::new(0);
    assert_eq!(worker.wait(0), Some(0));
    assert!(worker.take_due_frame(0));
    assert!(!worker.take_due_frame(FRAME_INTERVAL));
    assert_eq!(
        worker.receive(PtyMessage::PasteClipboard),
        PtyAction::PasteClipboard
    );
    assert_eq!(worker.wait(5), None);
    assert_eq!(worker.receive(PtyMessage::Render), PtyAction::Nothing);
    assert_eq!(worker.wait(5), Some(FRAME_INTERVAL - 5));
    assert!(worker.take_due_frame(FRAME_INTERVAL));
    assert_eq!(
        worker.receive(PtyMessage::Resize {
            columns: 3,
            rows: 2
        }),
        PtyAction::Resize {
            columns: 3,
            rows: 2
        }
    );
    assert!(worker.frame_pending);
    assert_eq!(worker.receive(PtyMessage::Shutdown), PtyAction::Stop);
}

#[test]
fn numbers_of_the_interface_become_mouse_events() {
    let input = mouse_input(1, 2, 2, 4, true, false, true, false);
    assert_eq!(input.button, MouseButton::Right);
    assert_eq!(input.action, MouseAction::DoubleClick);
    assert!(input.shift && !input.alt && input.control && !input.right_half);
    assert!(!may_be_dropped(&input));
    let moved = mouse_input(1, 2, 7, 2, false, false, false, false);
    assert_eq!(moved.button, MouseButton::Other);
    assert!(may_be_dropped(&moved));
    assert_eq!(
        mouse_input(0, 0, 0, 3, false, false, false, false).action,
        MouseAction::Cancel
    );
}

fn titled_frame(title: &str) -> FramePatch {
    FramePatch {
        generation: 0,
        columns: 80,
        rows: 24,
        full_redraw: false,
        full_redraw_reason: None,
        metadata_only: false,
        changed_rows: Vec::new(),
        cursor: CursorPatch {
            column: 0,
            row: 0,
            visible: false,
            shape: 0,
            blinking: false,
        },
        scroll_offset: 0,
        scroll_history_lines: 0,
        search: SearchSnapshot::empty(),
        decorations: Vec::new(),
        title: Some(title.to_owned()),
        exit_message: None,
    }
}

#[test]
fn interfaces_are_told_once() {
    let mut controller = TerminalController::new();
    assert!(!controller.set_active(true));
    assert!(controller.set_active(false));
    assert!(!controller.set_active(false));
    assert_eq!(
        controller.publish(titled_frame("a")),
        (MailboxState::Merged, true)
    );
    assert_eq!(
        controller.publish(titled_frame("b")),
        (MailboxState::Merged, false)
    );
    let taken = controller.take_latest_frame().unwrap();
    assert_eq!(taken.title.as_deref(), Some("b"));
    assert!(controller.take_latest_frame().is_none());
    assert!(controller.publish(titled_frame("c")).1);
}

#[test]
fn workers_take_the_latest_size_and_position() {
    let mut controller = TerminalController::new();
    let cell = (9.0f32.to_bits(), 18.0f32.to_bits());
    assert!(controller.resize(80, 24, cell.0, cell.1));
    assert!(!controller.resize(100, 30, cell.0, cell.1));
    assert_eq!(
        controller.take_resize(),
        Some(TerminalSize {
            columns: 100,
            rows: 30,
            cell_width: 9,
            cell_height: 18
        })
    );
    assert_eq!(controller.take_resize(), None);
    assert!(controller.resize(80, 24, cell.0, cell.1));
    assert!(controller.scroll_to(4));
    assert!(!controller.scroll_to(7));
    assert_eq!(controller.take_scroll(), Some(7));
    assert_eq!(controller.take_scroll(), None);
}

#[test]
fn everything_can_be_selected() {
    let (start, end) = select_all(-100, 23, 79);
    assert_eq!(
        start,
        MouseOutcome::StartSelection {
            kind: SelectionKind::Simple,
            point: GridPoint::new(-100, 0),
            side: Side::Left
        }
    );
    assert_eq!(
        end,
        MouseOutcome::ExtendSelection {
            point: GridPoint::new(23, 79),
            side: Side::Right
        }
    );
}

#[test]
fn profiles_say_what_is_started() {
    let path = || Ok::<String, String>("/me".to_owned());
    let plan = launch_plan(None, path()).unwrap();
    assert_eq!(plan.program, None);
    assert!(plan.environment.is_empty());
    let mut local = ShellProfile {
        program: "/bin/sh".to_owned(),
        arguments: vec!["-l".to_owned()],
        working_directory: Some("/tmp".to_owned()),
        ..ShellProfile::empty()
    };
    local.environment.insert("A".to_owned(), "1".to_owned());
    let plan = launch_plan(Some(&local), path()).unwrap();
    assert_eq!(plan.program.as_deref(), Some("/bin/sh"));
    assert_eq!(plan.arguments, vec!["-l"]);
    assert_eq!(plan.working_directory.as_deref(), Some("/tmp"));
    assert_eq!(plan.environment.get("A"), Some("1"));
    let mut remote = ShellProfile {
        kind: ProfileKind::Ssh,
        ssh_host: "example.com".to_owned(),
        ssh_password: "secret".to_owned(),
        ..ShellProfile::empty()
    };
    let plan = launch_plan(Some(&remote), path()).unwrap();
    assert_eq!(plan.program.as_deref(), Some("ssh"));
    assert_eq!(
        plan.arguments,
        vec!["-o", "SendEnv=-SLINT_TERMINAL_SSH_PASSWORD", "example.com"]
    );
    assert_eq!(plan.environment.get(PASSWORD_ENV), Some("secret"));
    assert_eq!(
        launch_plan(Some(&remote), Err("no path".to_owned())).unwrap_err(),
        "no path"
    );
    remote.ssh_password = String::new();
    assert!(launch_plan(Some(&remote), Err("no path".to_owned())).is_ok());
}

fn plain_frame(generation: u64, changed_rows: &[usize]) -> snapshot::FramePatch {
    snapshot::FramePatch {
        generation,
        columns: 80,
        rows: 24,
        full_redraw: false,
        changed_rows: changed_rows
            .iter()
            .map(|row| snapshot::RowPatch {
                row: *row,
                cells: Vec::new(),
            })
            .collect(),
        cursor: CursorPatch {
            column: 0,
            row: 0,
            visible: false,
            shape: 0,
            blinking: false,
        },
        title: None,
        exit_message: None,
    }
}

#[test]
fn mailbox_merges_unconsumed_incremental_rows() {
    let mut slot = None;
    pty::publish_frame(&mut slot, plain_frame(0, &[1, 3]));
    pty::publish_frame(&mut slot, plain_frame(0, &[2, 3]));

    let frame = slot.take().unwrap();
    let rows = frame
        .changed_rows
        .iter()
        .map(|row| row.row)
        .collect::<Vec<_>>();
    assert_eq!(rows, vec![1, 2, 3]);
}

#[test]
fn pty_mailbox_discards_frames_from_an_old_generation() {
    let mut slot = None;
    pty::publish_frame(&mut slot, plain_frame(0, &[1]));
    pty::publish_frame(&mut slot, plain_frame(1, &[2]));

    let frame = slot.take().unwrap();
    assert_eq!(frame.generation, 1);
    assert_eq!(frame.changed_rows[0].row, 2);
}

#[test]
fn pty_mailbox_retains_exit_status_while_merging() {
    let mut slot = None;
    pty::publish_frame(&mut slot, plain_frame(0, &[1]));
    let mut exited = plain_frame(0, &[2]);
    exited.exit_message = Some("Process exited with code 7".into());
    pty::publish_frame(&mut slot, exited);

    assert_eq!(
        slot.as_ref().unwrap().exit_message.as_deref(),
        Some("Process exited with code 7")
    );
}

#[test]
fn sorts_keep_the_order_of_equal_keys() {
    let sorted = sort_by_key(vec![
        snapshot::RowPatch {
            row: 2,
            cells: Vec::new(),
        },
        snapshot::RowPatch {
            row: 1,
            cells: Vec::new(),
        },
    ]);
    assert_eq!(sorted[0].row, 1);
    assert_eq!(Sample { value: 9 }.sort_key(), 9);
}

#[test]
fn cells_are_highlighted_by_the_first_match_over_them() {
    let found = |start: usize, end: usize| SearchMatch {
        start: GridPoint::new(0, start),
        end: GridPoint::new(0, end),
    };
    let snapshot = SearchSnapshot {
        visible_matches: vec![
            (found(2, 4), SearchHighlight::Current),
            (found(4, 6), SearchHighlight::Match),
        ],
        ..SearchSnapshot::empty()
    };
    let at = |column: usize| snapshot.highlight_at(GridPoint::new(0, column));
    assert_eq!(at(1), None);
    assert_eq!(at(2), Some(SearchHighlight::Current));
    assert_eq!(at(4), Some(SearchHighlight::Current));
    assert_eq!(at(6), Some(SearchHighlight::Match));
    assert_eq!(at(7), None);
    assert_eq!(snapshot.highlight_at(GridPoint::new(1, 3)), None);
}

#[test]
fn reveals_show_the_match() {
    let found = |line: i32| SearchMatch {
        start: GridPoint::new(line, 3),
        end: GridPoint::new(line, 5),
    };
    let view = Viewport {
        display_offset: 0,
        screen_lines: 10,
        total_lines: 110,
    };
    let mut search = SearchState::new(0);
    let scroll = search.set_query("x".to_owned(), vec![found(-50)], view, 0);
    assert_eq!(scroll, Some(54));
    let after = Viewport {
        display_offset: 54,
        ..view
    };
    assert_eq!(search.step(false, after), None);
    assert_eq!(search.step(true, after), None);
    let scroll = search.set_query("x".to_owned(), vec![found(-100)], view, 0);
    assert_eq!(scroll, Some(100));
}

#[test]
fn visible_matches_are_preferred() {
    let found = |line: i32| SearchMatch {
        start: GridPoint::new(line, 0),
        end: GridPoint::new(line, 1),
    };
    let view = Viewport {
        display_offset: 20,
        screen_lines: 10,
        total_lines: 110,
    };
    let mut search = SearchState::new(0);
    let all = vec![found(-40), found(-18), found(-12), found(3)];
    assert_eq!(search.set_query("x".to_owned(), all, view, 0), None);
    assert_eq!(search.snapshot(view).current, 3);
}

/// Adds a turn of the wheel to what is left of the earlier ones.
fn turn_wheel(remainder: &mut f32, lines: f32) -> i32 {
    let sum = if lines.is_finite() {
        *remainder + lines
    } else {
        *remainder
    };
    let mut bits = remainder.to_bits();
    let whole = accumulate_scroll_lines(&mut bits, lines.to_bits(), sum.to_bits());
    *remainder = f32::from_bits(bits);
    whole
}

#[test]
fn wheel_delta_accumulates_until_a_whole_line_and_is_bounded() {
    let mut remainder = 0.0;
    assert_eq!(turn_wheel(&mut remainder, 0.2), 0);
    assert_eq!(turn_wheel(&mut remainder, 0.7), 0);
    assert_eq!(turn_wheel(&mut remainder, 0.2), 1);
    assert!((remainder - 0.1).abs() < f32::EPSILON * 4.0);
    assert_eq!(turn_wheel(&mut remainder, -0.4), 0);
    assert_eq!(turn_wheel(&mut remainder, -0.8), -1);
    assert_eq!(turn_wheel(&mut remainder, 50.0), 20);
    assert_eq!(turn_wheel(&mut remainder, f32::NAN), 0);
}

#[test]
fn wheel_turns_are_split_as_floats_are() {
    let turns = [
        0.0, -0.0, 0.1, -0.1, 0.999, 1.0, -1.0, 1.5, -1.5, 2.75, 7.125, -7.3, 15.9, 16.0, -16.2,
        19.99, -19.99, 20.0, -20.0, 20.01, 31.0, -40.0, 1.0e9, -1.0e9, f32::MIN_POSITIVE,
        f32::INFINITY, f32::NEG_INFINITY,
    ];
    for sum in turns {
        let mut bits = 7;
        let whole = accumulate_scroll_lines(&mut bits, 1.0f32.to_bits(), sum.to_bits());
        let bounded = sum.clamp(-20.0, 20.0);
        assert_eq!(whole, bounded.trunc() as i32, "{sum}");
        assert_eq!(bits, (bounded - whole as f32).to_bits(), "{sum}");
    }
}

#[test]
fn no_turn_leaves_the_remainder() {
    for lines in [0.0, -0.0, f32::NAN, f32::INFINITY, f32::NEG_INFINITY] {
        let mut remainder = 0.25;
        assert_eq!(turn_wheel(&mut remainder, lines), 0);
        assert_eq!(remainder, 0.25);
    }
}
