use slint_terminal::app::bindings::{
    ensure_settings_writable, profile_after_removal, remove_profile, save_font, save_message,
    save_profile, save_shortcut, set_default_profile,
};
use slint_terminal::app::settings::environment::Environment;
use slint_terminal::app::settings::fonts::mono_font_families;
use slint_terminal::app::settings::profiles::{
    build_profile, detected_profiles, error_without_prefix, parse_arguments, parse_environment,
    profile_name_from_program, validate_environment_key, validate_identity_file,
    validate_profiles, validate_program, validate_ssh_host, validate_ssh_password,
    validate_ssh_port, validate_ssh_user, validate_working_directory, DetectedShell, PathFact,
    ProfileFiles,
};
use slint_terminal::app::settings::storage::{
    accept, load_or_create, save, FileSnapshot, LoadOutcome, SettingsWatcher,
};
use slint_terminal::app::settings::ui_sync::{
    sync_font_metrics, sync_profile_draft, sync_settings_limits, sync_settings_ui,
};
use slint_terminal::app::settings::{
    default_ssh_port, is_default_ssh_port, AppSettings, CursorShapeSetting, ProfileKind,
    ShellProfile,
};
use slint_terminal::app::settings_reload::{profile_to_show, reload};
use slint_terminal::renderer::fonts::{monospace_families, FontFace};

const ALL_FILES: ProfileFiles = ProfileFiles {
    program: true,
    directory: true,
    identity: true,
};

const NO_FILES: ProfileFiles = ProfileFiles {
    program: false,
    directory: false,
    identity: false,
};

const GOOD: PathFact = PathFact {
    absolute: true,
    exists: true,
};

/// A value of a settings file as the type that the setting has.
fn typed<T: serde::de::DeserializeOwned>(value: &toml::Value) -> Result<T, String> {
    value.clone().try_into().map_err(|error: toml::de::Error| error.to_string())
}

/// Settings from the few keys of a settings file that these tests use.
fn settings_from(contents: &str) -> Result<AppSettings, String> {
    let table: toml::Table = toml::from_str(contents).map_err(|error| error.to_string())?;
    let mut settings = AppSettings::defaults();
    for (key, value) in &table {
        match key.as_str() {
            "font_size" => settings.font_size = typed(value)?,
            "scrollback_lines" => settings.scrollback_lines = typed(value)?,
            "scroll_lines" => settings.scroll_lines = typed(value)?,
            "copy_on_select" => settings.copy_on_select = typed(value)?,
            "cursor_blink" => settings.cursor_blink = typed(value)?,
            "cursor_shape" => {
                let name: String = typed(value)?;
                settings.cursor_shape = match name.as_str() {
                    "block" => CursorShapeSetting::Block,
                    "underline" => CursorShapeSetting::Underline,
                    "beam" => CursorShapeSetting::Beam,
                    other => return Err(format!("unknown cursor shape {other}")),
                };
            }
            other => return Err(format!("unknown field {other}")),
        }
    }
    Ok(settings)
}

fn local_profile(id: i32, name: &str, program: &str) -> ShellProfile {
    ShellProfile {
        id,
        name: name.to_owned(),
        program: program.to_owned(),
        ..ShellProfile::empty()
    }
}

fn shell(name: &str, program: &str, is_file: bool) -> DetectedShell {
    DetectedShell {
        name: name.to_owned(),
        program: program.to_owned(),
        arguments: vec!["-l".to_owned()],
        is_file,
    }
}

#[test]
fn rejects_invalid_font_size_from_toml() {
    let settings = settings_from("font_size = 4").unwrap();
    assert!(settings
        .validate(&Vec::new())
        .unwrap_err()
        .contains("font_size"));
}

#[test]
fn scrollback_lines_defaults_and_rejects_out_of_range_values() {
    let settings = settings_from("").unwrap();
    assert_eq!(settings.scrollback_lines, 10_000);
    let settings = settings_from("scrollback_lines = 0").unwrap();
    assert!(settings.validate(&Vec::new()).is_ok());
    let settings = settings_from("scrollback_lines = 100001").unwrap();
    assert!(settings
        .validate(&Vec::new())
        .unwrap_err()
        .contains("scrollback_lines"));
    assert!(settings_from("scrollback_lines = -1").is_err());
}

#[test]
fn terminal_behavior_settings_default_and_validate() {
    let settings = settings_from("").unwrap();
    assert_eq!(settings.scroll_lines, 3);
    assert!(!settings.copy_on_select);
    assert!(!settings.right_click_paste);
    assert_eq!(settings.cursor_shape, CursorShapeSetting::Block);
    assert!(!settings.cursor_blink);

    let settings = settings_from(
        "scroll_lines = 5\ncopy_on_select = true\ncursor_shape = \"beam\"\ncursor_blink = true",
    )
    .unwrap();
    assert!(settings.validate(&Vec::new()).is_ok());
    let options = settings.terminal_options();
    assert_eq!(options.scroll_lines, 5);
    assert!(options.copy_on_select);
    assert_eq!(options.cursor_shape, CursorShapeSetting::Beam);
    assert!(options.cursor_blink);

    let settings = settings_from("scroll_lines = 0").unwrap();
    assert!(settings
        .validate(&Vec::new())
        .unwrap_err()
        .contains("scroll_lines"));
    assert!(settings_from("cursor_shape = \"circle\"").is_err());
}

#[test]
fn cursor_shape_round_trips_through_combo_index() {
    for shape in [
        CursorShapeSetting::Block,
        CursorShapeSetting::Underline,
        CursorShapeSetting::Beam,
    ] {
        assert_eq!(CursorShapeSetting::from_index(shape.index()), shape);
    }
    assert_eq!(CursorShapeSetting::from_index(-1), CursorShapeSetting::Block);
}

#[test]
fn empty_font_families_are_rejected() {
    let mut settings = AppSettings::defaults();
    settings.font_family = "  ".to_owned();
    assert_eq!(
        settings.validate(&Vec::new()).unwrap_err(),
        "字段 font_family 不能为空"
    );
}

#[test]
fn normalizing_clamps_the_numbers() {
    let mut settings = AppSettings::defaults();
    settings.font_size = 99;
    settings.scrollback_lines = 1_000_000;
    settings.scroll_lines = 0;
    settings.font_family = " Hack ".to_owned();
    settings.normalize(&Vec::new());
    assert_eq!(settings.font_size, 36);
    assert_eq!(settings.scrollback_lines, 100_000);
    assert_eq!(settings.scroll_lines, 1);
    assert_eq!(settings.font_family, "Hack");
}

#[test]
fn ssh_ports_have_a_default() {
    assert_eq!(default_ssh_port(), 22);
    assert!(is_default_ssh_port(&22));
    assert!(!is_default_ssh_port(&23));
    assert!(ProfileKind::is_local(&ProfileKind::Local));
    assert!(!ProfileKind::is_local(&ProfileKind::Ssh));
}

#[test]
fn environment_parser_accepts_values_containing_equals() {
    let environment = parse_environment("A=one\nTOKEN=a=b=c\n\n").unwrap();
    assert_eq!(environment.get("A"), Some("one"));
    assert_eq!(environment.get("TOKEN"), Some("a=b=c"));
}

#[test]
fn environment_parser_reports_the_invalid_line() {
    let error = parse_environment("A=one\nINVALID").unwrap_err();
    assert!(error.contains("第 2 行"));
}

#[test]
fn environment_parser_reports_bad_names() {
    assert_eq!(
        parse_environment("\n =one").unwrap_err(),
        "错误：环境变量第 2 行名称无效"
    );
    assert_eq!(validate_environment_key("").unwrap_err(), "名称不能为空");
    assert_eq!(validate_environment_key("A=B").unwrap_err(), "A=B");
    assert!(validate_environment_key("PATH").is_ok());
}

#[test]
fn later_variables_replace_earlier_ones() {
    let environment = parse_environment("A=one\nB=two\nA = three ").unwrap();
    assert_eq!(environment.len(), 2);
    assert_eq!(environment.name(0), "A");
    assert_eq!(environment.value(0), "three");
    assert_eq!(environment.get("C"), None);
}

#[test]
fn external_profile_rejects_a_relative_program() {
    let mut settings = AppSettings::defaults();
    settings.profiles.push(ShellProfile {
        id: 1,
        name: "Broken".to_owned(),
        program: "relative-shell".to_owned(),
        ..ShellProfile::empty()
    });
    assert!(validate_profiles(&settings, &vec![NO_FILES])
        .unwrap_err()
        .contains("完整路径"));
}

#[test]
fn external_profile_rejects_a_relative_working_directory() {
    let mut settings = AppSettings::defaults();
    settings.profiles.push(ShellProfile {
        id: 1,
        name: "Broken".to_owned(),
        program: "/bin/sh".to_owned(),
        working_directory: Some("relative-directory".to_owned()),
        ..ShellProfile::empty()
    });
    assert!(validate_profiles(&settings, &vec![ALL_FILES])
        .unwrap_err()
        .contains("工作目录必须是完整路径"));
}

#[test]
fn relative_paths_are_refused() {
    for path in ["bash", "bin/bash", "./bash", "../bin/bash", " \"bin/bash\" "] {
        let mut settings = AppSettings::defaults();
        settings.profiles.push(local_profile(1, "Shell", path));
        assert!(validate_profiles(&settings, &vec![ALL_FILES])
            .unwrap_err()
            .contains("完整路径"));
        settings.profiles[0].program = "/bin/sh".to_owned();
        settings.profiles[0].working_directory = Some(path.to_owned());
        assert!(validate_profiles(&settings, &vec![ALL_FILES])
            .unwrap_err()
            .contains("工作目录必须是完整路径"));
    }
}

#[test]
fn variables_are_set_once() {
    let mut environment = Environment::new();
    environment.insert("A".to_owned(), "1".to_owned());
    environment.insert("B".to_owned(), "2".to_owned());
    environment.insert("A".to_owned(), "3".to_owned());
    let copy = environment.copy();
    assert_eq!(copy.len(), 2);
    assert_eq!((copy.name(0), copy.value(0)), ("A", "3"));
    assert_eq!((copy.name(1), copy.value(1)), ("B", "2"));
}

#[test]
fn external_profiles_are_checked() {
    let mut settings = AppSettings::defaults();
    settings.profiles.push(local_profile(1, "Shell", "/bin/sh"));
    assert!(validate_profiles(&settings, &vec![ALL_FILES]).is_ok());
    assert!(validate_profiles(&settings, &vec![NO_FILES])
        .unwrap_err()
        .contains("找不到 Shell 可执行文件"));
    settings.profiles.push(local_profile(1, "Again", "/bin/sh"));
    assert!(validate_profiles(&settings, &vec![ALL_FILES, ALL_FILES]).is_err());
    settings.profiles[1].id = 2;
    settings.default_profile_id = Some(3);
    assert!(validate_profiles(&settings, &vec![ALL_FILES, ALL_FILES]).is_err());
    settings.default_profile_id = Some(2);
    assert!(validate_profiles(&settings, &vec![ALL_FILES, ALL_FILES]).is_ok());
    settings.profiles[0].id = 0;
    assert!(validate_profiles(&settings, &vec![ALL_FILES, ALL_FILES]).is_err());
}

#[test]
fn invalid_external_profile_is_rejected() {
    let mut settings = AppSettings::defaults();
    settings.profiles.push(ShellProfile {
        id: 1,
        name: "Broken".to_owned(),
        program: "relative-shell".to_owned(),
        ..ShellProfile::empty()
    });
    assert!(accept(settings, &vec![NO_FILES], &Vec::new())
        .unwrap_err()
        .contains("完整路径"));
}

#[test]
fn accepted_settings_are_normalized() {
    let mut settings = AppSettings::defaults();
    settings.profiles.push(local_profile(4, " Shell ", "/bin/sh"));
    settings.font_family = " Hack".to_owned();
    let accepted = accept(settings, &vec![ALL_FILES], &Vec::new()).unwrap();
    assert_eq!(accepted.font_family, "Hack");
    assert_eq!(accepted.default_profile_id, None);
    assert_eq!(accepted.next_profile_id, 5);
}

#[test]
fn accepted_settings_stay_accepted() {
    let mut settings = AppSettings::defaults();
    let mut profile = local_profile(4, " Shell ", " \"/bin/sh\" ");
    profile.arguments = vec!["-l".to_owned(), "  ".to_owned()];
    settings.profiles.push(profile);
    settings.default_profile_id = Some(4);
    settings.font_family = " Hack".to_owned();
    let once = accept(settings, &vec![ALL_FILES], &Vec::new()).unwrap();
    assert_eq!(once.profiles[0].program, "/bin/sh");
    assert_eq!(once.profiles[0].arguments, vec!["-l"]);
    let shown = format!("{once:?}");
    let twice = accept(once, &vec![ALL_FILES], &Vec::new()).unwrap();
    assert_eq!(format!("{twice:?}"), shown);
}

#[test]
fn generated_settings_are_accepted() {
    let found = vec![shell("sh", "/bin/sh", true), shell("bash", "/bin/bash", true)];
    let made = AppSettings::built_in_defaults(&found);
    assert_eq!(made.profiles.len(), 2);
    assert_eq!(made.default_profile_id, Some(1));
    let shown = format!("{made:?}");
    let read = accept(made, &vec![ALL_FILES, ALL_FILES], &Vec::new()).unwrap();
    assert_eq!(format!("{read:?}"), shown);
}

#[test]
fn builds_an_ssh_profile_without_local_shell_fields() {
    let profile = build_profile(
        -1,
        "Production",
        1,
        "",
        "-A\n-J\njump-host",
        "",
        "",
        "example.com",
        "deploy",
        2222,
        "",
        "secret",
        NO_FILES,
    )
    .unwrap();
    assert_eq!(profile.kind, ProfileKind::Ssh);
    assert_eq!(profile.ssh_host, "example.com");
    assert_eq!(profile.ssh_user, "deploy");
    assert_eq!(profile.ssh_port, 2222);
    assert_eq!(profile.arguments, ["-A", "-J", "jump-host"]);
    assert_eq!(profile.ssh_password, "secret");
    assert!(profile.program.is_empty());
    assert!(profile.environment.is_empty());
}

#[test]
fn ssh_profile_rejects_an_option_shaped_host() {
    let error = build_profile(
        -1, "Bad", 1, "", "", "", "", "-V", "", 22, "", "", NO_FILES,
    )
    .unwrap_err();
    assert!(error.contains("不能以 - 开头"));
}

#[test]
fn ssh_profile_rejects_a_multiline_password() {
    let error = build_profile(
        -1,
        "Bad password",
        1,
        "",
        "",
        "",
        "",
        "example.com",
        "deploy",
        22,
        "",
        "first\nsecond",
        NO_FILES,
    )
    .unwrap_err();
    assert!(error.contains("换行符"));
}

#[test]
fn forms_are_checked() {
    let form = |name: &str, kind: i32| {
        build_profile(
            1, name, kind, "/bin/sh", "", "", "", "", "", 22, "", "", ALL_FILES,
        )
    };
    assert_eq!(form(" ", 0).unwrap_err(), "错误：Profile 名称不能为空");
    assert_eq!(form("Shell", 2).unwrap_err(), "错误：Profile 类型无效");
    assert_eq!(form("Shell", 0).unwrap().program, "/bin/sh");
}

#[test]
fn forms_give_profiles_back() {
    let mut environment = Environment::new();
    environment.insert("A".to_owned(), "one=two".to_owned());
    environment.insert("B".to_owned(), "".to_owned());
    let profile = ShellProfile {
        arguments: vec!["-l".to_owned(), "two words".to_owned()],
        working_directory: Some("/tmp".to_owned()),
        environment,
        ..local_profile(7, "Shell", "/bin/sh")
    };
    let draft = sync_profile_draft(Some(&profile));
    assert_eq!(draft.arguments, "-l\ntwo words");
    assert_eq!(draft.environment, "A=one=two\nB=");
    let rebuilt = build_profile(
        draft.id,
        &draft.name,
        draft.kind_index,
        &draft.program,
        &draft.arguments,
        &draft.working_directory,
        &draft.environment,
        &draft.ssh_host,
        &draft.ssh_user,
        draft.ssh_port,
        &draft.ssh_identity_file,
        &draft.ssh_password,
        ALL_FILES,
    )
    .unwrap();
    assert_eq!(rebuilt, profile);
}

#[test]
fn empty_drafts_stand_for_new_profiles() {
    let draft = sync_profile_draft(None);
    assert_eq!(draft.id, -1);
    assert_eq!(draft.ssh_port, 22);
    assert_eq!(draft.name, "");
}

#[test]
fn parts_of_profiles_are_checked() {
    assert_eq!(validate_program(" \"/bin/sh\" ", GOOD).unwrap(), "/bin/sh");
    assert_eq!(
        validate_program("", GOOD).unwrap_err(),
        "错误：Shell 程序路径不能为空"
    );
    assert_eq!(validate_working_directory(" ", GOOD), Ok(None));
    assert_eq!(
        validate_working_directory("/tmp", PathFact { exists: false, ..GOOD }).unwrap_err(),
        "错误：工作目录不存在：/tmp"
    );
    assert_eq!(
        validate_identity_file("key", PathFact { absolute: false, ..GOOD }).unwrap_err(),
        "错误：SSH 私钥文件必须是完整路径"
    );
    assert_eq!(
        validate_identity_file("/key", PathFact { exists: false, ..GOOD }).unwrap_err(),
        "错误：找不到 SSH 私钥文件：/key"
    );
    assert_eq!(validate_ssh_host(" host ").unwrap(), "host");
    assert_eq!(
        validate_ssh_host("two words").unwrap_err(),
        "错误：SSH 主机不能包含空白或控制字符"
    );
    assert_eq!(validate_ssh_host("").unwrap_err(), "错误：SSH 主机不能为空");
    assert_eq!(validate_ssh_user("").unwrap(), "");
    assert_eq!(
        validate_ssh_user("a@b").unwrap_err(),
        "错误：SSH 用户名不能包含 @"
    );
    assert_eq!(
        validate_ssh_user("-a").unwrap_err(),
        "错误：SSH 用户名不能以 - 开头"
    );
    assert_eq!(
        validate_ssh_user("a b").unwrap_err(),
        "错误：SSH 用户名不能包含空白或控制字符"
    );
    assert_eq!(validate_ssh_port(65535), Ok(65535));
    assert!(validate_ssh_port(0).is_err());
    assert!(validate_ssh_port(65536).is_err());
    assert_eq!(validate_ssh_password("a b").unwrap(), "a b");
    assert!(validate_ssh_password("a\0b").is_err());
    assert_eq!(parse_arguments(" -a \n\n b c "), vec!["-a", "b c"]);
    assert_eq!(error_without_prefix("错误：坏"), "坏");
    assert_eq!(error_without_prefix("坏"), "坏");
}

#[test]
fn programs_name_their_profiles() {
    assert_eq!(profile_name_from_program("/usr/bin/fish.exe"), "fish");
    assert_eq!(profile_name_from_program(""), "Shell");
    assert_eq!(profile_name_from_program("pwsh.exe"), "pwsh");
    assert_eq!(profile_name_from_program("tool.v2.bin"), "tool.v2");
    assert_eq!(profile_name_from_program(".shell"), ".shell");
    assert_eq!(profile_name_from_program("bash"), "bash");
    assert_eq!(profile_name_from_program("/bin/bash"), "bash");
    assert_eq!(profile_name_from_program("/opt/tool.d/.shell"), ".shell");
    assert_eq!(profile_name_from_program("bin//zsh.5"), "zsh");
}

#[test]
fn found_shells_are_files_and_listed_once() {
    let shells = detected_profiles(vec![
        shell("One", "/bin/ONE", true),
        shell("Two", "/bin/two", false),
        shell("Again", "/bin/one", true),
    ]);
    let names: Vec<&str> = shells.iter().map(|shell| shell.name.as_str()).collect();
    assert_eq!(names, vec!["One"]);
}

#[test]
fn first_starts_list_the_found_shells() {
    let settings = AppSettings::built_in_defaults(&vec![
        shell("Bash", "/bin/bash", true),
        shell("Fish", "/bin/fish", true),
    ]);
    let ids: Vec<i32> = settings.profiles.iter().map(|profile| profile.id).collect();
    assert_eq!(ids, vec![1, 2]);
    assert_eq!(settings.default_profile().unwrap().name, "Bash");
    assert_eq!(settings.next_profile_id, 3);
    assert_eq!(settings.profiles[1].arguments, vec!["-l"]);
}

#[test]
fn older_settings_list_shells_by_their_paths() {
    let mut settings = AppSettings::defaults();
    settings.shells = vec!["/bin/zsh".to_owned(), "/bin/fish".to_owned()];
    settings.default_shell = Some("/bin/fish".to_owned());
    settings.normalize(&Vec::new());
    let names: Vec<&str> = settings
        .profiles
        .iter()
        .map(|profile| profile.name.as_str())
        .collect();
    assert_eq!(names, vec!["zsh", "fish"]);
    assert_eq!(settings.default_profile().unwrap().name, "fish");
    assert!(settings.shells.is_empty());
}

#[test]
fn ids_are_given_out_once() {
    let mut settings = AppSettings::defaults();
    assert_eq!(settings.allocate_profile_id(), 1);
    assert_eq!(settings.allocate_profile_id(), 2);
    settings.profiles.push(local_profile(2, "Shell", "/bin/sh"));
    settings.profile_mut(2).unwrap().name = "Other".to_owned();
    assert_eq!(settings.profile(2).unwrap().name, "Other");
    assert!(settings.profile_mut(9).is_none());
    assert!(settings.default_profile().is_none());
}

#[test]
fn saved_profiles_are_found() {
    let settings = AppSettings::defaults();
    let (settings, id) = save_profile(&settings, local_profile(0, "One", "/bin/one"), -1);
    assert_eq!(id, 1);
    assert_eq!(settings.default_profile_id, Some(1));
    let (settings, other) = save_profile(&settings, local_profile(0, "Two", "/bin/two"), -1);
    assert_eq!(other, 2);
    assert_eq!(settings.default_profile_id, Some(1));
    let (settings, same) = save_profile(&settings, local_profile(0, "New", "/bin/new"), 1);
    assert_eq!(same, 1);
    assert_eq!(settings.profile(1).unwrap().name, "New");
    assert_eq!(settings.profile(2).unwrap().name, "Two");
    assert_eq!(settings.profiles.len(), 2);
}

#[test]
fn removed_profiles_are_gone() {
    let settings = AppSettings::defaults();
    let (settings, _) = save_profile(&settings, local_profile(0, "One", "/bin/one"), -1);
    let (settings, _) = save_profile(&settings, local_profile(0, "Two", "/bin/two"), -1);
    let settings = remove_profile(&settings, 1);
    assert!(settings.profile(1).is_none());
    assert_eq!(settings.default_profile_id, Some(2));
    assert_eq!(profile_after_removal(&settings).unwrap().name, "Two");
    let settings = remove_profile(&settings, 2);
    assert_eq!(settings.default_profile_id, None);
    assert!(profile_after_removal(&settings).is_none());
}

#[test]
fn default_profiles_have_to_exist() {
    let settings = AppSettings::defaults();
    let (settings, id) = save_profile(&settings, local_profile(0, "One", "/bin/one"), -1);
    assert_eq!(
        set_default_profile(&settings, id).unwrap().default_profile_id,
        Some(id)
    );
    assert!(set_default_profile(&settings, 9).is_none());
}

#[test]
fn fonts_come_from_the_list() {
    let settings = AppSettings::defaults();
    let fonts = vec!["Hack".to_owned(), "Fira".to_owned()];
    let chosen = save_font(&settings, &fonts, 1, 99).unwrap();
    assert_eq!(chosen.font_family, "Fira");
    assert_eq!(chosen.font_size, 36);
    let first = save_font(&settings, &fonts, -1, 2).unwrap();
    assert_eq!(first.font_family, "Hack");
    assert_eq!(first.font_size, 8);
    assert_eq!(
        save_font(&settings, &fonts, 2, 12).unwrap_err(),
        "错误：请选择有效的等宽字体"
    );
}

#[test]
fn shortcuts_are_saved_into_a_copy() {
    let settings = AppSettings::defaults();
    let changed = save_shortcut(&settings, "copy", "Alt+X", true).unwrap();
    assert_eq!(changed.shortcuts[0].shortcut, "Alt+X");
    assert_eq!(settings.shortcuts[0].shortcut, "Ctrl+C");
    assert!(save_shortcut(&settings, "copy", "Ctrl+V", true).is_err());
}

#[test]
fn wrong_files_are_not_overwritten() {
    assert!(ensure_settings_writable(true).is_ok());
    assert_eq!(
        ensure_settings_writable(false).unwrap_err(),
        "错误：settings.toml 当前无效，请先修改配置文件；应用不会覆盖该文件。"
    );
    assert_eq!(save_message(Ok(()), "Profile 已保存。").text, "Profile 已保存。");
    let failed = save_message(Err("disk".to_owned()), "Profile 已保存。");
    assert!(failed.error);
    assert_eq!(failed.text, "错误：保存设置失败：disk");
}

#[test]
fn starts_follow_the_settings_file() {
    let found = vec![shell("Bash", "/bin/bash", true)];
    let missing = load_or_create(LoadOutcome::NoDirectory, &found);
    assert!(!missing.writable);
    assert_eq!(missing.settings.profiles.len(), 1);
    assert_eq!(
        missing.error.unwrap(),
        "无法确定用户配置目录，当前使用内置默认设置。"
    );
    let created = load_or_create(LoadOutcome::Created(Ok(())), &found);
    assert!(created.writable && created.error.is_none());
    let unwritten = load_or_create(LoadOutcome::Created(Err("disk".to_owned())), &found);
    assert_eq!(
        unwritten.error.unwrap(),
        "无法生成设置文件：disk。当前使用内置默认设置。"
    );
    let unreadable = load_or_create(LoadOutcome::Unreadable("disk".to_owned()), &found);
    assert_eq!(
        unreadable.error.unwrap(),
        "无法读取设置文件：disk。当前使用内置默认设置。"
    );
    let wrong = load_or_create(LoadOutcome::Read(Err("bad".to_owned())), &found);
    assert_eq!(
        wrong.error.unwrap(),
        "设置文件错误：bad。当前使用内置默认设置，请修正 settings.toml。"
    );
    let mut own = AppSettings::defaults();
    own.font_size = 20;
    let read = load_or_create(LoadOutcome::Read(Ok(own)), &found);
    assert!(read.writable);
    assert_eq!(read.settings.font_size, 20);
}

#[test]
fn settings_are_saved_where_there_is_a_place() {
    assert_eq!(save(Some("/x".to_owned())), Ok("/x".to_owned()));
    assert_eq!(save(None), Err("无法确定用户配置目录".to_owned()));
    let settings = AppSettings::defaults();
    assert_eq!(settings.save(Some("/x".to_owned())), Ok("/x".to_owned()));
    assert!(settings.save(None).is_err());
}

#[test]
fn unchanged_files_are_reported_once() {
    let contents = |text: &str| Some(FileSnapshot::Contents(text.to_owned()));
    let mut watcher = SettingsWatcher::new(contents("a"));
    assert_eq!(watcher.poll(contents("a")), None);
    assert_eq!(watcher.poll(contents("b")), contents("b"));
    assert_eq!(watcher.poll(contents("b")), None);
    let error = Some(FileSnapshot::Error("b".to_owned()));
    assert_eq!(watcher.poll(Some(FileSnapshot::Error("b".to_owned()))), error);
    assert_eq!(watcher.poll(None), None);
}

#[test]
fn reloads_say_what_changed() {
    let current = AppSettings::defaults();
    let mut next = AppSettings::defaults();
    next.font_size = 20;
    let result = reload(&current, Ok(next), &Vec::new());
    assert!(result.font_changed && !result.error);
    assert_eq!(result.message, "settings.toml 已重新加载。");
    let failed = reload(&current, Err("bad".to_owned()), &Vec::new());
    assert!(failed.error && !failed.font_changed);
    assert!(failed.message.contains("bad"));
    assert_eq!(failed.settings.font_size, 15);
}

#[test]
fn selected_profiles_stay_selected() {
    let settings = AppSettings::defaults();
    let (settings, _) = save_profile(&settings, local_profile(0, "One", "/bin/one"), -1);
    let (settings, _) = save_profile(&settings, local_profile(0, "Two", "/bin/two"), -1);
    assert_eq!(profile_to_show(&settings, 2).unwrap().name, "Two");
    assert_eq!(profile_to_show(&settings, 9).unwrap().name, "One");
}

#[test]
fn settings_pages_show_the_settings() {
    let mut settings = AppSettings::defaults();
    settings.profiles.push(local_profile(3, "Shell", "/bin/sh"));
    settings.default_profile_id = Some(3);
    settings.font_family = "hack".to_owned();
    settings.shortcuts[0].action = "fly".to_owned();
    let fonts = vec!["Fira".to_owned(), "Hack".to_owned()];
    let page = sync_settings_ui(&settings, &fonts);
    assert_eq!(page.terminal.font_index, 1);
    assert_eq!(page.terminal.scrollback_lines, 10_000);
    assert_eq!(page.terminal.cursor_shape_index, 0);
    assert!(page.profiles[0].is_default && !page.profiles[0].is_ssh);
    assert_eq!(page.shortcuts.len(), 7);
    assert_eq!(page.shortcuts[0].label, "全选");
}

#[test]
fn limits_of_the_settings_page() {
    let limits = sync_settings_limits();
    assert_eq!(limits.min_font_size, 8);
    assert_eq!(limits.max_font_size, 36);
    assert_eq!(limits.max_scrollback_lines, 100_000);
    assert_eq!(limits.max_scroll_lines, 20);
    assert_eq!(sync_font_metrics(9, u32::MAX), (9, i32::MAX));
}

#[test]
fn font_families_are_listed_once() {
    let families = mono_font_families(&vec![
        "Hack".to_owned(),
        "hack".to_owned(),
        "Fira".to_owned(),
    ]);
    assert_eq!(families, vec!["Cascadia Mono", "Fira", "Hack", "hack"]);
}

#[test]
fn monospace_families_are_in_order_and_listed_once() {
    let face = |monospaced: bool, families: &[&str]| FontFace {
        monospaced,
        families: families.iter().map(|&name| name.to_owned()).collect(),
    };
    let families = monospace_families(&vec![
        face(true, &["Hack", "Hack Nerd"]),
        face(false, &["Arial"]),
        face(true, &["Fira Code"]),
        face(true, &["Hack"]),
        face(true, &[]),
    ]);
    assert_eq!(families, vec!["Fira Code", "Hack"]);
}
