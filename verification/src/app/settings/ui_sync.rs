//! What the settings page shows.

use vstd::prelude::*;
use vstd::string::*;
use crate::app::sessions;
use crate::app::settings;
use crate::app::settings::environment;
use crate::app::settings::environment::Environment;
use crate::app::settings::profiles;
use crate::app::settings::profiles::PathFacts;
use crate::app::settings::shortcuts;
use crate::app::settings::{
    AppSettings,
    ProfileKind,
    ProfileView,
    SettingsView,
    ShellProfile,
    ShortcutView,
    MAX_FONT_SIZE,
    MAX_SCROLLBACK_LINES,
    MAX_SCROLL_LINES,
    MIN_FONT_SIZE,
};
use crate::text;

verus! {

/// The limits of the numbers on the settings page.
#[derive(Clone, Copy, Debug, PartialEq, Eq, Structural)]
pub struct SettingsLimits {
    pub min_font_size: i32,
    pub max_font_size: i32,
    pub max_scrollback_lines: i32,
    pub max_scroll_lines: i32,
}

/// The limits of the numbers on the settings page: those that settings are
/// checked against.
pub fn sync_settings_limits() -> (limits: SettingsLimits)
    ensures
        limits.min_font_size == MIN_FONT_SIZE,
        limits.max_font_size == MAX_FONT_SIZE,
        limits.max_scrollback_lines == MAX_SCROLLBACK_LINES,
        limits.max_scroll_lines == MAX_SCROLL_LINES,
{
    SettingsLimits {
        min_font_size: MIN_FONT_SIZE,
        max_font_size: MAX_FONT_SIZE,
        max_scrollback_lines: MAX_SCROLLBACK_LINES as i32,
        max_scroll_lines: MAX_SCROLL_LINES as i32,
    }
}

/// The size of a cell in pixels, as far as the user interface can hold it.
pub fn sync_font_metrics(width: u32, height: u32) -> (size: (i32, i32))
    ensures
        size.0 == sessions::ui_number(width as int),
        size.1 == sessions::ui_number(height as int),
{
    let width: i32 = if width > 0x7fff_ffff {
        0x7fff_ffff
    } else {
        width as i32
    };
    let height: i32 = if height > 0x7fff_ffff {
        0x7fff_ffff
    } else {
        height as i32
    };
    (width, height)
}

/// A profile in the list of the settings page.
#[derive(Debug, PartialEq, Eq)]
pub struct ShellProfileData {
    pub id: i32,
    pub name: String,
    pub program: String,
    pub is_ssh: bool,
    pub is_default: bool,
}

/// What a `ShellProfileData` holds.
#[verifier::ext_equal]
pub struct ProfileItem {
    pub id: int,
    pub name: Seq<char>,
    pub program: Seq<char>,
    pub is_ssh: bool,
    pub is_default: bool,
}

impl View for ShellProfileData {
    type V = ProfileItem;

    open spec fn view(&self) -> ProfileItem {
        ProfileItem {
            id: self.id as int,
            name: self.name@,
            program: self.program@,
            is_ssh: self.is_ssh,
            is_default: self.is_default,
        }
    }
}

/// What a list of profiles holds.
pub open spec fn profile_items(items: Seq<ShellProfileData>) -> Seq<ProfileItem> {
    items.map_values(|item: ShellProfileData| item@)
}

/// How a profile is listed.
pub open spec fn item_of(profile: ProfileView, default_profile_id: Option<i32>) -> ProfileItem {
    ProfileItem {
        id: profile.id,
        name: profile.name,
        program: profile.program,
        is_ssh: profile.kind == ProfileKind::Ssh,
        is_default: default_profile_id is Some && default_profile_id->0 == profile.id,
    }
}

/// How the profiles are listed.
pub open spec fn items_of(current: SettingsView) -> Seq<ProfileItem> {
    current.profiles.map_values(
        |profile: ProfileView| item_of(profile, current.default_profile_id),
    )
}

/// A shortcut in the list of the settings page.
#[derive(Debug, PartialEq, Eq)]
pub struct ShortcutData {
    pub action: String,
    pub label: String,
    pub shortcut: String,
    pub pass_through: bool,
}

/// What a `ShortcutData` holds.
#[verifier::ext_equal]
pub struct ShortcutItem {
    pub action: Seq<char>,
    pub label: Seq<char>,
    pub shortcut: Seq<char>,
    pub pass_through: bool,
}

impl View for ShortcutData {
    type V = ShortcutItem;

    open spec fn view(&self) -> ShortcutItem {
        ShortcutItem {
            action: self.action@,
            label: self.label@,
            shortcut: self.shortcut@,
            pass_through: self.pass_through,
        }
    }
}

/// What a list of shortcuts holds.
pub open spec fn shortcut_items(items: Seq<ShortcutData>) -> Seq<ShortcutItem> {
    items.map_values(|item: ShortcutData| item@)
}

/// How the shortcuts are listed; those of unknown actions are left out.
pub open spec fn labelled(list: Seq<ShortcutView>) -> Seq<ShortcutItem>
    decreases list.len(),
{
    if list.len() == 0 {
        Seq::empty()
    } else {
        let before = labelled(list.drop_last());
        let setting = list.last();
        match shortcuts::label_of(setting.action) {
            Some(label) => before.push(
                ShortcutItem {
                    action: setting.action,
                    label,
                    shortcut: setting.shortcut,
                    pass_through: setting.pass_through,
                },
            ),
            None => before,
        }
    }
}

/// Where a font stands in a list, whatever the case of its letters, or the
/// number of fonts.
pub open spec fn place_of_font(fonts: Seq<Seq<char>>, family: Seq<char>) -> int
    decreases fonts.len(),
{
    if fonts.len() == 0 || text::same_ignoring_case(fonts.first(), family) {
        0
    } else {
        1 + place_of_font(fonts.drop_first(), family)
    }
}

/// The font that is chosen in the list: the first one where the settings have
/// one that is not there.
pub open spec fn chosen_font(fonts: Seq<Seq<char>>, family: Seq<char>) -> int {
    let place = place_of_font(fonts, family);
    if place < fonts.len() {
        place
    } else {
        0
    }
}

/// The terminal settings on the settings page.
#[derive(Clone, Copy, Debug, PartialEq, Eq, Structural)]
pub struct TerminalSettingsData {
    pub font_index: i32,
    pub font_size: i32,
    pub scrollback_lines: i32,
    pub scroll_lines: i32,
    pub cursor_shape_index: i32,
    pub cursor_blink: bool,
    pub copy_on_select: bool,
    pub right_click_paste: bool,
}

/// The settings page.
#[derive(Debug)]
pub struct SettingsUi {
    pub profiles: Vec<ShellProfileData>,
    pub shortcuts: Vec<ShortcutData>,
    pub terminal: TerminalSettingsData,
}

fn list_profiles(current: &AppSettings) -> (items: Vec<ShellProfileData>)
    ensures
        profile_items(items@) == items_of(current@),
{
    let ghost all = items_of(current@);
    let mut items: Vec<ShellProfileData> = Vec::new();
    let mut index: usize = 0;
    assert(profile_items(items@) == all.take(0));
    while index < current.profiles.len()
        invariant
            index <= current.profiles@.len(),
            all == items_of(current@),
            profile_items(items@) == all.take(index as int),
        decreases current.profiles.len() - index,
    {
        let ghost before = profile_items(items@);
        let profile: &ShellProfile = &current.profiles[index];
        let is_default = match current.default_profile_id {
            Some(id) => id == profile.id,
            None => false,
        };
        let item = ShellProfileData {
            id: profile.id,
            name: profile.name.clone(),
            program: profile.program.clone(),
            is_ssh: profile.kind == ProfileKind::Ssh,
            is_default,
        };
        let ghost view = item@;
        proof {
            assert(current@.profiles[index as int] == profile@);
            assert(view =~= item_of(profile@, current@.default_profile_id));
            assert(all[index as int] == view);
        }
        items.push(item);
        assert(profile_items(items@) == before.push(view));
        assert(all.take(index + 1) == all.take(index as int).push(all[index as int]));
        index += 1;
    }
    assert(all.take(index as int) == all);
    items
}

fn list_shortcuts(current: &AppSettings) -> (items: Vec<ShortcutData>)
    ensures
        shortcut_items(items@) == labelled(current@.shortcuts),
{
    let ghost all = current@.shortcuts;
    let mut items: Vec<ShortcutData> = Vec::new();
    let mut index: usize = 0;
    assert(shortcut_items(items@) == labelled(all.take(0)));
    while index < current.shortcuts.len()
        invariant
            index <= current.shortcuts@.len(),
            all == settings::shortcut_views(current.shortcuts@),
            shortcut_items(items@) == labelled(all.take(index as int)),
        decreases current.shortcuts.len() - index,
    {
        let ghost before = shortcut_items(items@);
        proof {
            assert(all.take(index + 1).drop_last() == all.take(index as int));
            assert(all.take(index + 1).last() == current.shortcuts@[index as int]@);
        }
        if let Some(label) = shortcuts::shortcut_label(current.shortcuts[index].action.as_str()) {
            let item = ShortcutData {
                action: current.shortcuts[index].action.clone(),
                label: label.to_owned(),
                shortcut: current.shortcuts[index].shortcut.clone(),
                pass_through: current.shortcuts[index].pass_through,
            };
            let ghost view = item@;
            items.push(item);
            assert(shortcut_items(items@) == before.push(view));
        }
        index += 1;
    }
    assert(all.take(index as int) == all);
    items
}

fn font_place(fonts: &Vec<String>, family: &str) -> (place: usize)
    ensures
        place == chosen_font(text::texts(fonts@), family@),
{
    let ghost all = text::texts(fonts@);
    let mut index: usize = 0;
    assert(all.skip(0) == all);
    while index < fonts.len() && !text::eq_ignore_ascii_case(fonts[index].as_str(), family)
        invariant
            index <= fonts@.len(),
            all == text::texts(fonts@),
            place_of_font(all, family@) == index + place_of_font(all.skip(index as int), family@),
        decreases fonts.len() - index,
    {
        assert(all.skip(index as int).drop_first() == all.skip(index + 1));
        assert(all.skip(index as int).first() == fonts@[index as int]@);
        index += 1;
    }
    assert(index < fonts@.len() ==> all.skip(index as int).first() == fonts@[index as int]@);
    if index < fonts.len() {
        index
    } else {
        0
    }
}

/// What the settings page shows of the settings, given the fonts that it lists.
/// The numbers have to be within their limits, as in checked settings.
pub fn sync_settings_ui(current: &AppSettings, mono_fonts: &Vec<String>) -> (page: SettingsUi)
    requires
        current.scrollback_lines <= MAX_SCROLLBACK_LINES,
        current.scroll_lines <= MAX_SCROLL_LINES,
    ensures
        profile_items(page.profiles@) == items_of(current@),
        shortcut_items(page.shortcuts@) == labelled(current@.shortcuts),
        page.terminal.font_index == sessions::ui_number(
            chosen_font(text::texts(mono_fonts@), current@.font_family),
        ),
        page.terminal.font_size == current@.font_size,
        page.terminal.scrollback_lines == current@.scrollback_lines,
        page.terminal.scroll_lines == current@.scroll_lines,
        page.terminal.cursor_shape_index == current@.cursor_shape.place(),
        page.terminal.cursor_blink == current@.cursor_blink,
        page.terminal.copy_on_select == current@.copy_on_select,
        page.terminal.right_click_paste == current@.right_click_paste,
{
    let place = font_place(mono_fonts, current.font_family.as_str());
    SettingsUi {
        profiles: list_profiles(current),
        shortcuts: list_shortcuts(current),
        terminal: TerminalSettingsData {
            font_index: sessions::to_ui_number(place),
            font_size: current.font_size,
            scrollback_lines: current.scrollback_lines as i32,
            scroll_lines: current.scroll_lines as i32,
            cursor_shape_index: current.cursor_shape.index(),
            cursor_blink: current.cursor_blink,
            copy_on_select: current.copy_on_select,
            right_click_paste: current.right_click_paste,
        },
    }
}

/// The form of a profile.
#[derive(Debug, PartialEq, Eq)]
pub struct ProfileDraft {
    pub id: i32,
    pub name: String,
    pub kind_index: i32,
    pub program: String,
    pub arguments: String,
    pub working_directory: String,
    pub environment: String,
    pub ssh_host: String,
    pub ssh_user: String,
    pub ssh_port: i32,
    pub ssh_identity_file: String,
    pub ssh_password: String,
}

/// What a `ProfileDraft` holds.
#[verifier::ext_equal]
pub struct DraftView {
    pub id: int,
    pub name: Seq<char>,
    pub kind_index: int,
    pub program: Seq<char>,
    pub arguments: Seq<char>,
    pub working_directory: Seq<char>,
    pub environment: Seq<char>,
    pub ssh_host: Seq<char>,
    pub ssh_user: Seq<char>,
    pub ssh_port: int,
    pub ssh_identity_file: Seq<char>,
    pub ssh_password: Seq<char>,
}

impl View for ProfileDraft {
    type V = DraftView;

    open spec fn view(&self) -> DraftView {
        DraftView {
            id: self.id as int,
            name: self.name@,
            kind_index: self.kind_index as int,
            program: self.program@,
            arguments: self.arguments@,
            working_directory: self.working_directory@,
            environment: self.environment@,
            ssh_host: self.ssh_host@,
            ssh_user: self.ssh_user@,
            ssh_port: self.ssh_port as int,
            ssh_identity_file: self.ssh_identity_file@,
            ssh_password: self.ssh_password@,
        }
    }
}

/// The form without a profile.
pub open spec fn empty_draft() -> DraftView {
    DraftView {
        id: -1,
        name: Seq::empty(),
        kind_index: 0,
        program: Seq::empty(),
        arguments: Seq::empty(),
        working_directory: Seq::empty(),
        environment: Seq::empty(),
        ssh_host: Seq::empty(),
        ssh_user: Seq::empty(),
        ssh_port: 22,
        ssh_identity_file: Seq::empty(),
        ssh_password: Seq::empty(),
    }
}

/// A text that may be missing, where a missing one is shown as an empty one.
pub open spec fn or_empty(shown: Option<Seq<char>>) -> Seq<char> {
    match shown {
        Some(shown) => shown,
        None => Seq::empty(),
    }
}

/// An environment variable on a line of its own.
pub open spec fn variable_line(variable: (Seq<char>, Seq<char>)) -> Seq<char> {
    variable.0 + "="@ + variable.1
}

/// The environment variables as lines.
pub open spec fn variable_lines(variables: Seq<(Seq<char>, Seq<char>)>) -> Seq<Seq<char>> {
    variables.map_values(|variable: (Seq<char>, Seq<char>)| variable_line(variable))
}

/// The form of a profile.
pub open spec fn draft_of(profile: ProfileView) -> DraftView {
    DraftView {
        id: profile.id,
        name: profile.name,
        kind_index: match profile.kind {
            ProfileKind::Local => 0,
            ProfileKind::Ssh => 1,
        },
        program: profile.program,
        arguments: text::joined(profile.arguments, "\n"@),
        working_directory: or_empty(profile.working_directory),
        environment: text::joined(variable_lines(profile.environment), "\n"@),
        ssh_host: profile.ssh_host,
        ssh_user: profile.ssh_user,
        ssh_port: profile.ssh_port,
        ssh_identity_file: or_empty(profile.ssh_identity_file),
        ssh_password: profile.ssh_password,
    }
}

fn environment_lines(variables: &Environment) -> (lines: Vec<String>)
    ensures
        text::texts(lines@) == variable_lines(variables@),
{
    let ghost all = variable_lines(variables@);
    let mut lines: Vec<String> = Vec::new();
    let mut index: usize = 0;
    assert(text::texts(lines@) == all.take(0));
    while index < variables.len()
        invariant
            index <= variables@.len(),
            all == variable_lines(variables@),
            text::texts(lines@) == all.take(index as int),
        decreases variables@.len() - index,
    {
        let ghost before = text::texts(lines@);
        let line = text::concat3(variables.name(index), "=", variables.value(index));
        let ghost view = line@;
        assert(view == all[index as int]);
        lines.push(line);
        assert(text::texts(lines@) == before.push(view));
        assert(all.take(index + 1) == all.take(index as int).push(all[index as int]));
        index += 1;
    }
    assert(all.take(index as int) == all);
    lines
}

fn shown_or_empty(shown: &Option<String>) -> (result: String)
    ensures
        result@ == or_empty(text::optional(*shown)),
{
    match shown {
        Some(shown) => shown.clone(),
        None => String::new(),
    }
}

/// The form for a profile, or an empty one.
pub fn sync_profile_draft(profile: Option<&ShellProfile>) -> (draft: ProfileDraft)
    ensures
        draft@ == (match profile {
            Some(profile) => draft_of(profile@),
            None => empty_draft(),
        }),
{
    match profile {
        None => {
            let draft = ProfileDraft {
                id: -1,
                name: String::new(),
                kind_index: 0,
                program: String::new(),
                arguments: String::new(),
                working_directory: String::new(),
                environment: String::new(),
                ssh_host: String::new(),
                ssh_user: String::new(),
                ssh_port: 22,
                ssh_identity_file: String::new(),
                ssh_password: String::new(),
            };
            assert(draft@ =~= empty_draft());
            draft
        },
        Some(profile) => {
            let variables = environment_lines(&profile.environment);
            let draft = ProfileDraft {
                id: profile.id,
                name: profile.name.clone(),
                kind_index: match profile.kind {
                    ProfileKind::Local => 0,
                    ProfileKind::Ssh => 1,
                },
                program: profile.program.clone(),
                arguments: text::join(&profile.arguments, "\n"),
                working_directory: shown_or_empty(&profile.working_directory),
                environment: text::join(&variables, "\n"),
                ssh_host: profile.ssh_host.clone(),
                ssh_user: profile.ssh_user.clone(),
                ssh_port: profile.ssh_port as i32,
                ssh_identity_file: shown_or_empty(&profile.ssh_identity_file),
                ssh_password: profile.ssh_password.clone(),
            };
            assert(draft@ =~= draft_of(profile@));
            draft
        },
    }
}

/// Whether a variable can be shown in a form and read back: it fits on a line,
/// and has no white space around its parts.
pub open spec fn formable_variable(variable: (Seq<char>, Seq<char>)) -> bool {
    &&& profiles::checked_key(variable.0) is Ok
    &&& !variable.0.contains('\n')
    &&& !variable.1.contains('\n')
    &&& text::trimmed(variable.0) == variable.0
    &&& text::trimmed(variable.1) == variable.1
}

/// Whether a list of variables can be shown in a form and read back.
pub open spec fn formable_variables(variables: Seq<(Seq<char>, Seq<char>)>) -> bool {
    &&& environment::names_distinct(variables)
    &&& forall|i: int| 0 <= i < variables.len() ==> formable_variable(#[trigger] variables[i])
}

proof fn lemma_first_position(shown: Seq<char>, rest: Seq<char>, wanted: char)
    requires
        !shown.contains(wanted),
    ensures
        text::first_position(shown + seq![wanted] + rest, wanted) == shown.len(),
    decreases shown.len(),
{
    let whole = shown + seq![wanted] + rest;
    if shown.len() > 0 {
        let shorter = shown.drop_first();
        assert(shown.contains(shown[0]));
        assert(whole.first() == shown[0]);
        assert forall|i: int| 0 <= i < shorter.len() implies shorter[i] != wanted by {
            assert(shown.contains(shown[i + 1]));
        }
        lemma_first_position(shorter, rest, wanted);
        assert(whole.drop_first() =~= shorter + seq![wanted] + rest);
    } else {
        assert(whole.first() == wanted);
    }
}

proof fn lemma_line_is_read_back(variable: (Seq<char>, Seq<char>))
    requires
        formable_variable(variable),
    ensures
        ({
            let line = variable_line(variable);
            &&& text::trimmed(line) == line
            &&& line.contains('=')
            &&& !line.contains('\n')
            &&& text::first_position(line, '=') == variable.0.len()
            &&& line.take(variable.0.len() as int) == variable.0
            &&& line.skip(variable.0.len() as int + 1) == variable.1
        }),
{
    reveal_strlit("=");
    let line = variable_line(variable);
    let name = variable.0;
    let value = variable.1;
    assert("="@ =~= seq!['=']);
    lemma_first_position(name, value, '=');
    assert(line[name.len() as int] == '=');
    assert forall|i: int| 0 <= i < line.len() implies line[i] != '\n' by {
        if i < name.len() {
            assert(name.contains(name[i]));
        } else if i > name.len() {
            assert(value.contains(value[i - name.len() - 1]));
        }
    }
    text::trimmed_ends(name);
    if value.len() > 0 {
        text::trimmed_ends(value);
    }
    assert(line.first() == name.first());
    if value.len() > 0 {
        assert(line.last() == value.last());
    } else {
        assert(line.last() == '=');
    }
    text::trim_keeps_trimmed(line);
    assert(line.take(name.len() as int) =~= name);
    assert(line.skip(name.len() as int + 1) =~= value);
}

proof fn lemma_lines_are_read_back(variables: Seq<(Seq<char>, Seq<char>)>)
    requires
        formable_variables(variables),
    ensures
        profiles::environment_lines(variable_lines(variables)) == Ok::<
            Seq<(Seq<char>, Seq<char>)>,
            Seq<char>,
        >(variables),
    decreases variables.len(),
{
    let lines = variable_lines(variables);
    if variables.len() > 0 {
        let shorter = variables.drop_last();
        let last = variables.last();
        assert(last == variables[variables.len() - 1]);
        assert(formable_variables(shorter)) by {
            assert forall|i: int| 0 <= i < shorter.len() implies formable_variable(
                #[trigger] shorter[i],
            ) by {
                assert(formable_variable(variables[i]));
            }
            assert forall|i: int, j: int| 0 <= i < j < shorter.len() implies shorter[i].0
                != shorter[j].0 by {
                assert(variables[i].0 != variables[j].0);
            }
        }
        lemma_lines_are_read_back(shorter);
        assert(lines.drop_last() =~= variable_lines(shorter));
        assert(lines.last() == variable_line(last));
        lemma_line_is_read_back(last);
        environment::lemma_place_of(shorter, last.0);
        let place = environment::place_of(shorter, last.0);
        if place < shorter.len() {
            assert(variables[place].0 != variables[variables.len() - 1].0);
        }
        assert(shorter.push(last) =~= variables);
        assert((last.0, last.1) == last);
    } else {
        assert(variables =~= Seq::<(Seq<char>, Seq<char>)>::empty());
    }
}

/// Environment variables that a form shows are read back as they are.
pub proof fn variables_are_read_back(variables: Seq<(Seq<char>, Seq<char>)>)
    requires
        formable_variables(variables),
    ensures
        profiles::environment_in(text::joined(variable_lines(variables), "\n"@)) == Ok::<
            Seq<(Seq<char>, Seq<char>)>,
            Seq<char>,
        >(variables),
{
    reveal_strlit("\n");
    assert("\n"@ =~= seq!['\n']);
    let lines = variable_lines(variables);
    lemma_lines_are_read_back(variables);
    if variables.len() == 0 {
        let blank = seq![Seq::<char>::empty()];
        assert(text::pieces(Seq::<char>::empty(), '\n') =~= blank);
        assert(blank.drop_last() =~= Seq::<Seq<char>>::empty());
        assert(text::trimmed(Seq::<char>::empty()) =~= Seq::<char>::empty());
        assert(lines =~= Seq::<Seq<char>>::empty());
    } else {
        assert forall|i: int| 0 <= i < lines.len() implies !(#[trigger] lines[i]).contains(
            '\n',
        ) by {
            assert(formable_variable(variables[i]));
            lemma_line_is_read_back(variables[i]);
        }
        text::pieces_undo_joining(lines, '\n');
    }
}

/// Whether an argument can be shown in a form and read back.
pub open spec fn formable_arguments(arguments: Seq<Seq<char>>) -> bool {
    forall|i: int|
        0 <= i < arguments.len() ==> (#[trigger] arguments[i]).len() > 0
            && !arguments[i].contains('\n') && text::trimmed(arguments[i]) == arguments[i]
}

proof fn lemma_arguments_are_read_back(arguments: Seq<Seq<char>>)
    requires
        formable_arguments(arguments),
    ensures
        profiles::arguments_in(text::joined(arguments, "\n"@)) == arguments,
{
    reveal_strlit("\n");
    assert("\n"@ =~= seq!['\n']);
    if arguments.len() == 0 {
        let blank = seq![Seq::<char>::empty()];
        assert(text::pieces(Seq::<char>::empty(), '\n') =~= blank);
        assert(blank.drop_last() =~= Seq::<Seq<char>>::empty());
        assert(text::trimmed(Seq::<char>::empty()) =~= Seq::<char>::empty());
        assert(profiles::argument_lines(Seq::<Seq<char>>::empty()) =~= Seq::<Seq<char>>::empty());
        assert(profiles::argument_lines(blank) =~= Seq::<Seq<char>>::empty());
        assert(arguments =~= Seq::<Seq<char>>::empty());
    } else {
        profiles::arguments_are_read_back(arguments);
    }
}

/// Whether a path can be shown in a form and read back.
pub open spec fn formable_path(path: Option<Seq<char>>) -> bool {
    path matches Some(path) ==> path.len() > 0 && profiles::cleaned(path) == path
}

/// Whether a profile can be shown in a form and read back: its texts have no
/// white space around them, and only what its kind uses is filled in.
pub open spec fn formable(profile: ProfileView) -> bool {
    &&& profile.name.len() > 0
    &&& text::trimmed(profile.name) == profile.name
    &&& formable_arguments(profile.arguments)
    &&& match profile.kind {
        ProfileKind::Local => {
            &&& profile.program.len() > 0
            &&& profiles::cleaned(profile.program) == profile.program
            &&& formable_path(profile.working_directory)
            &&& formable_variables(profile.environment)
            &&& profile.ssh_host.len() == 0
            &&& profile.ssh_user.len() == 0
            &&& profile.ssh_port == 22
            &&& profile.ssh_identity_file is None
            &&& profile.ssh_password.len() == 0
        },
        ProfileKind::Ssh => {
            &&& profile.program.len() == 0
            &&& profile.working_directory is None
            &&& profile.environment.len() == 0
            &&& profiles::checked_host(profile.ssh_host) == Ok::<Seq<char>, Seq<char>>(
                profile.ssh_host,
            )
            &&& profiles::checked_user(profile.ssh_user) == Ok::<Seq<char>, Seq<char>>(
                profile.ssh_user,
            )
            &&& 1 <= profile.ssh_port <= 65535
            &&& formable_path(profile.ssh_identity_file)
            &&& profiles::checked_password(profile.ssh_password) == Ok::<Seq<char>, Seq<char>>(
                profile.ssh_password,
            )
        },
    }
}

/// Saving the form of a profile without changing it gives the profile back.
pub proof fn forms_give_profiles_back(profile: ProfileView, id: i32, facts: PathFacts)
    requires
        formable(profile),
        profile.id == id,
        facts.program.absolute && facts.program.exists,
        facts.directory.absolute && facts.directory.exists,
        facts.identity.absolute && facts.identity.exists,
    ensures
        ({
            let draft = draft_of(profile);
            profiles::profile_of_form(
                id,
                draft.name,
                draft.kind_index as i32,
                draft.program,
                draft.arguments,
                draft.working_directory,
                draft.environment,
                draft.ssh_host,
                draft.ssh_user,
                draft.ssh_port as i32,
                draft.ssh_identity_file,
                draft.ssh_password,
                facts,
            ) == Ok::<ProfileView, Seq<char>>(profile)
        }),
{
    let draft = draft_of(profile);
    lemma_arguments_are_read_back(profile.arguments);
    let empty = Seq::<char>::empty();
    assert(text::trimmed(empty) =~= empty);
    assert(text::unquoted(empty) =~= empty);
    let result = profiles::profile_of_form(
        id,
        draft.name,
        draft.kind_index as i32,
        draft.program,
        draft.arguments,
        draft.working_directory,
        draft.environment,
        draft.ssh_host,
        draft.ssh_user,
        draft.ssh_port as i32,
        draft.ssh_identity_file,
        draft.ssh_password,
        facts,
    );
    match profile.kind {
        ProfileKind::Local => {
            variables_are_read_back(profile.environment);
            assert(result->Ok_0 =~= profile);
        },
        ProfileKind::Ssh => {
            assert(result->Ok_0 =~= profile);
        },
    }
}

/// The list of profiles shows each profile in its order, and marks the default one
/// and those for other machines.
pub proof fn profiles_are_listed(current: SettingsView, place: int)
    requires
        0 <= place < current.profiles.len(),
    ensures
        ({
            let profile = current.profiles[place];
            let item = items_of(current)[place];
            &&& items_of(current).len() == current.profiles.len()
            &&& item.id == profile.id
            &&& item.name == profile.name
            &&& item.program == profile.program
            &&& item.is_ssh <==> profile.kind is Ssh
            &&& item.is_default <==> (current.default_profile_id matches Some(id) && id
                == profile.id)
        }),
{
}

/// The list of shortcuts shows each shortcut of a known action, in its order, with
/// the label of the action.
pub proof fn shortcuts_are_listed(list: Seq<ShortcutView>)
    ensures
        labelled(list).map_values(
            |item: ShortcutItem|
                ShortcutView {
                    action: item.action,
                    shortcut: item.shortcut,
                    pass_through: item.pass_through,
                },
        ) == list.filter(
            |setting: ShortcutView| shortcuts::label_of(setting.action) is Some,
        ),
        forall|i: int|
            0 <= i < labelled(list).len() ==> shortcuts::label_of(
                (#[trigger] labelled(list)[i]).action,
            ) == Some(labelled(list)[i].label),
    decreases list.len(),
{
    reveal(Seq::filter);
    let bare = |item: ShortcutItem|
        ShortcutView {
            action: item.action,
            shortcut: item.shortcut,
            pass_through: item.pass_through,
        };
    let known = |setting: ShortcutView| shortcuts::label_of(setting.action) is Some;
    if list.len() > 0 {
        shortcuts_are_listed(list.drop_last());
        let before = labelled(list.drop_last());
        let all = labelled(list);
        assert(all.map_values(bare) =~= list.filter(known));
        assert forall|i: int| 0 <= i < all.len() implies shortcuts::label_of(
            (#[trigger] all[i]).action,
        ) == Some(all[i].label) by {
            if i < before.len() {
                assert(all[i] == before[i]);
            }
        }
    } else {
        assert(labelled(list).map_values(bare) =~= list.filter(known));
    }
}

/// The font that is chosen in the list is the first one that has the name in the
/// settings, whatever the case of its letters, and the first of all where none has.
pub proof fn chosen_fonts_have_the_name(fonts: Seq<Seq<char>>, family: Seq<char>, place: int)
    requires
        0 <= place < fonts.len(),
    ensures
        text::same_ignoring_case(fonts[place], family) && (forall|i: int|
            0 <= i < place ==> !text::same_ignoring_case(#[trigger] fonts[i], family))
            ==> chosen_font(fonts, family) == place,
        (forall|i: int|
            0 <= i < fonts.len() ==> !text::same_ignoring_case(#[trigger] fonts[i], family))
            ==> chosen_font(fonts, family) == 0,
{
    lemma_place_of_font(fonts, family);
}

proof fn lemma_place_of_font(fonts: Seq<Seq<char>>, family: Seq<char>)
    ensures
        0 <= place_of_font(fonts, family) <= fonts.len(),
        place_of_font(fonts, family) < fonts.len() ==> text::same_ignoring_case(
            fonts[place_of_font(fonts, family)],
            family,
        ),
        forall|i: int|
            0 <= i < place_of_font(fonts, family) ==> !text::same_ignoring_case(
                #[trigger] fonts[i],
                family,
            ),
    decreases fonts.len(),
{
    if fonts.len() > 0 && !text::same_ignoring_case(fonts.first(), family) {
        let rest = fonts.drop_first();
        lemma_place_of_font(rest, family);
        assert forall|i: int| 0 <= i < place_of_font(fonts, family) implies !text::same_ignoring_case(
            #[trigger] fonts[i],
            family,
        ) by {
            if i > 0 {
                assert(rest[i - 1] == fonts[i]);
            }
        }
    }
}

} // verus!
