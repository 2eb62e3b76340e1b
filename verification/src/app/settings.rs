//! What the user can set.

pub mod environment;
pub mod fonts;
pub mod profiles;
pub mod shortcuts;
pub mod stability;
pub mod storage;
pub mod ui_sync;

use vstd::prelude::*;
use vstd::string::*;
use crate::app::settings::environment::Environment;
use crate::app::settings::profiles::{DetectedShell, PathFacts, ProfileFiles};
use crate::terminal::command::TerminalOptions;
use crate::text;

verus! {

pub const DEFAULT_FONT_SIZE: i32 = 15;

pub const MIN_FONT_SIZE: i32 = 8;

pub const MAX_FONT_SIZE: i32 = 36;

pub const DEFAULT_SCROLLBACK_LINES: u32 = 10_000;

/// Every line of history stays in memory.
pub const MAX_SCROLLBACK_LINES: u32 = 100_000;

pub const DEFAULT_SCROLL_LINES: u32 = 3;

pub const MAX_SCROLL_LINES: u32 = 20;

/// The shape of the cursor where no program sets one.
#[derive(Clone, Copy, Debug, PartialEq, Eq, Structural)]
pub enum CursorShapeSetting {
    Block,
    Underline,
    Beam,
}

impl CursorShapeSetting {
    /// The place of the shape in the list that the user chooses from.
    pub open spec fn place(self) -> int {
        match self {
            CursorShapeSetting::Block => 0,
            CursorShapeSetting::Underline => 1,
            CursorShapeSetting::Beam => 2,
        }
    }

    /// The shape at a place of the list; the first one for every other number.
    pub open spec fn at_place(index: int) -> CursorShapeSetting {
        if index == 1 {
            CursorShapeSetting::Underline
        } else if index == 2 {
            CursorShapeSetting::Beam
        } else {
            CursorShapeSetting::Block
        }
    }

    pub fn from_index(index: i32) -> (shape: CursorShapeSetting)
        ensures
            shape == Self::at_place(index as int),
    {
        match index {
            1 => CursorShapeSetting::Underline,
            2 => CursorShapeSetting::Beam,
            _ => CursorShapeSetting::Block,
        }
    }

    pub fn index(self) -> (index: i32)
        ensures
            index == self.place(),
    {
        match self {
            CursorShapeSetting::Block => 0,
            CursorShapeSetting::Underline => 1,
            CursorShapeSetting::Beam => 2,
        }
    }
}

/// A shape is found again at its place in the list.
pub proof fn cursor_shapes_round_trip(shape: CursorShapeSetting)
    ensures
        CursorShapeSetting::at_place(shape.place()) == shape,
{
}

/// The shortcut of one action.
#[derive(Debug, PartialEq, Eq)]
pub struct ShortcutSetting {
    pub action: String,
    pub shortcut: String,
    /// The terminal gets the keys too.
    pub pass_through: bool,
}

/// What a `ShortcutSetting` holds.
#[verifier::ext_equal]
pub struct ShortcutView {
    pub action: Seq<char>,
    pub shortcut: Seq<char>,
    pub pass_through: bool,
}

impl View for ShortcutSetting {
    type V = ShortcutView;

    open spec fn view(&self) -> ShortcutView {
        ShortcutView {
            action: self.action@,
            shortcut: self.shortcut@,
            pass_through: self.pass_through,
        }
    }
}

/// What a list of shortcuts holds.
pub open spec fn shortcut_views(shortcuts: Seq<ShortcutSetting>) -> Seq<ShortcutView> {
    shortcuts.map_values(|shortcut: ShortcutSetting| shortcut@)
}

fn copy_shortcuts(shortcuts: &Vec<ShortcutSetting>) -> (copy: Vec<ShortcutSetting>)
    ensures
        shortcut_views(copy@) == shortcut_views(shortcuts@),
{
    let ghost all = shortcut_views(shortcuts@);
    let mut copy: Vec<ShortcutSetting> = Vec::new();
    let mut index: usize = 0;
    while index < shortcuts.len()
        invariant
            index <= shortcuts@.len(),
            all == shortcut_views(shortcuts@),
            shortcut_views(copy@) == all.take(index as int),
        decreases shortcuts.len() - index,
    {
        let ghost before = shortcut_views(copy@);
        let setting = ShortcutSetting {
            action: shortcuts[index].action.clone(),
            shortcut: shortcuts[index].shortcut.clone(),
            pass_through: shortcuts[index].pass_through,
        };
        let ghost view = setting@;
        copy.push(setting);
        assert(shortcut_views(copy@) == before.push(view));
        assert(view == all[index as int]);
        assert(all.take(index + 1) == all.take(index as int).push(all[index as int]));
        index += 1;
    }
    assert(all.take(index as int) == all);
    copy
}

/// What a profile starts.
#[derive(Clone, Copy, Debug, PartialEq, Eq, Structural)]
pub enum ProfileKind {
    /// A program on this machine.
    Local,
    /// A session on another machine.
    Ssh,
}

impl ProfileKind {
    pub fn is_local(kind: &ProfileKind) -> (local: bool)
        ensures
            local == (*kind == ProfileKind::Local),
    {
        *kind == ProfileKind::Local
    }
}

/// The port of the SSH protocol.
pub fn default_ssh_port() -> (port: u16)
    ensures
        port == 22,
{
    22
}

pub fn is_default_ssh_port(port: &u16) -> (default: bool)
    ensures
        default == (*port == 22),
{
    *port == default_ssh_port()
}

/// What a tab can run.
#[derive(Debug, PartialEq, Eq)]
pub struct ShellProfile {
    pub id: i32,
    pub name: String,
    pub kind: ProfileKind,
    pub program: String,
    pub arguments: Vec<String>,
    pub working_directory: Option<String>,
    pub environment: Environment,
    pub ssh_host: String,
    pub ssh_user: String,
    pub ssh_port: u16,
    pub ssh_identity_file: Option<String>,
    pub ssh_password: String,
}

/// What a `ShellProfile` holds.
#[verifier::ext_equal]
pub struct ProfileView {
    pub id: int,
    pub name: Seq<char>,
    pub kind: ProfileKind,
    pub program: Seq<char>,
    pub arguments: Seq<Seq<char>>,
    pub working_directory: Option<Seq<char>>,
    pub environment: Seq<(Seq<char>, Seq<char>)>,
    pub ssh_host: Seq<char>,
    pub ssh_user: Seq<char>,
    pub ssh_port: int,
    pub ssh_identity_file: Option<Seq<char>>,
    pub ssh_password: Seq<char>,
}

impl View for ShellProfile {
    type V = ProfileView;

    open spec fn view(&self) -> ProfileView {
        ProfileView {
            id: self.id as int,
            name: self.name@,
            kind: self.kind,
            program: self.program@,
            arguments: text::texts(self.arguments@),
            working_directory: text::optional(self.working_directory),
            environment: self.environment@,
            ssh_host: self.ssh_host@,
            ssh_user: self.ssh_user@,
            ssh_port: self.ssh_port as int,
            ssh_identity_file: text::optional(self.ssh_identity_file),
            ssh_password: self.ssh_password@,
        }
    }
}

/// What a list of profiles holds.
pub open spec fn profile_views(profiles: Seq<ShellProfile>) -> Seq<ProfileView> {
    profiles.map_values(|profile: ShellProfile| profile@)
}

/// A profile in which nothing is filled in.
pub open spec fn empty_profile() -> ProfileView {
    ProfileView {
        id: 0,
        name: Seq::empty(),
        kind: ProfileKind::Local,
        program: Seq::empty(),
        arguments: Seq::empty(),
        working_directory: None,
        environment: Seq::empty(),
        ssh_host: Seq::empty(),
        ssh_user: Seq::empty(),
        ssh_port: 22,
        ssh_identity_file: None,
        ssh_password: Seq::empty(),
    }
}

impl ShellProfile {
    /// A profile in which nothing is filled in.
    pub fn empty() -> (profile: ShellProfile)
        ensures
            profile@ == empty_profile(),
    {
        let profile = ShellProfile {
            id: 0,
            name: String::new(),
            kind: ProfileKind::Local,
            program: String::new(),
            arguments: Vec::new(),
            working_directory: None,
            environment: Environment::new(),
            ssh_host: String::new(),
            ssh_user: String::new(),
            ssh_port: default_ssh_port(),
            ssh_identity_file: None,
            ssh_password: String::new(),
        };
        assert(profile@ =~= empty_profile());
        profile
    }

    pub fn copy(&self) -> (copy: ShellProfile)
        ensures
            copy@ == self@,
    {
        ShellProfile {
            id: self.id,
            name: self.name.clone(),
            kind: self.kind,
            program: self.program.clone(),
            arguments: text::copy_texts(&self.arguments),
            working_directory: text::copy_optional(&self.working_directory),
            environment: self.environment.copy(),
            ssh_host: self.ssh_host.clone(),
            ssh_user: self.ssh_user.clone(),
            ssh_port: self.ssh_port,
            ssh_identity_file: text::copy_optional(&self.ssh_identity_file),
            ssh_password: self.ssh_password.clone(),
        }
    }
}

fn copy_profiles(profiles: &Vec<ShellProfile>) -> (copy: Vec<ShellProfile>)
    ensures
        profile_views(copy@) == profile_views(profiles@),
{
    let ghost all = profile_views(profiles@);
    let mut copy: Vec<ShellProfile> = Vec::new();
    let mut index: usize = 0;
    while index < profiles.len()
        invariant
            index <= profiles@.len(),
            all == profile_views(profiles@),
            profile_views(copy@) == all.take(index as int),
        decreases profiles.len() - index,
    {
        let ghost before = profile_views(copy@);
        let profile = profiles[index].copy();
        let ghost view = profile@;
        copy.push(profile);
        assert(profile_views(copy@) == before.push(view));
        assert(view == all[index as int]);
        assert(all.take(index + 1) == all.take(index as int).push(all[index as int]));
        index += 1;
    }
    assert(all.take(index as int) == all);
    copy
}

/// The settings of the application.
#[derive(Debug)]
pub struct AppSettings {
    pub profiles: Vec<ShellProfile>,
    pub default_profile_id: Option<i32>,
    pub next_profile_id: i32,
    pub font_family: String,
    pub font_size: i32,
    /// How many lines of history a terminal keeps.
    pub scrollback_lines: u32,
    /// How many lines a notch of the wheel scrolls.
    pub scroll_lines: u32,
    pub copy_on_select: bool,
    pub right_click_paste: bool,
    pub cursor_shape: CursorShapeSetting,
    pub cursor_blink: bool,
    pub shortcuts: Vec<ShortcutSetting>,
    /// Shells that older settings list by their paths alone.
    pub shells: Vec<String>,
    pub default_shell: Option<String>,
}

/// What `AppSettings` hold.
#[verifier::ext_equal]
pub struct SettingsView {
    pub profiles: Seq<ProfileView>,
    pub default_profile_id: Option<i32>,
    pub next_profile_id: int,
    pub font_family: Seq<char>,
    pub font_size: int,
    pub scrollback_lines: int,
    pub scroll_lines: int,
    pub copy_on_select: bool,
    pub right_click_paste: bool,
    pub cursor_shape: CursorShapeSetting,
    pub cursor_blink: bool,
    pub shortcuts: Seq<ShortcutView>,
    pub shells: Seq<Seq<char>>,
    pub default_shell: Option<Seq<char>>,
}

impl View for AppSettings {
    type V = SettingsView;

    open spec fn view(&self) -> SettingsView {
        SettingsView {
            profiles: profile_views(self.profiles@),
            default_profile_id: self.default_profile_id,
            next_profile_id: self.next_profile_id as int,
            font_family: self.font_family@,
            font_size: self.font_size as int,
            scrollback_lines: self.scrollback_lines as int,
            scroll_lines: self.scroll_lines as int,
            copy_on_select: self.copy_on_select,
            right_click_paste: self.right_click_paste,
            cursor_shape: self.cursor_shape,
            cursor_blink: self.cursor_blink,
            shortcuts: shortcut_views(self.shortcuts@),
            shells: text::texts(self.shells@),
            default_shell: text::optional(self.default_shell),
        }
    }
}

/// The settings without any choice of the user.
pub open spec fn default_settings() -> SettingsView {
    SettingsView {
        profiles: Seq::empty(),
        default_profile_id: None,
        next_profile_id: 1,
        font_family: "Cascadia Mono"@,
        font_size: 15,
        scrollback_lines: 10_000,
        scroll_lines: 3,
        copy_on_select: false,
        right_click_paste: false,
        cursor_shape: CursorShapeSetting::Block,
        cursor_blink: false,
        shortcuts: shortcuts::preset(),
        shells: Seq::empty(),
        default_shell: None,
    }
}

/// A number kept between two others.
pub open spec fn clamped(value: int, low: int, high: int) -> int {
    if value < low {
        low
    } else if value > high {
        high
    } else {
        value
    }
}

/// Normalized settings, given the names for shells that are listed by their
/// paths and the shells that were found.
pub open spec fn normalized(
    before: SettingsView,
    names: Seq<Seq<char>>,
    found: Seq<profiles::ShellView>,
) -> SettingsView {
    profiles::normalized_profiles(
        SettingsView {
            font_family: text::trimmed(before.font_family),
            font_size: clamped(before.font_size, MIN_FONT_SIZE as int, MAX_FONT_SIZE as int),
            scrollback_lines: clamped(before.scrollback_lines, 0, MAX_SCROLLBACK_LINES as int),
            scroll_lines: clamped(before.scroll_lines, 1, MAX_SCROLL_LINES as int),
            shortcuts: shortcuts::normalized_shortcuts(before.shortcuts),
            ..before
        },
        names,
        found,
    )
}

/// What is wrong with the settings, if anything; the first problem counts.
pub open spec fn checked(before: SettingsView, facts: Seq<PathFacts>) -> Result<(), Seq<char>> {
    if text::trimmed(before.font_family).len() == 0 {
        Err("字段 font_family 不能为空"@)
    } else if !(MIN_FONT_SIZE <= before.font_size <= MAX_FONT_SIZE) {
        Err("字段 font_size 必须在 8 到 36 之间"@)
    } else if before.scrollback_lines > MAX_SCROLLBACK_LINES {
        Err("字段 scrollback_lines 不能超过 100000"@)
    } else if !(1 <= before.scroll_lines <= MAX_SCROLL_LINES) {
        Err("字段 scroll_lines 必须在 1 到 20 之间"@)
    } else if let Err(message) = profiles::checked_profiles(
        before.profiles,
        before.default_profile_id,
        facts,
    ) {
        Err(message)
    } else {
        shortcuts::checked_shortcuts(before.shortcuts)
    }
}

impl AppSettings {
    /// The settings without any choice of the user.
    pub fn defaults() -> (settings: AppSettings)
        ensures
            settings@ == default_settings(),
    {
        let settings = AppSettings {
            profiles: Vec::new(),
            default_profile_id: None,
            next_profile_id: 1,
            font_family: "Cascadia Mono".to_owned(),
            font_size: DEFAULT_FONT_SIZE,
            scrollback_lines: DEFAULT_SCROLLBACK_LINES,
            scroll_lines: DEFAULT_SCROLL_LINES,
            copy_on_select: false,
            right_click_paste: false,
            cursor_shape: CursorShapeSetting::Block,
            cursor_blink: false,
            shortcuts: shortcuts::default_shortcuts(),
            shells: Vec::new(),
            default_shell: None,
        };
        assert(settings@ =~= default_settings());
        settings
    }

    /// The settings of a first start, with the shells that were found.
    pub fn built_in_defaults(found: &Vec<DetectedShell>) -> (settings: AppSettings)
        ensures
            settings@ == normalized(
                default_settings(),
                Seq::empty(),
                profiles::shell_views(found@),
            ),
    {
        let mut settings = AppSettings::defaults();
        settings.normalize(found);
        proof {
            let names = choose|names: Seq<Seq<char>>| #[trigger]
                profiles::names_for(names, default_settings().shells) && settings@ == normalized(
                    default_settings(),
                    names,
                    profiles::shell_views(found@),
                );
            assert(names =~= Seq::<Seq<char>>::empty());
        }
        settings
    }

    pub fn copy(&self) -> (copy: AppSettings)
        ensures
            copy@ == self@,
    {
        let copy = AppSettings {
            profiles: copy_profiles(&self.profiles),
            default_profile_id: self.default_profile_id,
            next_profile_id: self.next_profile_id,
            font_family: self.font_family.clone(),
            font_size: self.font_size,
            scrollback_lines: self.scrollback_lines,
            scroll_lines: self.scroll_lines,
            copy_on_select: self.copy_on_select,
            right_click_paste: self.right_click_paste,
            cursor_shape: self.cursor_shape,
            cursor_blink: self.cursor_blink,
            shortcuts: copy_shortcuts(&self.shortcuts),
            shells: text::copy_texts(&self.shells),
            default_shell: text::copy_optional(&self.default_shell),
        };
        assert(copy@ =~= self@);
        copy
    }

    /// The file that the settings are saved to, or why they cannot be saved.
    pub fn save(&self, path: Option<String>) -> (target: Result<String, String>)
        ensures
            text::outcome(target) == (match text::optional(path) {
                Some(path) => Ok(path),
                None => Err("无法确定用户配置目录"@),
            }),
    {
        storage::save(path)
    }

    /// The profile that a new tab runs.
    pub fn default_profile(&self) -> (profile: Option<&ShellProfile>)
        ensures
            match self.default_profile_id {
                Some(id) => found_profile(*self, id, profile),
                None => profile is None,
            },
    {
        match self.default_profile_id {
            Some(id) => self.profile(id),
            None => None,
        }
    }

    /// The first profile with an id.
    pub fn profile(&self, id: i32) -> (profile: Option<&ShellProfile>)
        ensures
            found_profile(*self, id, profile),
    {
        let place = profiles::find_id(&self.profiles, self.profiles.len(), id);
        if place < self.profiles.len() {
            Some(&self.profiles[place])
        } else {
            None
        }
    }

    /// The first profile with an id, to change it.
    pub fn profile_mut(&mut self, id: i32) -> (profile: Option<&mut ShellProfile>)
        ensures
            match profile {
                Some(profile) => {
                    let place = profile_place(old(self).profiles@, id);
                    &&& place < old(self).profiles@.len()
                    &&& *profile == old(self).profiles@[place]
                    &&& final(self).profiles@ == old(self).profiles@.update(
                        place,
                        *final(profile),
                    )
                },
                None => *final(self) == *old(self) && profile_place(old(self).profiles@, id)
                    == old(self).profiles@.len(),
            },
            final(self).default_profile_id == old(self).default_profile_id,
            final(self).next_profile_id == old(self).next_profile_id,
            final(self).font_family == old(self).font_family,
            final(self).font_size == old(self).font_size,
            final(self).scrollback_lines == old(self).scrollback_lines,
            final(self).scroll_lines == old(self).scroll_lines,
            final(self).copy_on_select == old(self).copy_on_select,
            final(self).right_click_paste == old(self).right_click_paste,
            final(self).cursor_shape == old(self).cursor_shape,
            final(self).cursor_blink == old(self).cursor_blink,
            final(self).shortcuts == old(self).shortcuts,
            final(self).shells == old(self).shells,
            final(self).default_shell == old(self).default_shell,
    {
        let place = profiles::find_id(&self.profiles, self.profiles.len(), id);
        if place < self.profiles.len() {
            Some(&mut self.profiles[place])
        } else {
            None
        }
    }

    /// Gives out an id that no profile has had.
    pub fn allocate_profile_id(&mut self) -> (id: i32)
        ensures
            id == profiles::fresh_id(old(self)@.next_profile_id),
            final(self)@ == (SettingsView {
                next_profile_id: profiles::id_after(id as int),
                ..old(self)@
            }),
            final(self).shells == old(self).shells,
            final(self).profiles == old(self).profiles,
            final(self).default_shell == old(self).default_shell,
    {
        let id: i32 = if self.next_profile_id < 1 {
            1
        } else {
            self.next_profile_id
        };
        self.next_profile_id = if id == i32::MAX {
            id
        } else {
            id + 1
        };
        id
    }

    /// What a terminal has to know of the settings.
    pub fn terminal_options(&self) -> (options: TerminalOptions)
        ensures
            options.scrollback_lines == self.scrollback_lines,
            options.scroll_lines == self.scroll_lines,
            options.copy_on_select == self.copy_on_select,
            options.right_click_paste == self.right_click_paste,
            options.cursor_shape == self.cursor_shape,
            options.cursor_blink == self.cursor_blink,
    {
        TerminalOptions {
            scrollback_lines: self.scrollback_lines,
            scroll_lines: self.scroll_lines,
            copy_on_select: self.copy_on_select,
            right_click_paste: self.right_click_paste,
            cursor_shape: self.cursor_shape,
            cursor_blink: self.cursor_blink,
        }
    }

    fn check_values(&self) -> (result: Result<(), String>)
        ensures
            text::verdict(result) == (if text::trimmed(self@.font_family).len() == 0 {
                Err("字段 font_family 不能为空"@)
            } else if !(MIN_FONT_SIZE <= self@.font_size <= MAX_FONT_SIZE) {
                Err("字段 font_size 必须在 8 到 36 之间"@)
            } else if self@.scrollback_lines > MAX_SCROLLBACK_LINES {
                Err("字段 scrollback_lines 不能超过 100000"@)
            } else if !(1 <= self@.scroll_lines <= MAX_SCROLL_LINES) {
                Err("字段 scroll_lines 必须在 1 到 20 之间"@)
            } else {
                Ok(())
            }),
    {
        let family = text::trim(self.font_family.as_str());
        if text::is_empty_text(family.as_str()) {
            return Err("字段 font_family 不能为空".to_owned());
        }
        if self.font_size < MIN_FONT_SIZE || self.font_size > MAX_FONT_SIZE {
            return Err("字段 font_size 必须在 8 到 36 之间".to_owned());
        }
        if self.scrollback_lines > MAX_SCROLLBACK_LINES {
            return Err("字段 scrollback_lines 不能超过 100000".to_owned());
        }
        if self.scroll_lines < 1 || self.scroll_lines > MAX_SCROLL_LINES {
            return Err("字段 scroll_lines 必须在 1 到 20 之间".to_owned());
        }
        Ok(())
    }

    /// Checks the settings, given what is known of the paths in the profiles.
    pub fn check(&self, facts: &Vec<PathFacts>) -> (result: Result<(), String>)
        requires
            facts@.len() == self.profiles@.len(),
        ensures
            text::verdict(result) == checked(self@, facts@),
    {
        if let Err(message) = self.check_values() {
            return Err(message);
        }
        if let Err(message) = profiles::check_profiles(self, facts) {
            return Err(message);
        }
        shortcuts::validate_shortcuts(&self.shortcuts)
    }

    /// Checks the settings. `files` says for each profile what of its cleaned
    /// paths exists.
    pub fn validate(&self, files: &Vec<ProfileFiles>) -> (result: Result<(), String>)
        requires
            files@.len() == self.profiles@.len(),
        ensures
            exists|facts: Seq<PathFacts>| #[trigger]
                profiles::all_agree(facts, files@, self@.profiles) && text::verdict(result)
                    == checked(self@, facts),
    {
        if let Err(message) = self.check_values() {
            proof {
                let facts = Seq::new(
                    files@.len(),
                    |i: int|
                        PathFacts {
                            program: profiles::PathFact {
                                absolute: false,
                                exists: files@[i].program,
                            },
                            directory: profiles::PathFact {
                                absolute: false,
                                exists: files@[i].directory,
                            },
                            identity: profiles::PathFact {
                                absolute: false,
                                exists: files@[i].identity,
                            },
                        },
                );
                assert(profiles::all_agree(facts, files@, self@.profiles));
            }
            return Err(message);
        }
        if let Err(message) = profiles::validate_profiles(self, files) {
            return Err(message);
        }
        shortcuts::validate_shortcuts(&self.shortcuts)
    }

    /// Brings the settings in order: numbers within their limits, text without
    /// needless white space, a shortcut for every action, sound profiles.
    pub fn normalize(&mut self, found: &Vec<DetectedShell>)
        ensures
            exists|names: Seq<Seq<char>>| #[trigger]
                profiles::names_for(names, old(self)@.shells) && final(self)@
                    == normalized(old(self)@, names, profiles::shell_views(found@)),
    {
        let ghost before = self@;
        self.font_family = text::trim(self.font_family.as_str());
        self.font_size = if self.font_size < MIN_FONT_SIZE {
            MIN_FONT_SIZE
        } else if self.font_size > MAX_FONT_SIZE {
            MAX_FONT_SIZE
        } else {
            self.font_size
        };
        if self.scrollback_lines > MAX_SCROLLBACK_LINES {
            self.scrollback_lines = MAX_SCROLLBACK_LINES;
        }
        self.scroll_lines = if self.scroll_lines < 1 {
            1
        } else if self.scroll_lines > MAX_SCROLL_LINES {
            MAX_SCROLL_LINES
        } else {
            self.scroll_lines
        };
        shortcuts::normalize_shortcuts(&mut self.shortcuts);
        assert(self@ =~= SettingsView {
            font_family: text::trimmed(before.font_family),
            font_size: clamped(before.font_size, MIN_FONT_SIZE as int, MAX_FONT_SIZE as int),
            scrollback_lines: clamped(before.scrollback_lines, 0, MAX_SCROLLBACK_LINES as int),
            scroll_lines: clamped(before.scroll_lines, 1, MAX_SCROLL_LINES as int),
            shortcuts: shortcuts::normalized_shortcuts(before.shortcuts),
            ..before
        });
        profiles::normalize_profiles(self, found);
    }
}

/// Whether `profile` is the first profile with an id, or none where there is none.
pub open spec fn found_profile(
    settings: AppSettings,
    id: i32,
    profile: Option<&ShellProfile>,
) -> bool {
    let place = profile_place(settings.profiles@, id);
    match profile {
        Some(profile) => place < settings.profiles@.len() && *profile == settings.profiles@[place],
        None => place == settings.profiles@.len(),
    }
}

/// Where the first profile with an id stands, or the number of profiles.
pub open spec fn profile_place(profiles: Seq<ShellProfile>, id: i32) -> int
    decreases profiles.len(),
{
    if profiles.len() == 0 || profiles.first().id == id {
        0
    } else {
        1 + profile_place(profiles.drop_first(), id)
    }
}

/// An id that is given out is new, where the next id is behind all of them and
/// ids have not run out.
pub proof fn allocated_ids_are_new(before: SettingsView, index: int)
    requires
        0 <= index < before.profiles.len(),
        before.profiles[index].id < before.next_profile_id,
    ensures
        profiles::fresh_id(before.next_profile_id) != before.profiles[index].id,
        profiles::fresh_id(before.next_profile_id) >= 1,
{
}

/// The numbers in normalized settings are within their limits.
pub proof fn normalized_numbers_pass_the_check(
    before: SettingsView,
    names: Seq<Seq<char>>,
    found: Seq<profiles::ShellView>,
)
    ensures
        ({
            let after = normalized(before, names, found);
            &&& MIN_FONT_SIZE <= after.font_size <= MAX_FONT_SIZE
            &&& 0 <= after.scrollback_lines <= MAX_SCROLLBACK_LINES
            &&& 1 <= after.scroll_lines <= MAX_SCROLL_LINES
        }),
{
    let tuned = SettingsView {
        font_family: text::trimmed(before.font_family),
        font_size: clamped(before.font_size, MIN_FONT_SIZE as int, MAX_FONT_SIZE as int),
        scrollback_lines: clamped(before.scrollback_lines, 0, MAX_SCROLLBACK_LINES as int),
        scroll_lines: clamped(before.scroll_lines, 1, MAX_SCROLL_LINES as int),
        shortcuts: shortcuts::normalized_shortcuts(before.shortcuts),
        ..before
    };
    profiles::lemma_filled_keeps_numbers(tuned, names, found);
}

/// Settings pass the check if and only if a font is named, its size is between 8 and
/// 36, there are no more than 100000 lines of history and between 1 and 20 lines
/// to a notch of the wheel, and the profiles and the shortcuts pass.
pub proof fn settings_pass_if_every_value_does(before: SettingsView, facts: Seq<PathFacts>)
    ensures
        checked(before, facts) is Ok <==> text::trimmed(before.font_family).len() > 0 && 8
            <= before.font_size <= 36 && before.scrollback_lines <= 100_000 && 1
            <= before.scroll_lines <= 20 && profiles::checked_profiles(
            before.profiles,
            before.default_profile_id,
            facts,
        ) is Ok && shortcuts::checked_shortcuts(before.shortcuts) is Ok,
{
}

/// Normalizing takes a number that is out of its limits to the nearest limit and
/// leaves every other one as it is. The font loses the white space around it, and
/// the other choices of the user stay.
pub proof fn normalizing_keeps_what_is_in_order(
    before: SettingsView,
    names: Seq<Seq<char>>,
    found: Seq<profiles::ShellView>,
)
    requires
        before.scrollback_lines >= 0,
    ensures
        ({
            let after = normalized(before, names, found);
            &&& 8 <= before.font_size <= 36 ==> after.font_size == before.font_size
            &&& before.font_size < 8 ==> after.font_size == 8
            &&& before.font_size > 36 ==> after.font_size == 36
            &&& before.scrollback_lines <= 100_000 ==> after.scrollback_lines
                == before.scrollback_lines
            &&& before.scrollback_lines > 100_000 ==> after.scrollback_lines == 100_000
            &&& 1 <= before.scroll_lines <= 20 ==> after.scroll_lines == before.scroll_lines
            &&& before.scroll_lines < 1 ==> after.scroll_lines == 1
            &&& before.scroll_lines > 20 ==> after.scroll_lines == 20
            &&& after.font_family == text::trimmed(before.font_family)
            &&& after.copy_on_select == before.copy_on_select
            &&& after.right_click_paste == before.right_click_paste
            &&& after.cursor_shape == before.cursor_shape
            &&& after.cursor_blink == before.cursor_blink
            &&& after.shortcuts == shortcuts::normalized_shortcuts(before.shortcuts)
            &&& after.shells.len() == 0
            &&& after.default_shell is None
        }),
{
    let tuned = SettingsView {
        font_family: text::trimmed(before.font_family),
        font_size: clamped(before.font_size, MIN_FONT_SIZE as int, MAX_FONT_SIZE as int),
        scrollback_lines: clamped(before.scrollback_lines, 0, MAX_SCROLLBACK_LINES as int),
        scroll_lines: clamped(before.scroll_lines, 1, MAX_SCROLL_LINES as int),
        shortcuts: shortcuts::normalized_shortcuts(before.shortcuts),
        ..before
    };
    profiles::lemma_filled_keeps_numbers(tuned, names, found);
    profiles::lemma_filled_keeps_choices(tuned, names, found);
}

/// The profile that is found under an id has that id and is the first one that does;
/// none is found if and only if no profile has it.
pub proof fn profiles_are_found_by_their_id(list: Seq<ShellProfile>, id: i32)
    ensures
        0 <= profile_place(list, id) <= list.len(),
        profile_place(list, id) < list.len() ==> list[profile_place(list, id)].id == id,
        forall|i: int| 0 <= i < profile_place(list, id) ==> (#[trigger] list[i]).id != id,
    decreases list.len(),
{
    if list.len() > 0 && list.first().id != id {
        let rest = list.drop_first();
        profiles_are_found_by_their_id(rest, id);
        assert forall|i: int| 0 <= i < profile_place(list, id) implies (#[trigger] list[i]).id
            != id by {
            if i > 0 {
                assert(rest[i - 1] == list[i]);
            }
        }
    }
}

/// Without any choice of the user the font has 15 pixels, ten thousand lines of
/// history are kept, a notch of the wheel scrolls three lines, and the cursor is a
/// block that does not blink. Neither selecting nor a right click touches the
/// clipboard.
pub proof fn defaults_are_modest()
    ensures
        default_settings().font_family == "Cascadia Mono"@,
        default_settings().font_size == 15,
        default_settings().scrollback_lines == 10_000,
        default_settings().scroll_lines == 3,
        default_settings().cursor_shape is Block,
        !default_settings().cursor_blink,
        !default_settings().copy_on_select,
        !default_settings().right_click_paste,
        default_settings().profiles.len() == 0,
        default_settings().default_profile_id is None,
        default_settings().next_profile_id == 1,
        default_settings().shortcuts == shortcuts::preset(),
{
}

/// The list of cursor shapes: the block comes first, then the underline and the beam,
/// and any other number stands for the block.
pub proof fn shapes_are_listed_in_order(index: int)
    ensures
        CursorShapeSetting::at_place(index) is Underline <==> index == 1,
        CursorShapeSetting::at_place(index) is Beam <==> index == 2,
        CursorShapeSetting::at_place(index) is Block <==> index != 1 && index != 2,
{
}

/// The settings without any choice of the user, with every value in order.
pub open spec fn default_settings_in_order() -> SettingsView {
    SettingsView {
        font_family: text::trimmed(default_settings().font_family),
        shortcuts: shortcuts::normalized_shortcuts(shortcuts::preset()),
        ..default_settings()
    }
}

} // verus!
