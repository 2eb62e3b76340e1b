//! What the callbacks of the user interface decide.

use vstd::prelude::*;
use vstd::string::*;
use crate::app::input::{KeyAction, KeyDecision};
use crate::app::sessions::{TabManager, TabsView, SETTINGS_TAB_ID};
use crate::app::settings;
use crate::app::settings::profiles;
use crate::app::settings::shortcuts;
use crate::app::settings::{
    AppSettings,
    ProfileView,
    SettingsView,
    ShellProfile,
    MAX_FONT_SIZE,
    MIN_FONT_SIZE,
};
use crate::text;

verus! {

/// What a shortcut comes to, given the tab that is shown.
#[derive(Clone, Copy, Debug, PartialEq, Eq, Structural)]
pub enum AppCommand {
    Nothing,
    NewTab,
    /// Closes the tab with the id.
    CloseTab(i32),
    Copy,
    SelectAll,
    Paste,
    /// Opens the search bar.
    Find,
    /// Sends Ctrl+C.
    Interrupt,
    Quit,
}

/// What a shortcut comes to: what concerns a terminal needs one that is shown.
pub open spec fn command_for(action: Option<KeyAction>, tabs: TabsView) -> AppCommand {
    let terminal_shown = tabs.shown() is Some;
    match action {
        None => AppCommand::Nothing,
        Some(KeyAction::NewTab) => AppCommand::NewTab,
        Some(KeyAction::CloseTab) => if tabs.settings_active {
            AppCommand::CloseTab(SETTINGS_TAB_ID)
        } else if terminal_shown {
            AppCommand::CloseTab(tabs.shown()->0.id)
        } else {
            AppCommand::Nothing
        },
        Some(KeyAction::Copy) => if terminal_shown {
            AppCommand::Copy
        } else {
            AppCommand::Nothing
        },
        Some(KeyAction::SelectAll) => if terminal_shown {
            AppCommand::SelectAll
        } else {
            AppCommand::Nothing
        },
        Some(KeyAction::Paste) => if terminal_shown {
            AppCommand::Paste
        } else {
            AppCommand::Nothing
        },
        Some(KeyAction::Find) => if terminal_shown {
            AppCommand::Find
        } else {
            AppCommand::Nothing
        },
        Some(KeyAction::Interrupt) => if terminal_shown {
            AppCommand::Interrupt
        } else {
            AppCommand::Nothing
        },
        Some(KeyAction::Quit) => AppCommand::Quit,
    }
}

/// What a shortcut comes to, given the tab that is shown.
pub fn application_command(action: Option<KeyAction>, tabs: &TabManager) -> (command: AppCommand)
    ensures
        command == command_for(action, tabs@),
{
    let shown = tabs.active_id();
    match action {
        None => AppCommand::Nothing,
        Some(KeyAction::NewTab) => AppCommand::NewTab,
        Some(KeyAction::CloseTab) => if tabs.settings_active {
            AppCommand::CloseTab(SETTINGS_TAB_ID)
        } else {
            match shown {
                Some(id) => AppCommand::CloseTab(id),
                None => AppCommand::Nothing,
            }
        },
        Some(KeyAction::Quit) => AppCommand::Quit,
        Some(other) => if shown.is_none() {
            AppCommand::Nothing
        } else {
            match other {
                KeyAction::Copy => AppCommand::Copy,
                KeyAction::SelectAll => AppCommand::SelectAll,
                KeyAction::Paste => AppCommand::Paste,
                KeyAction::Find => AppCommand::Find,
                _ => AppCommand::Interrupt,
            }
        },
    }
}

/// The terminal that gets keys: the shown one, while its program runs.
pub open spec fn key_target_of(tabs: TabsView) -> Option<i32> {
    match tabs.shown() {
        Some(session) => if session.terminal_active {
            Some(session.id)
        } else {
            None
        },
        None => None,
    }
}

/// The terminal that gets keys.
pub fn key_target(tabs: &TabManager) -> (target: Option<i32>)
    ensures
        target == key_target_of(tabs@),
{
    match tabs.active_session() {
        Some(session) => if session.terminal_active {
            Some(session.id)
        } else {
            None
        },
        None => None,
    }
}

/// Whether a key goes no further: it was a shortcut, and either the terminal is
/// not to get it too or there is none to get it. The state of the tabs is the
/// one after the shortcut.
pub fn is_consumed(decision: KeyDecision, tabs: &TabManager) -> (consumed: bool)
    ensures
        consumed == (decision.action is Some && (!decision.forward || key_target_of(tabs@)
            is None)),
{
    decision.action.is_some() && (!decision.forward || key_target(tabs).is_none())
}

/// A coordinate of the user interface on the grid.
pub fn grid_coordinate(value: i32) -> (coordinate: usize)
    ensures
        coordinate == (if value < 0 {
            0
        } else {
            value as int
        }),
{
    if value < 0 {
        0
    } else {
        value as usize
    }
}

/// What a change of the view comes to.
#[derive(Clone, Copy, Debug, PartialEq, Eq, Structural)]
pub enum ResizeStep {
    Nothing,
    Resize {
        columns: usize,
        rows: usize,
        /// The terminal is asked for a full frame.
        redraw: bool,
    },
}

/// Keeps sizes from terminals that a view has only while it is minimized or not
/// laid out yet.
#[derive(Clone, Copy, Debug, PartialEq, Eq, Structural)]
pub struct ResizeGuard {
    pub suspended: bool,
}

/// Whether a size is one that a terminal may get.
pub open spec fn usable_size(columns: int, rows: int, laid_out: bool) -> bool {
    laid_out && columns > 2 && rows > 1
}

/// The guard after a change of the view.
pub open spec fn guard_after(
    guard: ResizeGuard,
    columns: int,
    rows: int,
    laid_out: bool,
    has_terminal: bool,
) -> ResizeGuard {
    ResizeGuard {
        suspended: if !usable_size(columns, rows, laid_out) {
            true
        } else if has_terminal {
            false
        } else {
            guard.suspended
        },
    }
}

/// What a change of the view comes to.
pub open spec fn resize_step(
    guard: ResizeGuard,
    columns: int,
    rows: int,
    laid_out: bool,
    has_terminal: bool,
) -> ResizeStep {
    if usable_size(columns, rows, laid_out) && has_terminal {
        ResizeStep::Resize {
            columns: columns as usize,
            rows: rows as usize,
            redraw: guard.suspended,
        }
    } else {
        ResizeStep::Nothing
    }
}

impl ResizeGuard {
    pub fn new() -> (guard: ResizeGuard)
        ensures
            guard == (ResizeGuard { suspended: false }),
    {
        ResizeGuard { suspended: false }
    }

    /// Takes in a change of the view. `laid_out` tells that the window is not
    /// minimized and that its terminal is larger than a cell.
    pub fn resized(&mut self, columns: i32, rows: i32, laid_out: bool, has_terminal: bool) -> (step:
        ResizeStep)
        ensures
            step == resize_step(*old(self), columns as int, rows as int, laid_out, has_terminal),
            *final(self) == guard_after(
                *old(self),
                columns as int,
                rows as int,
                laid_out,
                has_terminal,
            ),
    {
        if !laid_out || columns <= 2 || rows <= 1 {
            self.suspended = true;
            return ResizeStep::Nothing;
        }
        if !has_terminal {
            return ResizeStep::Nothing;
        }
        let redraw = self.suspended;
        self.suspended = false;
        ResizeStep::Resize { columns: columns as usize, rows: rows as usize, redraw }
    }
}

/// Whether the settings may be written, or the message that they may not.
pub fn ensure_settings_writable(writable: bool) -> (result: Result<(), String>)
    ensures
        text::verdict(result) == (if writable {
            Ok(())
        } else {
            Err("错误：settings.toml 当前无效，请先修改配置文件；应用不会覆盖该文件。"@)
        }),
{
    if writable {
        Ok(())
    } else {
        Err("错误：settings.toml 当前无效，请先修改配置文件；应用不会覆盖该文件。".to_owned())
    }
}

/// A message on the settings page.
#[derive(Debug, PartialEq, Eq)]
pub struct SettingsMessage {
    pub text: String,
    pub error: bool,
}

/// What the settings page says after the settings were saved, or could not be.
pub fn save_message(saved: Result<(), String>, success: &str) -> (message: SettingsMessage)
    ensures
        message.error == (saved is Err),
        message.text@ == (match text::verdict(saved) {
            Ok(()) => success@,
            Err(error) => "错误：保存设置失败："@ + error,
        }),
{
    match saved {
        Ok(()) => SettingsMessage { text: success.to_owned(), error: false },
        Err(error) => SettingsMessage {
            text: text::concat("错误：保存设置失败：", error.as_str()),
            error: true,
        },
    }
}

/// Where the first profile with an id stands, or the number of profiles.
pub open spec fn place_of_profile(list: Seq<ProfileView>, id: int) -> int
    decreases list.len(),
{
    if list.len() == 0 || list.first().id == id {
        0
    } else {
        1 + place_of_profile(list.drop_first(), id)
    }
}

proof fn lemma_place_of_profile(list: Seq<ProfileView>, id: int)
    ensures
        0 <= place_of_profile(list, id) <= list.len(),
        place_of_profile(list, id) < list.len() ==> list[place_of_profile(list, id)].id == id,
        forall|i: int| 0 <= i < place_of_profile(list, id) ==> (#[trigger] list[i]).id != id,
    decreases list.len(),
{
    if list.len() > 0 && list.first().id != id {
        lemma_place_of_profile(list.drop_first(), id);
        assert forall|i: int| 0 <= i < place_of_profile(list, id) implies (
        #[trigger] list[i]).id != id by {
            if i > 0 {
                assert(list.drop_first()[i - 1] == list[i]);
            }
        }
    }
}

proof fn lemma_same_place(list: Seq<ShellProfile>, id: i32)
    ensures
        settings::profile_place(list, id) == place_of_profile(
            settings::profile_views(list),
            id as int,
        ),
    decreases list.len(),
{
    if list.len() > 0 && list.first().id != id {
        lemma_same_place(list.drop_first(), id);
        assert(settings::profile_views(list).drop_first() =~= settings::profile_views(
            list.drop_first(),
        ));
    }
    if list.len() > 0 {
        assert(settings::profile_views(list).first() == list.first()@);
    }
}

/// The id under which a profile is saved: a negative one asks for a new one.
pub open spec fn saved_id(current: SettingsView, id: i32) -> int {
    if id < 0 {
        profiles::fresh_id(current.next_profile_id)
    } else {
        id as int
    }
}

/// The settings with a profile: in the place of the one with its id, else behind
/// the others. The first one becomes the default.
pub open spec fn with_profile(current: SettingsView, profile: ProfileView, id: i32) -> SettingsView {
    let resolved = saved_id(current, id);
    let saved = ProfileView { id: resolved, ..profile };
    let place = place_of_profile(current.profiles, resolved);
    SettingsView {
        profiles: if place < current.profiles.len() {
            current.profiles.update(place, saved)
        } else {
            current.profiles.push(saved)
        },
        next_profile_id: if id < 0 {
            profiles::id_after(resolved)
        } else {
            current.next_profile_id
        },
        default_profile_id: if current.default_profile_id is None {
            Some(resolved as i32)
        } else {
            current.default_profile_id
        },
        ..current
    }
}

/// The settings with a profile from the form, and the id of the profile.
pub fn save_profile(current: &AppSettings, profile: ShellProfile, id: i32) -> (saved: (
    AppSettings,
    i32,
))
    ensures
        saved.0@ == with_profile(current@, profile@, id),
        saved.1 == saved_id(current@, id),
{
    let ghost before = current@;
    let mut candidate = current.copy();
    let resolved: i32 = if id < 0 {
        candidate.allocate_profile_id()
    } else {
        id
    };
    let ghost numbered = candidate@;
    let mut profile = profile;
    let ghost form = profile@;
    profile.id = resolved;
    let ghost saved = profile@;
    assert(saved =~= ProfileView { id: saved_id(before, id), ..form });
    let ghost list = candidate.profiles@;
    proof {
        lemma_same_place(list, resolved);
        lemma_place_of_profile(before.profiles, resolved as int);
    }
    let place = profiles::find_id(&candidate.profiles, candidate.profiles.len(), resolved);
    assert(place == place_of_profile(before.profiles, resolved as int));
    if place < candidate.profiles.len() {
        candidate.profiles.set(place, profile);
        assert(settings::profile_views(candidate.profiles@) =~= before.profiles.update(
            place as int,
            saved,
        ));
    } else {
        candidate.profiles.push(profile);
        assert(settings::profile_views(candidate.profiles@) =~= before.profiles.push(saved));
    }
    if candidate.default_profile_id.is_none() {
        candidate.default_profile_id = Some(resolved);
    }
    assert(candidate@ =~= with_profile(before, form, id));
    (candidate, resolved)
}

/// The settings with another default profile; none where there is no such
/// profile.
pub fn set_default_profile(current: &AppSettings, id: i32) -> (changed: Option<AppSettings>)
    ensures
        changed is Some <==> place_of_profile(current@.profiles, id as int)
            < current@.profiles.len(),
        changed matches Some(next) ==> next@ == (SettingsView {
            default_profile_id: Some(id),
            ..current@
        }),
{
    proof {
        lemma_same_place(current.profiles@, id);
        lemma_place_of_profile(current@.profiles, id as int);
    }
    if current.profile(id).is_none() {
        return None;
    }
    let mut candidate = current.copy();
    candidate.default_profile_id = Some(id);
    Some(candidate)
}

/// The profiles without those that have an id.
pub open spec fn profiles_without(list: Seq<ProfileView>, id: int) -> Seq<ProfileView>
    decreases list.len(),
{
    if list.len() == 0 {
        Seq::empty()
    } else if list.last().id == id {
        profiles_without(list.drop_last(), id)
    } else {
        profiles_without(list.drop_last(), id).push(list.last())
    }
}

/// The settings without a profile; where it was the default, the first one that
/// is left becomes the default.
pub open spec fn without_profile(current: SettingsView, id: i32) -> SettingsView {
    let rest = profiles_without(current.profiles, id as int);
    SettingsView {
        profiles: rest,
        default_profile_id: if current.default_profile_id == Some(id) {
            profiles::first_id(rest)
        } else {
            current.default_profile_id
        },
        ..current
    }
}

/// The settings without a profile.
pub fn remove_profile(current: &AppSettings, id: i32) -> (next: AppSettings)
    ensures
        next@ == without_profile(current@, id),
{
    let ghost before = current@;
    let mut candidate = current.copy();
    let mut kept: Vec<ShellProfile> = Vec::new();
    let mut index: usize = 0;
    assert(settings::profile_views(kept@) == profiles_without(before.profiles.take(0), id as int));
    while index < current.profiles.len()
        invariant
            index <= current.profiles@.len(),
            before == current@,
            settings::profile_views(kept@) == profiles_without(
                before.profiles.take(index as int),
                id as int,
            ),
        decreases current.profiles.len() - index,
    {
        proof {
            assert(before.profiles.take(index + 1).drop_last() == before.profiles.take(
                index as int,
            ));
            assert(before.profiles.take(index + 1).last() == current.profiles@[index as int]@);
        }
        if current.profiles[index].id != id {
            let ghost earlier = settings::profile_views(kept@);
            let profile = current.profiles[index].copy();
            let ghost view = profile@;
            kept.push(profile);
            assert(settings::profile_views(kept@) == earlier.push(view));
        }
        index += 1;
    }
    assert(before.profiles.take(index as int) == before.profiles);
    let was_default = match candidate.default_profile_id {
        Some(default_id) => default_id == id,
        None => false,
    };
    if was_default {
        if kept.len() > 0 {
            assert(settings::profile_views(kept@)[0] == kept@[0]@);
            candidate.default_profile_id = Some(kept[0].id);
        } else {
            candidate.default_profile_id = None;
        }
    }
    candidate.profiles = kept;
    assert(candidate@ =~= without_profile(before, id));
    candidate
}

/// The profile that the form shows after another one was removed: the default
/// one, else the first one.
pub fn profile_after_removal(current: &AppSettings) -> (profile: Option<&ShellProfile>)
    ensures
        ({
            let default_found = current.default_profile_id is Some && settings::profile_place(
                current.profiles@,
                current.default_profile_id->0,
            ) < current.profiles@.len();
            if default_found {
                settings::found_profile(*current, current.default_profile_id->0, profile)
            } else {
                match profile {
                    Some(profile) => current.profiles@.len() > 0 && *profile
                        == current.profiles@[0],
                    None => current.profiles@.len() == 0,
                }
            }
        }),
{
    match current.default_profile() {
        Some(profile) => {
            proof {
                lemma_same_place(current.profiles@, current.default_profile_id->0);
                lemma_place_of_profile(
                    settings::profile_views(current.profiles@),
                    current.default_profile_id->0 as int,
                );
            }
            Some(profile)
        },
        None => if current.profiles.len() > 0 {
            Some(&current.profiles[0])
        } else {
            None
        },
    }
}

/// The settings with a font from the list and its size within the limits, or
/// what is wrong with the choice.
pub open spec fn with_font(
    current: SettingsView,
    fonts: Seq<Seq<char>>,
    index: int,
    size: int,
) -> Result<SettingsView, Seq<char>> {
    let place = if index < 0 {
        0
    } else {
        index
    };
    if place < fonts.len() {
        Ok(
            SettingsView {
                font_family: fonts[place],
                font_size: settings::clamped(size, MIN_FONT_SIZE as int, MAX_FONT_SIZE as int),
                ..current
            },
        )
    } else {
        Err("错误：请选择有效的等宽字体"@)
    }
}

/// Settings or a message.
pub open spec fn candidate_outcome(result: Result<AppSettings, String>) -> Result<
    SettingsView,
    Seq<char>,
> {
    match result {
        Ok(candidate) => Ok(candidate@),
        Err(message) => Err(message@),
    }
}

/// The settings with a font from the list.
pub fn save_font(current: &AppSettings, fonts: &Vec<String>, index: i32, size: i32) -> (result:
    Result<AppSettings, String>)
    ensures
        candidate_outcome(result) == with_font(
            current@,
            text::texts(fonts@),
            index as int,
            size as int,
        ),
{
    let place = grid_coordinate(index);
    if place >= fonts.len() {
        return Err("错误：请选择有效的等宽字体".to_owned());
    }
    let mut candidate = current.copy();
    candidate.font_family = fonts[place].clone();
    candidate.font_size = if size < MIN_FONT_SIZE {
        MIN_FONT_SIZE
    } else if size > MAX_FONT_SIZE {
        MAX_FONT_SIZE
    } else {
        size
    };
    assert(text::texts(fonts@)[place as int] == fonts@[place as int]@);
    Ok(candidate)
}

/// The settings with another shortcut for an action.
pub fn save_shortcut(
    current: &AppSettings,
    action: &str,
    shortcut: &str,
    pass_through: bool,
) -> (result: Result<AppSettings, String>)
    ensures
        candidate_outcome(result) == (match shortcuts::updated_shortcuts(
            current@.shortcuts,
            action@,
            shortcut@,
            pass_through,
        ) {
            Ok(list) => Ok::<SettingsView, Seq<char>>(
                SettingsView { shortcuts: list, ..current@ },
            ),
            Err(message) => Err(message),
        }),
{
    let mut candidate = current.copy();
    match shortcuts::update_shortcut(&mut candidate, action, shortcut, pass_through) {
        Ok(()) => Ok(candidate),
        Err(message) => Err(message),
    }
}

/// A profile that was saved is found under its id, and the other profiles stay.
pub proof fn saved_profiles_are_found(current: SettingsView, profile: ProfileView, id: i32)
    ensures
        ({
            let after = with_profile(current, profile, id);
            let resolved = saved_id(current, id);
            let place = place_of_profile(after.profiles, resolved);
            &&& place < after.profiles.len()
            &&& after.profiles[place] == (ProfileView { id: resolved, ..profile })
            &&& forall|i: int|
                0 <= i < current.profiles.len() && i != place ==> #[trigger] after.profiles[i]
                    == current.profiles[i]
            &&& after.default_profile_id is Some
        }),
{
    let resolved = saved_id(current, id);
    let after = with_profile(current, profile, id);
    lemma_place_of_profile(current.profiles, resolved);
    lemma_place_of_profile(after.profiles, resolved);
    let old_place = place_of_profile(current.profiles, resolved);
    let place = place_of_profile(after.profiles, resolved);
    assert(after.profiles[old_place].id == resolved);
    if place < old_place {
        assert(current.profiles[place].id != resolved);
    }
}

proof fn lemma_without(list: Seq<ProfileView>, id: int)
    ensures
        forall|i: int|
            0 <= i < profiles_without(list, id).len() ==> (#[trigger] profiles_without(
                list,
                id,
            )[i]).id != id && list.contains(profiles_without(list, id)[i]),
        forall|i: int|
            0 <= i < list.len() && (#[trigger] list[i]).id != id ==> profiles_without(
                list,
                id,
            ).contains(list[i]),
    decreases list.len(),
{
    if list.len() > 0 {
        let shorter = list.drop_last();
        lemma_without(shorter, id);
        let before = profiles_without(shorter, id);
        let after = profiles_without(list, id);
        assert forall|i: int| 0 <= i < after.len() implies (#[trigger] after[i]).id != id
            && list.contains(after[i]) by {
            if i < before.len() {
                assert(after[i] == before[i]);
                assert(shorter.contains(before[i]));
                let j = choose|j: int| 0 <= j < shorter.len() && shorter[j] == before[i];
                assert(list[j] == after[i]);
            } else {
                assert(list[list.len() - 1] == after[i]);
            }
        }
        assert forall|i: int| 0 <= i < list.len() && (#[trigger] list[i]).id != id implies after.contains(
            list[i],
        ) by {
            if i < shorter.len() {
                assert(shorter[i].id != id);
                assert(before.contains(shorter[i]));
                let j = choose|j: int| 0 <= j < before.len() && before[j] == shorter[i];
                assert(after[j] == list[i]);
            } else {
                assert(after[after.len() - 1] == list[i]);
            }
        }
    }
}

/// A profile that was removed is gone, every other one stays, and the default is
/// never the one that was removed.
pub proof fn removed_profiles_are_gone(current: SettingsView, id: i32)
    requires
        forall|i: int|
            0 <= i < current.profiles.len() ==> i32::MIN <= (#[trigger] current.profiles[i]).id
                <= i32::MAX,
    ensures
        ({
            let after = without_profile(current, id);
            &&& forall|i: int|
                0 <= i < after.profiles.len() ==> (#[trigger] after.profiles[i]).id != id
            &&& forall|i: int|
                0 <= i < current.profiles.len() && (#[trigger] current.profiles[i]).id != id
                    ==> after.profiles.contains(current.profiles[i])
            &&& after.default_profile_id != Some(id)
        }),
{
    lemma_without(current.profiles, id as int);
    let rest = profiles_without(current.profiles, id as int);
    if rest.len() > 0 {
        assert(rest[0].id != id && current.profiles.contains(rest[0]));
    }
}

/// New and closed tabs and the end of the application do not need a terminal that is
/// shown; everything else does, and without one nothing happens. What is closed is
/// the tab that is shown.
pub proof fn shortcuts_act_on_what_is_shown(action: KeyAction, tabs: TabsView)
    ensures
        ({
            let command = command_for(Some(action), tabs);
            let shown = tabs.shown();
            &&& command_for(None, tabs) is Nothing
            &&& action is NewTab ==> command is NewTab
            &&& action is Quit ==> command is Quit
            &&& action is CloseTab && tabs.settings_active ==> command == AppCommand::CloseTab(
                -1i32,
            )
            &&& action is CloseTab && !tabs.settings_active && shown is Some ==> command
                == AppCommand::CloseTab(shown->0.id)
            &&& shown is None && !(action is NewTab) && !(action is Quit) && !(action is CloseTab
                && tabs.settings_active) ==> command is Nothing
            &&& shown is Some ==> {
                &&& action is Copy <==> command is Copy
                &&& action is SelectAll <==> command is SelectAll
                &&& action is Paste <==> command is Paste
                &&& action is Find <==> command is Find
                &&& action is Interrupt <==> command is Interrupt
            }
        }),
{
}

/// Keys go to the terminal that is shown while its program runs, and to no other.
pub proof fn keys_go_to_the_running_terminal(tabs: TabsView)
    ensures
        tabs.shown() matches Some(session) ==> (session.terminal_active ==> key_target_of(tabs)
            == Some(session.id)) && (!session.terminal_active ==> key_target_of(tabs) is None),
        tabs.shown() is None ==> key_target_of(tabs) is None,
{
}

/// A terminal gets a new size if and only if the view is laid out and has more than
/// two columns and more than one row, and it gets the numbers of the view. The
/// first such size after others has everything drawn anew.
pub proof fn terminals_get_usable_sizes(
    guard: ResizeGuard,
    columns: int,
    rows: int,
    laid_out: bool,
    has_terminal: bool,
)
    requires
        0 <= columns <= i32::MAX,
        0 <= rows <= i32::MAX,
    ensures
        ({
            let step = resize_step(guard, columns, rows, laid_out, has_terminal);
            let after = guard_after(guard, columns, rows, laid_out, has_terminal);
            let fits = laid_out && columns >= 3 && rows >= 2;
            &&& step is Resize <==> fits && has_terminal
            &&& step is Resize ==> step->columns == columns && step->rows == rows && step->redraw
                == guard.suspended && !after.suspended
            &&& !fits ==> after.suspended
            &&& fits && !has_terminal ==> after == guard
        }),
{
}

/// A profile that is saved with a negative id gets a new one, behind which the next
/// one goes on; a profile with an id that is known takes the place of the one that
/// has it. The first profile that is saved becomes the default, and a default that
/// is there stays.
pub proof fn saved_profiles_are_new_or_replace(
    current: SettingsView,
    profile: ProfileView,
    id: i32,
)
    ensures
        ({
            let after = with_profile(current, profile, id);
            let resolved = saved_id(current, id);
            let known = exists|i: int|
                0 <= i < current.profiles.len() && (#[trigger] current.profiles[i]).id == resolved;
            &&& id >= 0 ==> resolved == id && after.next_profile_id == current.next_profile_id
            &&& id < 0 && current.next_profile_id >= 1 ==> resolved == current.next_profile_id
            &&& id < 0 && 1 <= current.next_profile_id < i32::MAX ==> after.next_profile_id
                == current.next_profile_id + 1
            &&& known ==> after.profiles.len() == current.profiles.len()
            &&& !known ==> after.profiles.len() == current.profiles.len() + 1
                && after.profiles.last() == (ProfileView { id: resolved, ..profile })
            &&& current.default_profile_id is Some ==> after.default_profile_id
                == current.default_profile_id
            &&& current.default_profile_id is None ==> after.default_profile_id == Some(
                resolved as i32,
            )
            &&& after.shortcuts == current.shortcuts
            &&& after.font_family == current.font_family
            &&& after.font_size == current.font_size
        }),
{
    lemma_place_of_profile(current.profiles, saved_id(current, id));
}

/// Removing a profile keeps the others in their order. Where the default is removed,
/// the first one that is left takes its place; another default stays.
pub proof fn removing_keeps_the_order(current: SettingsView, id: i32)
    ensures
        ({
            let after = without_profile(current, id);
            &&& after.profiles == current.profiles.filter(
                |profile: ProfileView| profile.id != id,
            )
            &&& current.default_profile_id != Some(id) ==> after.default_profile_id
                == current.default_profile_id
            &&& current.default_profile_id == Some(id) && after.profiles.len() > 0
                ==> after.default_profile_id == Some(after.profiles[0].id as i32)
            &&& current.default_profile_id == Some(id) && after.profiles.len() == 0
                ==> after.default_profile_id is None
            &&& after.next_profile_id == current.next_profile_id
            &&& after.shortcuts == current.shortcuts
        }),
{
    lemma_without_is_filtered(current.profiles, id as int);
    assert(current.profiles.filter(|profile: ProfileView| profile.id != id as int)
        =~= current.profiles.filter(|profile: ProfileView| profile.id != id)) by {
        lemma_same_filter(current.profiles, id);
    }
}

proof fn lemma_without_is_filtered(list: Seq<ProfileView>, id: int)
    ensures
        profiles_without(list, id) == list.filter(|profile: ProfileView| profile.id != id),
    decreases list.len(),
{
    reveal(Seq::filter);
    if list.len() > 0 {
        lemma_without_is_filtered(list.drop_last(), id);
    } else {
        assert(profiles_without(list, id) =~= list.filter(
            |profile: ProfileView| profile.id != id,
        ));
    }
}

proof fn lemma_same_filter(list: Seq<ProfileView>, id: i32)
    ensures
        list.filter(|profile: ProfileView| profile.id != id as int) == list.filter(
            |profile: ProfileView| profile.id != id,
        ),
    decreases list.len(),
{
    reveal(Seq::filter);
    if list.len() > 0 {
        lemma_same_filter(list.drop_last(), id);
    }
}

/// A font that is chosen from the list is the one at its place, and its size is kept
/// between 8 and 36. A place behind the list is refused; nothing else changes.
pub proof fn chosen_fonts_are_taken(
    current: SettingsView,
    fonts: Seq<Seq<char>>,
    index: int,
    size: int,
)
    ensures
        ({
            let after = with_font(current, fonts, index, size);
            &&& 0 <= index < fonts.len() ==> (after matches Ok(next) && next.font_family
                == fonts[index])
            &&& index >= fonts.len() && index >= 0 ==> after is Err
            &&& after matches Ok(next) ==> {
                &&& 8 <= next.font_size <= 36
                &&& 8 <= size <= 36 ==> next.font_size == size
                &&& size < 8 ==> next.font_size == 8
                &&& size > 36 ==> next.font_size == 36
                &&& next == (SettingsView {
                    font_family: next.font_family,
                    font_size: next.font_size,
                    ..current
                })
            }
        }),
{
}

} // verus!
