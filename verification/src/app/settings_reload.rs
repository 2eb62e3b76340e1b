//! What happens when the settings file has changed.

use vstd::prelude::*;
use vstd::string::*;
use crate::app::settings;
use crate::app::settings::profiles;
use crate::app::settings::profiles::DetectedShell;
use crate::app::settings::storage;
use crate::app::settings::{AppSettings, SettingsView};
use crate::text;

verus! {

/// What the application does with settings that were read anew.
#[derive(Debug)]
pub struct Reload {
    pub settings: AppSettings,
    pub message: String,
    /// The message tells of an error, and the file is not written.
    pub error: bool,
    /// The terminals are drawn with another font.
    pub font_changed: bool,
}

/// The settings that count after the file was read: its own, or the defaults
/// where it is wrong.
pub open spec fn settings_after(
    read: Result<SettingsView, Seq<char>>,
    found: Seq<profiles::ShellView>,
) -> SettingsView {
    match read {
        Ok(next) => next,
        Err(_) => settings::normalized(settings::default_settings(), Seq::empty(), found),
    }
}

/// The message about the file.
pub open spec fn reload_message(read: Result<SettingsView, Seq<char>>) -> Seq<char> {
    match read {
        Ok(_) => "settings.toml 已重新加载。"@,
        Err(error) => storage::wrong_file_message(error),
    }
}

/// Takes over settings that were read anew.
pub fn reload(
    current: &AppSettings,
    read: Result<AppSettings, String>,
    found: &Vec<DetectedShell>,
) -> (result: Reload)
    ensures
        result.settings@ == settings_after(
            storage::settings_outcome(read),
            profiles::shell_views(found@),
        ),
        result.message@ == reload_message(storage::settings_outcome(read)),
        result.error == (read is Err),
        result.font_changed == (current@.font_family != result.settings@.font_family
            || current@.font_size != result.settings@.font_size),
{
    let (settings, message, error) = match read {
        Ok(settings) => (settings, "settings.toml 已重新加载。".to_owned(), false),
        Err(error) => (
            AppSettings::built_in_defaults(found),
            storage::describe_wrong_file(error.as_str()),
            true,
        ),
    };
    let font_changed = !text::same_text(
        current.font_family.as_str(),
        settings.font_family.as_str(),
    ) || current.font_size != settings.font_size;
    Reload { settings, message, error, font_changed }
}

/// The profile that the settings page shows: the selected one, or the default
/// one where that is gone.
pub fn profile_to_show(current: &AppSettings, selected: i32) -> (profile: Option<
    &settings::ShellProfile,
>)
    ensures
        settings::profile_place(current.profiles@, selected) < current.profiles@.len()
            ==> settings::found_profile(*current, selected, profile),
        settings::profile_place(current.profiles@, selected) == current.profiles@.len() ==> (
        match current.default_profile_id {
            Some(id) => settings::found_profile(*current, id, profile),
            None => profile is None,
        }),
{
    match current.profile(selected) {
        Some(profile) => Some(profile),
        None => current.default_profile(),
    }
}

/// Settings that were read anew count as they are; where the file is wrong, the
/// built-in ones do, with the shells that were found.
pub proof fn wrong_files_fall_back(
    read: Result<SettingsView, Seq<char>>,
    found: Seq<profiles::ShellView>,
)
    ensures
        read matches Ok(next) ==> settings_after(read, found) == next,
        read is Err ==> settings_after(read, found).font_size == 15 && settings_after(
            read,
            found,
        ).scrollback_lines == 10_000 && settings_after(read, found).scroll_lines == 3
            && settings_after(read, found).profiles == profiles::tidied(
            profiles::filled(settings::default_settings_in_order(), Seq::empty(), found).profiles,
        ),
        read matches Err(error) ==> reload_message(read) == storage::wrong_file_message(error),
{
    if read is Err {
        settings::normalizing_keeps_what_is_in_order(
            settings::default_settings(),
            Seq::empty(),
            found,
        );
    }
}

} // verus!
