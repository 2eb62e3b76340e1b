//! Where settings come from at the start, and when the file has changed.

use vstd::prelude::*;
use vstd::string::*;
use crate::app::settings;
use crate::app::settings::profiles;
use crate::app::settings::profiles::{DetectedShell, PathFacts, ProfileFiles};
use crate::app::settings::{AppSettings, SettingsView};
use crate::text;

verus! {

/// The settings at the start of the application.
#[derive(Debug)]
pub struct InitialSettings {
    pub settings: AppSettings,
    pub error: Option<String>,
    /// Whether the application may write the file.
    pub writable: bool,
}

/// What came of reading the settings file.
#[derive(Debug, PartialEq, Eq)]
pub enum FileSnapshot {
    Contents(String),
    Error(String),
}

/// What a `FileSnapshot` holds.
pub enum SnapshotView {
    Contents(Seq<char>),
    Error(Seq<char>),
}

impl View for FileSnapshot {
    type V = SnapshotView;

    open spec fn view(&self) -> SnapshotView {
        match *self {
            FileSnapshot::Contents(contents) => SnapshotView::Contents(contents@),
            FileSnapshot::Error(message) => SnapshotView::Error(message@),
        }
    }
}

impl FileSnapshot {
    fn same(&self, other: &FileSnapshot) -> (same: bool)
        ensures
            same == (self@ == other@),
    {
        match (self, other) {
            (FileSnapshot::Contents(left), FileSnapshot::Contents(right)) => text::same_text(
                left.as_str(),
                right.as_str(),
            ),
            (FileSnapshot::Error(left), FileSnapshot::Error(right)) => text::same_text(
                left.as_str(),
                right.as_str(),
            ),
            _ => false,
        }
    }

    fn copy(&self) -> (copy: FileSnapshot)
        ensures
            copy@ == self@,
    {
        match self {
            FileSnapshot::Contents(contents) => FileSnapshot::Contents(contents.clone()),
            FileSnapshot::Error(message) => FileSnapshot::Error(message.clone()),
        }
    }
}

/// Notices when the settings file changes.
pub struct SettingsWatcher {
    snapshot: Option<FileSnapshot>,
}

impl View for SettingsWatcher {
    type V = Option<SnapshotView>;

    closed spec fn view(&self) -> Option<SnapshotView> {
        match self.snapshot {
            Some(snapshot) => Some(snapshot@),
            None => None,
        }
    }
}

/// A snapshot that may be missing.
pub open spec fn seen(snapshot: Option<FileSnapshot>) -> Option<SnapshotView> {
    match snapshot {
        Some(snapshot) => Some(snapshot@),
        None => None,
    }
}

/// What a look at the file reports: what it holds, where that was not known.
pub open spec fn news_of(known: Option<SnapshotView>, current: SnapshotView) -> Option<
    SnapshotView,
> {
    if known == Some(current) {
        None
    } else {
        Some(current)
    }
}

impl SettingsWatcher {
    /// Starts from what the file holds now; without a place for the file there
    /// is nothing to watch.
    pub fn new(snapshot: Option<FileSnapshot>) -> (watcher: SettingsWatcher)
        ensures
            watcher@ == seen(snapshot),
    {
        SettingsWatcher { snapshot }
    }

    /// Takes in what the file holds now. Where that is news, it is given back to
    /// be read: the contents, or the error.
    pub fn poll(&mut self, snapshot: Option<FileSnapshot>) -> (news: Option<FileSnapshot>)
        ensures
            snapshot is None ==> news is None && final(self)@ == old(self)@,
            snapshot matches Some(current) ==> {
                &&& final(self)@ == Some(current@)
                &&& seen(news) == news_of(old(self)@, current@)
            },
    {
        let current = match snapshot {
            Some(current) => current,
            None => {
                return None;
            },
        };
        let known = match &self.snapshot {
            Some(snapshot) => snapshot.same(&current),
            None => false,
        };
        if known {
            return None;
        }
        let news = current.copy();
        self.snapshot = Some(current);
        Some(news)
    }
}

/// What is reported over some looks at the file, one after another.
pub open spec fn reports(before: Option<SnapshotView>, looks: Seq<SnapshotView>) -> Seq<SnapshotView>
    decreases looks.len(),
{
    if looks.len() == 0 {
        Seq::empty()
    } else {
        let earlier = reports(before, looks.drop_last());
        let known = if looks.len() == 1 {
            before
        } else {
            Some(looks[looks.len() - 2])
        };
        match news_of(known, looks.last()) {
            Some(news) => earlier.push(news),
            None => earlier,
        }
    }
}

/// A file that stays as it is, is reported once at most, however often it is
/// looked at: not at all where it was known, and at the first look else.
pub proof fn unchanged_files_are_reported_once(
    before: Option<SnapshotView>,
    looks: Seq<SnapshotView>,
    contents: SnapshotView,
)
    requires
        looks.len() > 0,
        forall|i: int| 0 <= i < looks.len() ==> looks[i] == contents,
    ensures
        reports(before, looks) == (if before == Some(contents) {
            Seq::empty()
        } else {
            seq![contents]
        }),
    decreases looks.len(),
{
    assert(looks.last() == contents);
    if looks.len() == 1 {
        assert(reports(before, looks.drop_last()) =~= Seq::<SnapshotView>::empty());
        assert(Seq::<SnapshotView>::empty().push(contents) =~= seq![contents]);
    } else {
        assert(looks[looks.len() - 2] == contents);
        unchanged_files_are_reported_once(before, looks.drop_last(), contents);
    }
}

/// Settings or an error message.
pub open spec fn settings_outcome(result: Result<AppSettings, String>) -> Result<
    SettingsView,
    Seq<char>,
> {
    match result {
        Ok(settings) => Ok(settings@),
        Err(message) => Err(message@),
    }
}

/// Whether a result is what settings that were read come to, with these facts
/// about their paths and these names for the shells they list.
pub open spec fn accepted(
    read: SettingsView,
    facts: Seq<PathFacts>,
    names: Seq<Seq<char>>,
    found: Seq<profiles::ShellView>,
) -> Result<SettingsView, Seq<char>> {
    match settings::checked(read, facts) {
        Err(message) => Err(message),
        Ok(()) => Ok(settings::normalized(read, names, found)),
    }
}

/// Takes over settings that were read: they are checked, then normalized.
pub fn accept(
    read: AppSettings,
    files: &Vec<ProfileFiles>,
    found: &Vec<DetectedShell>,
) -> (result: Result<AppSettings, String>)
    requires
        files@.len() == read.profiles@.len(),
    ensures
        exists|facts: Seq<PathFacts>, names: Seq<Seq<char>>|
            #![trigger profiles::all_agree(facts, files@, read@.profiles), profiles::names_for(
                names,
                read@.shells,
            )]
            profiles::all_agree(facts, files@, read@.profiles) && profiles::names_for(
                names,
                read@.shells,
            ) && settings_outcome(result) == accepted(
                read@,
                facts,
                names,
                profiles::shell_views(found@),
            ),
{
    let mut settings = read;
    let ghost before = read@;
    let checked = settings.validate(files);
    let ghost facts = choose|facts: Seq<PathFacts>| #[trigger]
        profiles::all_agree(facts, files@, before.profiles) && text::verdict(checked)
            == settings::checked(
            before,
            facts,
        );
    if let Err(message) = checked {
        proof {
            let names = Seq::new(
                before.shells.len(),
                |i: int|
                    if profiles::names_file(before.shells[i]) {
                        profiles::stem_of(profiles::last_part(before.shells[i]))
                    } else {
                        seq!['x']
                    },
            );
            assert forall|i: int| 0 <= i < names.len() implies profiles::may_name(
                before.shells[i],
                #[trigger] names[i],
            ) by {
                profiles::lemma_last_dot(profiles::last_part(before.shells[i]));
            }
            assert(profiles::names_for(names, before.shells));
            assert(profiles::all_agree(facts, files@, before.profiles));
        }
        return Err(message);
    }
    settings.normalize(found);
    proof {
        let names = choose|names: Seq<Seq<char>>| #[trigger]
            profiles::names_for(names, before.shells) && settings@
                == settings::normalized(before, names, profiles::shell_views(found@));
        assert(profiles::names_for(names, before.shells));
        assert(profiles::all_agree(facts, files@, before.profiles));
    }
    Ok(settings)
}

/// What came of the attempt to read the settings, and where there was no file,
/// to write one.
#[derive(Debug)]
pub enum LoadOutcome {
    /// There is no place for the file.
    NoDirectory,
    /// The file was read.
    Read(Result<AppSettings, String>),
    /// There was no file; the defaults were written, or could not be.
    Created(Result<(), String>),
    /// The file could not be read.
    Unreadable(String),
}

/// The message for a settings file that is wrong.
pub open spec fn wrong_file_message(error: Seq<char>) -> Seq<char> {
    "设置文件错误："@ + error + "。当前使用内置默认设置，请修正 settings.toml。"@
}

pub fn describe_wrong_file(error: &str) -> (message: String)
    ensures
        message@ == wrong_file_message(error@),
{
    text::concat3("设置文件错误：", error, "。当前使用内置默认设置，请修正 settings.toml。")
}

/// What is shown to the user at the start, if anything.
pub open spec fn load_message(outcome: LoadOutcome) -> Option<Seq<char>> {
    match outcome {
        LoadOutcome::NoDirectory => Some("无法确定用户配置目录，当前使用内置默认设置。"@),
        LoadOutcome::Read(Ok(_)) => None,
        LoadOutcome::Read(Err(error)) => Some(wrong_file_message(error@)),
        LoadOutcome::Created(Ok(())) => None,
        LoadOutcome::Created(Err(error)) => Some(
            "无法生成设置文件："@ + error@ + "。当前使用内置默认设置。"@,
        ),
        LoadOutcome::Unreadable(error) => Some(
            "无法读取设置文件："@ + error@ + "。当前使用内置默认设置。"@,
        ),
    }
}

/// The settings to start with: those of the file, else the defaults. A file
/// that is wrong, or that could not be read or written, is not written later
/// either.
pub fn load_or_create(outcome: LoadOutcome, found: &Vec<DetectedShell>) -> (initial: InitialSettings)
    ensures
        text::optional(initial.error) == load_message(outcome),
        initial.writable == (load_message(outcome) is None),
        initial.settings@ == (match outcome {
            LoadOutcome::Read(Ok(read)) => read@,
            _ => settings::normalized(
                settings::default_settings(),
                Seq::empty(),
                profiles::shell_views(found@),
            ),
        }),
{
    let error = match outcome {
        LoadOutcome::NoDirectory => Some(
            "无法确定用户配置目录，当前使用内置默认设置。".to_owned(),
        ),
        LoadOutcome::Read(Ok(settings)) => {
            return InitialSettings { settings, error: None, writable: true };
        },
        LoadOutcome::Read(Err(error)) => Some(describe_wrong_file(error.as_str())),
        LoadOutcome::Created(Ok(())) => None,
        LoadOutcome::Created(Err(error)) => Some(
            text::concat3("无法生成设置文件：", error.as_str(), "。当前使用内置默认设置。"),
        ),
        LoadOutcome::Unreadable(error) => Some(
            text::concat3("无法读取设置文件：", error.as_str(), "。当前使用内置默认设置。"),
        ),
    };
    let writable = error.is_none();
    InitialSettings { settings: AppSettings::built_in_defaults(found), error, writable }
}

/// The file that settings are saved to, or why they cannot be saved.
pub fn save(path: Option<String>) -> (target: Result<String, String>)
    ensures
        text::outcome(target) == (match text::optional(path) {
            Some(path) => Ok(path),
            None => Err("无法确定用户配置目录"@),
        }),
{
    match path {
        Some(path) => Ok(path),
        None => Err("无法确定用户配置目录".to_owned()),
    }
}

/// A look at the file has news if and only if the file holds something else than
/// was known, and the news is what it holds.
pub proof fn changes_are_reported(known: Option<SnapshotView>, current: SnapshotView)
    ensures
        news_of(known, current) is Some <==> known != Some(current),
        news_of(known, current) matches Some(news) ==> news == current,
{
}

/// Settings that were read are taken over if and only if they pass the check, and
/// then they are normalized.
pub proof fn only_checked_settings_are_taken_over(
    read: SettingsView,
    facts: Seq<PathFacts>,
    names: Seq<Seq<char>>,
    found: Seq<profiles::ShellView>,
)
    ensures
        accepted(read, facts, names, found) is Ok <==> settings::checked(read, facts) is Ok,
        accepted(read, facts, names, found) matches Ok(taken) ==> taken == settings::normalized(
            read,
            names,
            found,
        ),
        accepted(read, facts, names, found) matches Err(message) ==> settings::checked(
            read,
            facts,
        ) == Err::<(), Seq<char>>(message),
{
}

/// The user is told of a problem at the start if and only if there was one: the file
/// was neither read nor written anew.
pub proof fn problems_are_told(outcome: LoadOutcome)
    ensures
        load_message(outcome) is None <==> (outcome matches LoadOutcome::Read(Ok(read))) || (
        outcome matches LoadOutcome::Created(Ok(written))),
{
}

} // verus!
