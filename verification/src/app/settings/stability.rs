//! Settings that were accepted once are accepted again, as they are.

use vstd::prelude::*;
use crate::app::settings;
use crate::app::settings::profiles;
use crate::app::settings::profiles::PathFacts;
use crate::app::settings::shortcuts;
use crate::app::settings::storage;
use crate::app::settings::{ProfileKind, ProfileView, SettingsView};
use crate::text;

verus! {

/// Whether the program of a profile is as it was typed, once white space and
/// quotation marks are taken off: nothing is left to take off.
pub open spec fn program_settles(profile: ProfileView) -> bool {
    profiles::cleaned(profiles::cleaned(profile.program)) == profiles::cleaned(profile.program)
}

proof fn lemma_blanks_go_once(arguments: Seq<Seq<char>>)
    ensures
        profiles::not_blank(profiles::not_blank(arguments)) == profiles::not_blank(arguments),
    decreases arguments.len(),
{
    if arguments.len() > 0 {
        lemma_blanks_go_once(arguments.drop_last());
        let before = profiles::not_blank(arguments.drop_last());
        if text::trimmed(arguments.last()).len() > 0 {
            assert(before.push(arguments.last()).drop_last() =~= before);
        }
    }
}

proof fn lemma_tidy_twice(profile: ProfileView)
    requires
        program_settles(profile),
    ensures
        profiles::tidy(profiles::tidy(profile)) == profiles::tidy(profile),
{
    text::trimming_twice_changes_nothing(profile.name);
    text::trimming_twice_changes_nothing(profile.ssh_host);
    text::trimming_twice_changes_nothing(profile.ssh_user);
    lemma_blanks_go_once(profile.arguments);
}

proof fn lemma_cleaned_of_trimmed(path: Seq<char>)
    requires
        profiles::cleaned(path).len() > 0,
    ensures
        text::trimmed(path).len() > 0,
{
    if text::trimmed(path).len() == 0 {
        assert(text::trimmed(path) =~= Seq::<char>::empty());
    }
}

/// A profile without an error stays one when it is tidied.
proof fn lemma_tidy_keeps_errors_away(profile: ProfileView, facts: PathFacts)
    requires
        program_settles(profile),
        text::trimmed(profile.name).len() > 0,
        profiles::launch_error(profile, facts) is None,
    ensures
        profiles::usable(profile),
        profiles::usable(profiles::tidy(profile)),
        text::trimmed(profiles::tidy(profile).name).len() > 0,
        profiles::launch_error(profiles::tidy(profile), facts) is None,
{
    text::trimming_twice_changes_nothing(profile.name);
    text::trimming_twice_changes_nothing(profile.ssh_host);
    text::trimming_twice_changes_nothing(profile.ssh_user);
    match profile.kind {
        ProfileKind::Local => {
            assert(profiles::checked_program(profile.program, facts.program) is Ok);
            lemma_cleaned_of_trimmed(profile.program);
            lemma_cleaned_of_trimmed(profiles::cleaned(profile.program));
        },
        ProfileKind::Ssh => {
            assert(profiles::checked_host(profile.ssh_host) is Ok);
            assert(profiles::checked_user(profile.ssh_user) is Ok);
        },
    }
}

/// Whether the profiles of a list are there, tidied.
spec fn all_tidied(list: Seq<ProfileView>) -> bool {
    &&& profiles::tidied(list).len() == list.len()
    &&& forall|i: int|
        0 <= i < list.len() ==> #[trigger] profiles::tidied(list)[i] == profiles::tidy(list[i])
}

proof fn lemma_tidied_profiles_pass(list: Seq<ProfileView>, facts: Seq<PathFacts>)
    requires
        profiles::first_profile_error(list, facts) is None,
        forall|i: int| 0 <= i < list.len() ==> program_settles(#[trigger] list[i]),
    ensures
        all_tidied(list),
        profiles::first_profile_error(profiles::tidied(list), facts) is None,
        profiles::tidied(profiles::tidied(list)) == profiles::tidied(list),
    decreases list.len(),
{
    if list.len() > 0 {
        let shorter = list.drop_last();
        let last = list.last();
        let fact = facts[list.len() - 1];
        assert forall|i: int| 0 <= i < shorter.len() implies program_settles(
            #[trigger] shorter[i],
        ) by {
            assert(program_settles(list[i]));
        }
        lemma_tidied_profiles_pass(shorter, facts);
        assert(program_settles(list[list.len() - 1]));
        assert(profiles::last_profile_error(list, fact) is None);
        lemma_tidy_keeps_errors_away(last, fact);
        lemma_tidy_twice(last);
        let before = profiles::tidied(shorter);
        let after = profiles::tidied(list);
        assert(after == before.push(profiles::tidy(last)));
        assert(after.drop_last() =~= before);
        assert forall|i: int| 0 <= i < list.len() implies #[trigger] after[i] == profiles::tidy(
            list[i],
        ) by {
            if i < shorter.len() {
                assert(before[i] == profiles::tidy(shorter[i]));
            }
        }
        assert(!profiles::has_id(before, last.id)) by {
            if profiles::has_id(before, last.id) {
                let i = choose|i: int| 0 <= i < before.len() && (#[trigger] before[i]).id
                    == last.id;
                assert(before[i] == profiles::tidy(shorter[i]));
                assert(shorter[i].id == last.id);
                assert(profiles::has_id(shorter, last.id));
            }
        }
        assert(profiles::last_profile_error(after, fact) is None);
        assert(profiles::tidied(after) =~= after);
    } else {
        assert(profiles::tidied(list) =~= list);
    }
}

/// Settings that were accepted, and were then written and read, are accepted
/// again and stay as they are. Left out are settings without profiles, which get
/// those of the system; programs that are quoted twice or hold white space within
/// their quotation marks; and shortcuts that clash with the default of an action
/// they do not mention.
pub proof fn accepted_settings_stay_accepted(
    before: SettingsView,
    facts: Seq<PathFacts>,
    names: Seq<Seq<char>>,
    found: Seq<profiles::ShellView>,
    other_names: Seq<Seq<char>>,
    other_found: Seq<profiles::ShellView>,
)
    requires
        storage::accepted(before, facts, names, found) is Ok,
        before.profiles.len() > 0,
        forall|i: int|
            0 <= i < before.profiles.len() ==> program_settles(#[trigger] before.profiles[i]),
        shortcuts::checked_shortcuts(shortcuts::normalized_shortcuts(before.shortcuts)) is Ok,
    ensures
        ({
            let after = storage::accepted(before, facts, names, found)->Ok_0;
            storage::accepted(after, facts, other_names, other_found) == Ok::<
                SettingsView,
                Seq<char>,
            >(after)
        }),
{
    let after = settings::normalized(before, names, found);
    let profiles_after = profiles::tidied(before.profiles);
    assert(profiles::first_profile_error(before.profiles, facts) is None);
    lemma_tidied_profiles_pass(before.profiles, facts);
    text::trimming_twice_changes_nothing(before.font_family);
    shortcuts::normalizing_twice_changes_nothing(before.shortcuts);
    assert(after.profiles == profiles_after);
    assert(profiles_after.len() > 0);
    assert(after.default_profile_id is Some ==> profiles::has_id(
        profiles_after,
        after.default_profile_id->0 as int,
    )) by {
        if before.default_profile_id is Some {
            let id = before.default_profile_id->0 as int;
            let i = choose|i: int| 0 <= i < before.profiles.len() && (
            #[trigger] before.profiles[i]).id == id;
            assert(profiles_after[i] == profiles::tidy(before.profiles[i]));
            assert(profiles_after[i].id == id);
        }
    }
    assert(settings::checked(after, facts) is Ok);
    assert(settings::normalized(after, other_names, other_found) =~= after);
}

/// Whether a shell that was found has a name, and a path with nothing around it.
pub open spec fn sound_shell(shell: profiles::ShellView) -> bool {
    &&& text::trimmed(shell.name).len() > 0
    &&& shell.program.len() > 0
    &&& profiles::cleaned(shell.program) == shell.program
}

/// The profile of a shell that was found.
spec fn profile_of_shell(shell: profiles::ShellView, id: int) -> ProfileView {
    ProfileView {
        id,
        name: shell.name,
        program: shell.program,
        arguments: shell.arguments,
        ..settings::empty_profile()
    }
}

proof fn lemma_profiles_of_shells(before: SettingsView, found: Seq<profiles::ShellView>)
    requires
        before.profiles.len() == 0,
        before.next_profile_id == 1,
        found.len() < i32::MAX,
    ensures
        ({
            let after = profiles::with_shells(before, found);
            &&& after == (SettingsView {
                profiles: after.profiles,
                next_profile_id: found.len() as int + 1,
                ..before
            })
            &&& after.profiles.len() == found.len()
            &&& forall|i: int|
                0 <= i < found.len() ==> #[trigger] after.profiles[i] == profile_of_shell(
                    found[i],
                    i + 1,
                )
        }),
    decreases found.len(),
{
    if found.len() > 0 {
        let shorter = found.drop_last();
        lemma_profiles_of_shells(before, shorter);
        let earlier = profiles::with_shells(before, shorter);
        let after = profiles::with_shells(before, found);
        assert(after.profiles == earlier.profiles.push(
            profile_of_shell(found.last(), found.len() as int),
        ));
        assert forall|i: int| 0 <= i < found.len() implies #[trigger] after.profiles[i]
            == profile_of_shell(found[i], i + 1) by {
            if i < shorter.len() {
                assert(earlier.profiles[i] == profile_of_shell(shorter[i], i + 1));
            }
        }
    } else {
        assert(before.profiles =~= profiles::with_shells(before, found).profiles);
    }
}

proof fn lemma_shells_pass(
    list: Seq<ProfileView>,
    found: Seq<profiles::ShellView>,
    facts: Seq<PathFacts>,
)
    requires
        list.len() <= found.len(),
        facts.len() == found.len(),
        forall|i: int|
            0 <= i < list.len() ==> #[trigger] list[i] == profile_of_shell(found[i], i + 1),
        forall|i: int| 0 <= i < found.len() ==> sound_shell(#[trigger] found[i]),
        forall|i: int|
            0 <= i < facts.len() ==> (#[trigger] facts[i]).program.absolute
                && facts[i].program.exists,
    ensures
        profiles::first_profile_error(list, facts) is None,
    decreases list.len(),
{
    if list.len() > 0 {
        let shorter = list.drop_last();
        let index = list.len() - 1;
        assert forall|i: int| 0 <= i < shorter.len() implies #[trigger] shorter[i]
            == profile_of_shell(found[i], i + 1) by {
            assert(list[i] == profile_of_shell(found[i], i + 1));
        }
        lemma_shells_pass(shorter, found, facts);
        assert(list[index] == profile_of_shell(found[index], index + 1));
        assert(sound_shell(found[index]));
        assert(facts[index].program.absolute && facts[index].program.exists);
        assert(!profiles::has_id(shorter, index + 1)) by {
            if profiles::has_id(shorter, index + 1) {
                let i = choose|i: int| 0 <= i < shorter.len() && (#[trigger] shorter[i]).id
                    == index + 1;
                assert(shorter[i] == profile_of_shell(found[i], i + 1));
            }
        }
        assert(profiles::first_bad_key(list[index].environment) is None);
        assert(profiles::last_profile_error(list, facts[index]) is None);
    }
}

/// The settings that the application writes at its first start are accepted
/// when they are read, and stay as they are.
pub proof fn generated_settings_are_accepted(
    found: Seq<profiles::ShellView>,
    facts: Seq<PathFacts>,
    names: Seq<Seq<char>>,
    other_found: Seq<profiles::ShellView>,
)
    requires
        0 < found.len() < i32::MAX,
        forall|i: int| 0 <= i < found.len() ==> sound_shell(#[trigger] found[i]),
        facts.len() == found.len(),
        forall|i: int|
            0 <= i < facts.len() ==> (#[trigger] facts[i]).program.absolute
                && facts[i].program.exists,
    ensures
        ({
            let made = settings::normalized(settings::default_settings(), Seq::empty(), found);
            storage::accepted(made, facts, names, other_found) == Ok::<SettingsView, Seq<char>>(
                made,
            )
        }),
{
    let start = settings::default_settings();
    let made = settings::normalized(start, Seq::empty(), found);
    shortcuts::presets_pass_the_check();
    reveal_strlit("Cascadia Mono");
    text::trim_keeps_trimmed(start.font_family);
    assert(profiles::migrated(start, start.shells, Seq::empty()) == start);
    lemma_profiles_of_shells(start, found);
    let filled = profiles::with_shells(start, found);
    let listed = SettingsView { default_profile_id: profiles::first_id(filled.profiles), ..filled };
    lemma_shells_pass(listed.profiles, found, facts);
    assert(listed.profiles[0] == profile_of_shell(found[0], 1));
    assert(profiles::has_id(listed.profiles, 1));
    assert(settings::checked(listed, facts) is Ok);
    assert forall|i: int| 0 <= i < listed.profiles.len() implies program_settles(
        #[trigger] listed.profiles[i],
    ) by {
        assert(listed.profiles[i] == profile_of_shell(found[i], i + 1));
        assert(sound_shell(found[i]));
    }
    assert(settings::normalized(listed, names, other_found) == made);
    accepted_settings_stay_accepted(listed, facts, names, other_found, names, other_found);
}

} // verus!
