//! Which program a session runs, and in which environment.

use vstd::prelude::*;
use vstd::string::*;
use crate::app::settings::environment::Environment;
use crate::app::settings::{ProfileKind, ProfileView, ShellProfile};
use crate::terminal::backend;
use crate::terminal::ssh;
use crate::text;

verus! {

/// How the program of a session is started.
#[derive(Debug)]
pub struct LaunchPlan {
    /// Without a program, the shell of the system is started.
    pub program: Option<String>,
    pub arguments: Vec<String>,
    pub working_directory: Option<String>,
    /// The variables that the program gets beside those of this process.
    pub environment: Environment,
}

/// What a `LaunchPlan` holds.
#[verifier::ext_equal]
pub struct LaunchView {
    pub program: Option<Seq<char>>,
    pub arguments: Seq<Seq<char>>,
    pub working_directory: Option<Seq<char>>,
    pub environment: Seq<(Seq<char>, Seq<char>)>,
}

impl View for LaunchPlan {
    type V = LaunchView;

    open spec fn view(&self) -> LaunchView {
        LaunchView {
            program: text::optional(self.program),
            arguments: text::texts(self.arguments@),
            working_directory: text::optional(self.working_directory),
            environment: self.environment@,
        }
    }
}

/// How the program of a profile is started. A local profile names it; a profile
/// for another machine starts the SSH client, which gets a password through the
/// environment. `executable` is the path of this program, or why that is not
/// known.
pub open spec fn planned(
    profile: Option<ProfileView>,
    executable: Result<Seq<char>, Seq<char>>,
) -> Result<LaunchView, Seq<char>> {
    let nothing = LaunchView {
        program: None,
        arguments: Seq::empty(),
        working_directory: None,
        environment: Seq::empty(),
    };
    match profile {
        None => Ok(nothing),
        Some(profile) => match profile.kind {
            ProfileKind::Local => Ok(
                LaunchView {
                    program: Some(profile.program),
                    arguments: profile.arguments,
                    working_directory: profile.working_directory,
                    environment: profile.environment,
                },
            ),
            ProfileKind::Ssh => {
                let client = LaunchView {
                    program: Some("ssh"@),
                    arguments: backend::client_arguments(profile),
                    ..nothing
                };
                if profile.ssh_password.len() == 0 {
                    Ok(client)
                } else {
                    match executable {
                        Ok(path) => Ok(
                            LaunchView {
                                environment: ssh::with_askpass(
                                    Seq::empty(),
                                    profile.ssh_password,
                                    path,
                                ),
                                ..client
                            },
                        ),
                        Err(message) => Err(message),
                    }
                }
            },
        },
    }
}

/// A plan or a message.
pub open spec fn plan_outcome(result: Result<LaunchPlan, String>) -> Result<LaunchView, Seq<char>> {
    match result {
        Ok(plan) => Ok(plan@),
        Err(message) => Err(message@),
    }
}

/// What a profile that may be missing holds.
pub open spec fn optional_profile(profile: Option<&ShellProfile>) -> Option<ProfileView> {
    match profile {
        Some(profile) => Some(profile@),
        None => None,
    }
}

/// How the program of a session is started.
pub fn launch_plan(profile: Option<&ShellProfile>, executable: Result<String, String>) -> (result:
    Result<LaunchPlan, String>)
    ensures
        plan_outcome(result) == planned(optional_profile(profile), text::outcome(executable)),
{
    let mut plan = LaunchPlan {
        program: None,
        arguments: Vec::new(),
        working_directory: None,
        environment: Environment::new(),
    };
    assert(text::texts(plan.arguments@) =~= Seq::<Seq<char>>::empty());
    if let Some(profile) = profile {
        match profile.kind {
            ProfileKind::Local => {
                plan.program = Some(profile.program.clone());
                plan.arguments = text::copy_texts(&profile.arguments);
                plan.working_directory = text::copy_optional(&profile.working_directory);
                plan.environment = profile.environment.copy();
            },
            ProfileKind::Ssh => {
                plan.program = Some("ssh".to_owned());
                plan.arguments = backend::ssh_arguments(profile);
                let configured = ssh::configure_askpass(
                    &mut plan.environment,
                    profile,
                    executable,
                );
                if let Err(message) = configured {
                    return Err(message);
                }
            },
        }
    }
    Ok(plan)
}

/// A password stands in the environment of the SSH client only: its arguments
/// are the same for every password.
pub proof fn passwords_stay_out_of_the_arguments(
    profile: ProfileView,
    other: Seq<char>,
    executable: Result<Seq<char>, Seq<char>>,
)
    requires
        profile.kind == ProfileKind::Ssh,
        profile.ssh_password.len() > 0,
        other.len() > 0,
        executable is Ok,
    ensures
        ({
            let plan = planned(Some(profile), executable);
            let other_plan = planned(
                Some(ProfileView { ssh_password: other, ..profile }),
                executable,
            );
            &&& plan is Ok && other_plan is Ok
            &&& plan->Ok_0.program == other_plan->Ok_0.program
            &&& plan->Ok_0.arguments == other_plan->Ok_0.arguments
            &&& plan->Ok_0.working_directory == other_plan->Ok_0.working_directory
        }),
{
}

/// A local profile starts the program that it names, with its arguments, in its
/// directory and with its variables; without a profile the shell of the system is
/// started. Another machine is reached through the SSH client, which gets none of
/// the variables of the profile, and where there is a password to hand over, that
/// needs the path of this program.
pub proof fn profiles_are_started_as_they_say(
    profile: ProfileView,
    executable: Result<Seq<char>, Seq<char>>,
)
    ensures
        planned(None, executable) matches Ok(plan) && plan.program is None && plan.arguments.len()
            == 0 && plan.working_directory is None && plan.environment.len() == 0,
        profile.kind == ProfileKind::Local ==> (planned(Some(profile), executable) matches Ok(plan)
            && plan.program == Some(profile.program) && plan.arguments == profile.arguments
            && plan.working_directory == profile.working_directory && plan.environment
            == profile.environment),
        profile.kind == ProfileKind::Ssh && (profile.ssh_password.len() == 0 || executable is Ok)
            ==> (planned(Some(profile), executable) matches Ok(plan) && plan.program == Some(
            seq!['s', 's', 'h'],
        ) && plan.arguments == backend::client_arguments(profile) && plan.working_directory is None
            && (profile.ssh_password.len() == 0 ==> plan.environment.len() == 0)),
        profile.kind == ProfileKind::Ssh && profile.ssh_password.len() > 0 && executable is Err
            ==> (planned(Some(profile), executable) matches Err(message) && message
            == executable->Err_0),
{
    reveal_strlit("ssh");
    assert("ssh"@ =~= seq!['s', 's', 'h']);
}

} // verus!
