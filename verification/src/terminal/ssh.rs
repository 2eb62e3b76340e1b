//! How a session on another machine is started, and how the password prompt of
//! the SSH client is answered.

use vstd::prelude::*;
use vstd::string::*;
use crate::app::settings::environment;
use crate::app::settings::environment::Environment;
use crate::app::settings::ShellProfile;
use crate::text;

verus! {

/// Set where this program was started to answer a prompt.
pub const ASKPASS_MODE_ENV: &'static str = "SLINT_TERMINAL_SSH_ASKPASS";

/// Holds the password for that program.
pub const PASSWORD_ENV: &'static str = "SLINT_TERMINAL_SSH_PASSWORD";

/// Tells the SSH client which program answers prompts.
pub const OPENSSH_ASKPASS_ENV: &'static str = "SSH_ASKPASS";

/// Tells the SSH client to use that program even where there is a terminal.
pub const OPENSSH_ASKPASS_REQUIRE_ENV: &'static str = "SSH_ASKPASS_REQUIRE";

/// The environment in which a program answers the password prompts of the SSH
/// client.
pub open spec fn with_askpass(
    variables: Seq<(Seq<char>, Seq<char>)>,
    password: Seq<char>,
    executable: Seq<char>,
) -> Seq<(Seq<char>, Seq<char>)> {
    environment::with_variable(
        environment::with_variable(
            environment::with_variable(
                environment::with_variable(variables, "SSH_ASKPASS"@, executable),
                "SSH_ASKPASS_REQUIRE"@,
                "force"@,
            ),
            "SLINT_TERMINAL_SSH_ASKPASS"@,
            "1"@,
        ),
        "SLINT_TERMINAL_SSH_PASSWORD"@,
        password,
    )
}

/// Lets a program answer the password prompts of the SSH client.
pub fn configure_askpass_with_executable(
    environment: &mut Environment,
    password: &str,
    executable: &str,
)
    ensures
        final(environment)@ == with_askpass(old(environment)@, password@, executable@),
{
    environment.insert(OPENSSH_ASKPASS_ENV.to_owned(), executable.to_owned());
    environment.insert(OPENSSH_ASKPASS_REQUIRE_ENV.to_owned(), "force".to_owned());
    environment.insert(ASKPASS_MODE_ENV.to_owned(), "1".to_owned());
    environment.insert(PASSWORD_ENV.to_owned(), password.to_owned());
}

/// Lets this program answer the password prompts, where the profile has a
/// password. `executable` is its path, or why that is not known.
pub fn configure_askpass(
    environment: &mut Environment,
    profile: &ShellProfile,
    executable: Result<String, String>,
) -> (result: Result<(), String>)
    ensures
        profile.ssh_password@.len() == 0 ==> result is Ok && final(environment)@ == old(
            environment,
        )@,
        profile.ssh_password@.len() > 0 ==> match executable {
            Ok(path) => result is Ok && final(environment)@ == with_askpass(
                old(environment)@,
                profile.ssh_password@,
                path@,
            ),
            Err(message) => result == Err::<(), String>(message) && final(environment)@ == old(
                environment,
            )@,
        },
{
    if text::is_empty_text(profile.ssh_password.as_str()) {
        return Ok(());
    }
    match executable {
        Ok(path) => {
            configure_askpass_with_executable(
                environment,
                profile.ssh_password.as_str(),
                path.as_str(),
            );
            Ok(())
        },
        Err(message) => Err(message),
    }
}

/// Whether a prompt asks for a password. Without any text it is taken to: some
/// clients do not hand the text on.
pub open spec fn asks_for_password(prompt: Option<&str>) -> bool {
    match prompt {
        None => true,
        Some(prompt) => {
            let lowered = text::ascii_lowered(prompt@);
            text::occurs(lowered, "password"@) && !text::occurs(lowered, "passphrase"@)
        },
    }
}

pub fn is_password_prompt(prompt: Option<&str>) -> (asks: bool)
    ensures
        asks == asks_for_password(prompt),
{
    match prompt {
        None => true,
        Some(prompt) => {
            let lowered = text::to_ascii_lowercase(prompt);
            text::contains_text(lowered.as_str(), "password") && !text::contains_text(
                lowered.as_str(),
                "passphrase",
            )
        },
    }
}

/// What the program says to a prompt of the SSH client.
#[derive(Debug, PartialEq, Eq)]
pub enum AskpassReply {
    /// The program was not started for a prompt.
    NotAsked,
    /// This line is the answer.
    Answer(String),
    /// There is no password; the message says why.
    NoPassword(String),
    /// The prompt asks for something else.
    Refused(String),
}

/// Whether a reply is the one to a prompt. Only a prompt for a password gets the
/// password.
pub open spec fn is_reply(
    mode: Option<Seq<char>>,
    password: Result<Seq<char>, Seq<char>>,
    prompt: Option<&str>,
    reply: AskpassReply,
) -> bool {
    if mode != Some("1"@) {
        reply is NotAsked
    } else {
        match password {
            Err(error) => reply matches AskpassReply::NoPassword(message) && message@
                == "SSH askpass password is unavailable: "@ + error,
            Ok(password) => if asks_for_password(prompt) {
                reply matches AskpassReply::Answer(answer) && answer@ == password
            } else {
                reply matches AskpassReply::Refused(message) && message@
                    == "SSH askpass refused a non-password prompt"@
            },
        }
    }
}

/// What to say to a prompt of the SSH client, from the two variables and the
/// text of the prompt.
pub fn respond_to_askpass(
    mode: Option<String>,
    password: Result<String, String>,
    prompt: Option<&str>,
) -> (reply: AskpassReply)
    ensures
        is_reply(text::optional(mode), text::outcome(password), prompt, reply),
{
    let asked = match &mode {
        Some(mode) => text::same_text(mode.as_str(), "1"),
        None => false,
    };
    if !asked {
        return AskpassReply::NotAsked;
    }
    match password {
        Err(error) => AskpassReply::NoPassword(
            text::concat("SSH askpass password is unavailable: ", error.as_str()),
        ),
        Ok(password) => if is_password_prompt(prompt) {
            AskpassReply::Answer(password)
        } else {
            AskpassReply::Refused("SSH askpass refused a non-password prompt".to_owned())
        },
    }
}

/// The password is in the environment that the SSH client gets, and the program
/// that it starts there answers a password prompt with it.
pub proof fn passwords_reach_their_prompt(
    variables: Seq<(Seq<char>, Seq<char>)>,
    password: Seq<char>,
    executable: Seq<char>,
    prompt: Option<&str>,
    reply: AskpassReply,
)
    requires
        environment::names_distinct(variables),
        asks_for_password(prompt),
        ({
            let after = with_askpass(variables, password, executable);
            is_reply(
                environment::value_of(after, "SLINT_TERMINAL_SSH_ASKPASS"@),
                match environment::value_of(after, "SLINT_TERMINAL_SSH_PASSWORD"@) {
                    Some(found) => Ok(found),
                    None => Err("environment variable not found"@),
                },
                prompt,
                reply,
            )
        }),
    ensures
        reply matches AskpassReply::Answer(answer) && answer@ == password,
        environment::value_of(with_askpass(variables, password, executable), "SSH_ASKPASS"@)
            == Some(executable),
        environment::value_of(
            with_askpass(variables, password, executable),
            "SSH_ASKPASS_REQUIRE"@,
        ) == Some("force"@),
{
    reveal_strlit("SSH_ASKPASS");
    reveal_strlit("SSH_ASKPASS_REQUIRE");
    reveal_strlit("SLINT_TERMINAL_SSH_ASKPASS");
    reveal_strlit("SLINT_TERMINAL_SSH_PASSWORD");
    let helper = "SSH_ASKPASS"@;
    let force = "SSH_ASKPASS_REQUIRE"@;
    let mode = "SLINT_TERMINAL_SSH_ASKPASS"@;
    let secret = "SLINT_TERMINAL_SSH_PASSWORD"@;
    assert(helper.len() != force.len() && helper.len() != mode.len() && helper.len()
        != secret.len());
    assert(force.len() != mode.len() && force.len() != secret.len());
    assert(mode.len() != secret.len());
    let first = environment::with_variable(variables, helper, executable);
    let second = environment::with_variable(first, force, "force"@);
    let third = environment::with_variable(second, mode, "1"@);
    let fourth = environment::with_variable(third, secret, password);
    environment::settings_are_read_back(variables, helper, executable, helper);
    environment::settings_are_read_back(first, force, "force"@, helper);
    environment::settings_are_read_back(first, force, "force"@, force);
    environment::settings_are_read_back(second, mode, "1"@, helper);
    environment::settings_are_read_back(second, mode, "1"@, force);
    environment::settings_are_read_back(second, mode, "1"@, mode);
    environment::settings_are_read_back(third, secret, password, helper);
    environment::settings_are_read_back(third, secret, password, force);
    environment::settings_are_read_back(third, secret, password, mode);
    environment::settings_are_read_back(third, secret, password, secret);
}

/// Whether a word stands in a text, whatever the case of the letters there.
pub open spec fn names_word(shown: Seq<char>, word: Seq<char>) -> bool {
    exists|start: int|
        0 <= start <= shown.len() - word.len() && #[trigger] stands_at(shown, word, start)
}

/// Whether a word stands at a place of a text, whatever the case of the letters
/// there.
pub open spec fn stands_at(shown: Seq<char>, word: Seq<char>, start: int) -> bool {
    forall|i: int|
        0 <= i < word.len() ==> text::ascii_lower(shown[start + i]) == #[trigger] word[i]
}

proof fn lemma_named_word(shown: Seq<char>, word: Seq<char>)
    ensures
        text::occurs(text::ascii_lowered(shown), word) <==> names_word(shown, word),
{
    let lowered = text::ascii_lowered(shown);
    if text::occurs(lowered, word) {
        let start = choose|start: int| #[trigger] text::occurs_at(lowered, word, start);
        assert forall|i: int| 0 <= i < word.len() implies text::ascii_lower(shown[start + i])
            == #[trigger] word[i] by {
            assert(lowered.subrange(start, start + word.len())[i] == word[i]);
        }
        assert(stands_at(shown, word, start));
    }
    if names_word(shown, word) {
        let start = choose|start: int|
            0 <= start <= shown.len() - word.len() && #[trigger] stands_at(shown, word, start);
        assert(lowered.subrange(start, start + word.len()) =~= word);
        assert(text::occurs_at(lowered, word, start));
    }
}

/// The password is told if and only if the program was started for a prompt, there
/// is a password, and the prompt has no text or asks for a password in whatever
/// case: one that names a passphrase is refused, and so is one that names neither.
/// What is told is the password itself.
pub proof fn only_password_prompts_are_answered(
    mode: Option<Seq<char>>,
    password: Result<Seq<char>, Seq<char>>,
    prompt: Option<&str>,
    reply: AskpassReply,
)
    requires
        is_reply(mode, password, prompt, reply),
    ensures
        ({
            let fits = prompt matches Some(shown) ==> names_word(
                shown@,
                seq!['p', 'a', 's', 's', 'w', 'o', 'r', 'd'],
            ) && !names_word(shown@, seq!['p', 'a', 's', 's', 'p', 'h', 'r', 'a', 's', 'e']);
            &&& reply is NotAsked <==> mode != Some(seq!['1'])
            &&& reply is NoPassword <==> mode == Some(seq!['1']) && password is Err
            &&& reply is Answer <==> mode == Some(seq!['1']) && password is Ok && fits
            &&& reply is Refused <==> mode == Some(seq!['1']) && password is Ok && !fits
            &&& reply matches AskpassReply::Answer(answer) ==> answer@ == password->Ok_0
        }),
{
    reveal_strlit("1");
    reveal_strlit("password");
    reveal_strlit("passphrase");
    assert("1"@ =~= seq!['1']);
    assert("password"@ =~= seq!['p', 'a', 's', 's', 'w', 'o', 'r', 'd']);
    assert("passphrase"@ =~= seq!['p', 'a', 's', 's', 'p', 'h', 'r', 'a', 's', 'e']);
    if let Some(shown) = prompt {
        lemma_named_word(shown@, "password"@);
        lemma_named_word(shown@, "passphrase"@);
    }
}

} // verus!
