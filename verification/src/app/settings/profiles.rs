//! Checks, clean-up and detection of shell profiles.

use vstd::prelude::*;
use vstd::string::*;
use crate::app::settings;
use crate::app::settings::environment;
use crate::app::settings::environment::Environment;
use crate::app::settings::{
    AppSettings, ProfileKind, ProfileView, SettingsView, ShellProfile,
};
use crate::text;

verus! {

/// What the system says about a path.
#[derive(Clone, Copy, Debug, PartialEq, Eq, Structural)]
pub struct PathFact {
    /// It starts at the root of a file system.
    pub absolute: bool,
    /// There is something of the wanted sort at it.
    pub exists: bool,
}

/// What the system says about the paths of a profile.
#[derive(Clone, Copy, Debug, PartialEq, Eq, Structural)]
pub struct PathFacts {
    pub program: PathFact,
    pub directory: PathFact,
    pub identity: PathFact,
}

/// What of a profile's paths exists: the program and the key as files, the
/// working directory as a directory.
#[derive(Clone, Copy, Debug, PartialEq, Eq, Structural)]
pub struct ProfileFiles {
    pub program: bool,
    pub directory: bool,
    pub identity: bool,
}

/// Whether a path is relative on every operating system: it names neither a
/// drive nor a scheme, and does not start with a separator.
pub open spec fn relative(path: Seq<char>) -> bool {
    !path.contains(':') && (path.len() == 0 || (path[0] != '/' && path[0] != '\\'))
}

/// What stands behind the last slash of a path.
pub open spec fn last_part(path: Seq<char>) -> Seq<char>
    decreases path.len(),
{
    if path.len() == 0 || path.last() == '/' {
        Seq::empty()
    } else {
        last_part(path.drop_last()).push(path.last())
    }
}

/// Whether every operating system takes what stands behind the last slash of a
/// path for the name of a file: slashes alone divide the path, and two of them
/// at its start could stand for a share.
pub open spec fn names_file(path: Seq<char>) -> bool {
    &&& !path.contains('\\')
    &&& !path.contains(':')
    &&& !(path.len() > 1 && path[0] == '/' && path[1] == '/')
    &&& last_part(path).len() > 0
    &&& last_part(path) != "."@
    &&& last_part(path) != ".."@
}

/// The place of the last dot in a name; negative, where there is none.
pub open spec fn last_dot(name: Seq<char>) -> int
    decreases name.len(),
{
    if name.len() == 0 {
        -1
    } else if name.last() == '.' {
        name.len() - 1
    } else {
        last_dot(name.drop_last())
    }
}

/// The part of a file name before its last dot; all of it, where there is no dot
/// but at its start.
pub open spec fn stem_of(name: Seq<char>) -> Seq<char> {
    if last_dot(name) > 0 {
        name.take(last_dot(name))
    } else {
        name
    }
}

pub(crate) proof fn lemma_last_dot(name: Seq<char>)
    ensures
        -1 <= last_dot(name) < name.len(),
    decreases name.len(),
{
    if name.len() > 0 && name.last() != '.' {
        lemma_last_dot(name.drop_last());
    }
}

/// A fact that the system may state of a path: whether there is something at it
/// is known, and a path that is relative everywhere is not absolute.
pub open spec fn observed(path: Seq<char>, exists: bool, fact: PathFact) -> bool {
    fact.exists == exists && (relative(cleaned(path)) ==> !fact.absolute)
}

/// Facts that the system may state of the paths of a profile.
pub open spec fn agree(
    facts: PathFacts,
    files: ProfileFiles,
    program: Seq<char>,
    directory: Seq<char>,
    identity: Seq<char>,
) -> bool {
    observed(program, files.program, facts.program) && observed(
        directory,
        files.directory,
        facts.directory,
    ) && observed(identity, files.identity, facts.identity)
}

/// `std::path::Path::is_absolute` tells whether a path starts at a root. What
/// counts as a root differs between operating systems, but each starts with a
/// separator or with the name of a drive: another path is not absolute. Nothing
/// is stated of those that start so.
#[verifier::external_body]
fn is_absolute(path: &str) -> (absolute: bool)
    ensures
        relative(path@) ==> !absolute,
{
    std::path::Path::new(path).is_absolute()
}

/// `std::path::Path::file_stem` gives the last part of a path without its
/// extension. Slashes divide a path on every operating system. Nothing is stated
/// of a path with backslashes or colons, with two slashes at its start, or
/// without the name of a file at its end.
#[verifier::external_body]
fn file_stem(path: &str) -> (stem: Option<String>)
    ensures
        names_file(path@) ==> stem is Some && stem->0@ == stem_of(last_part(path@)),
{
    std::path::Path::new(path).file_stem().map(|stem| stem.to_string_lossy().into_owned())
}

/// What `str::to_lowercase` yields for a text.
pub uninterp spec fn lower_case_of(written: Seq<char>) -> Seq<char>;

/// `str::to_lowercase` gives the lower-case equivalent of a text. Of the mapping
/// itself only the part on ASCII is stated.
#[verifier::external_body]
fn lower_case(written: &str) -> (lower: String)
    ensures
        lower@ == lower_case_of(written@),
        is_ascii(written@) ==> lower@ == text::ascii_lowered(written@),
{
    written.to_lowercase()
}

/// Whether a text holds ASCII characters only.
pub open spec fn is_ascii(written: Seq<char>) -> bool {
    forall|i: int| 0 <= i < written.len() ==> (#[trigger] written[i] as u32) < 128
}

/// A text in lower case.
pub open spec fn lowered(written: Seq<char>) -> Seq<char> {
    if is_ascii(written) {
        text::ascii_lowered(written)
    } else {
        lower_case_of(written)
    }
}

/// A path without the white space and the quotation marks around it.
pub open spec fn cleaned(path: Seq<char>) -> Seq<char> {
    text::unquoted(text::trimmed(path))
}

/// Takes white space and quotation marks off a path that was typed in.
pub fn clean_path(path: &str) -> (clean: String)
    ensures
        clean@ == cleaned(path@),
{
    let bare = text::trim(path);
    text::trim_quotes(bare.as_str())
}

/// The non-empty lines of a text, trimmed.
pub open spec fn argument_lines(lines: Seq<Seq<char>>) -> Seq<Seq<char>>
    decreases lines.len(),
{
    if lines.len() == 0 {
        Seq::empty()
    } else {
        let before = argument_lines(lines.drop_last());
        let line = text::trimmed(lines.last());
        if line.len() == 0 {
            before
        } else {
            before.push(line)
        }
    }
}

/// The arguments in a text: one on each line that is not blank.
pub open spec fn arguments_in(arguments: Seq<char>) -> Seq<Seq<char>> {
    argument_lines(text::pieces(arguments, '\n'))
}

pub fn parse_arguments(arguments: &str) -> (list: Vec<String>)
    ensures
        text::texts(list@) == arguments_in(arguments@),
{
    let lines = text::split(arguments, '\n');
    let ghost all = text::texts(lines@);
    let mut list: Vec<String> = Vec::new();
    let mut index: usize = 0;
    assert(text::texts(list@) == argument_lines(all.take(0)));
    while index < lines.len()
        invariant
            index <= lines@.len(),
            all == text::texts(lines@),
            text::texts(list@) == argument_lines(all.take(index as int)),
        decreases lines.len() - index,
    {
        assert(all.take(index + 1).drop_last() == all.take(index as int));
        assert(all.take(index + 1).last() == lines@[index as int]@);
        let line = text::trim(lines[index].as_str());
        if !text::is_empty_text(line.as_str()) {
            let ghost before = text::texts(list@);
            let ghost shown = line@;
            list.push(line);
            assert(text::texts(list@) == before.push(shown));
        }
        index += 1;
    }
    assert(all.take(index as int) == all);
    list
}

/// The program of a profile, or what is wrong with it.
pub open spec fn checked_program(program: Seq<char>, fact: PathFact) -> Result<
    Seq<char>,
    Seq<char>,
> {
    let path = cleaned(program);
    if path.len() == 0 {
        Err("错误：Shell 程序路径不能为空"@)
    } else if !fact.absolute {
        Err("错误：请输入 Shell 可执行文件的完整路径"@)
    } else if !fact.exists {
        Err("错误：找不到 Shell 可执行文件："@ + path)
    } else {
        Ok(path)
    }
}

/// Checks the program of a profile.
pub fn validate_program(program: &str, fact: PathFact) -> (result: Result<String, String>)
    ensures
        text::outcome(result) == checked_program(program@, fact),
{
    let path = clean_path(program);
    if text::is_empty_text(path.as_str()) {
        return Err("错误：Shell 程序路径不能为空".to_owned());
    }
    if !fact.absolute {
        return Err("错误：请输入 Shell 可执行文件的完整路径".to_owned());
    }
    if !fact.exists {
        return Err(text::concat("错误：找不到 Shell 可执行文件：", path.as_str()));
    }
    Ok(path)
}

/// A path that may be left out, or an error message, as sequences.
pub open spec fn path_outcome(result: Result<Option<String>, String>) -> Result<
    Option<Seq<char>>,
    Seq<char>,
> {
    match result {
        Ok(path) => Ok(text::optional(path)),
        Err(message) => Err(message@),
    }
}

/// The working directory of a profile, or what is wrong with it.
pub open spec fn checked_directory(directory: Seq<char>, fact: PathFact) -> Result<
    Option<Seq<char>>,
    Seq<char>,
> {
    let path = cleaned(directory);
    if path.len() == 0 {
        Ok(None)
    } else if !fact.absolute {
        Err("错误：工作目录必须是完整路径"@)
    } else if !fact.exists {
        Err("错误：工作目录不存在："@ + path)
    } else {
        Ok(Some(path))
    }
}

/// Checks the working directory of a profile; an empty one stands for none.
pub fn validate_working_directory(directory: &str, fact: PathFact) -> (result: Result<
    Option<String>,
    String,
>)
    ensures
        path_outcome(result) == checked_directory(directory@, fact),
{
    let path = clean_path(directory);
    if text::is_empty_text(path.as_str()) {
        return Ok(None);
    }
    if !fact.absolute {
        return Err("错误：工作目录必须是完整路径".to_owned());
    }
    if !fact.exists {
        return Err(text::concat("错误：工作目录不存在：", path.as_str()));
    }
    Ok(Some(path))
}

/// The key file of a profile, or what is wrong with it.
pub open spec fn checked_identity(identity: Seq<char>, fact: PathFact) -> Result<
    Option<Seq<char>>,
    Seq<char>,
> {
    let path = cleaned(identity);
    if path.len() == 0 {
        Ok(None)
    } else if !fact.absolute {
        Err("错误：SSH 私钥文件必须是完整路径"@)
    } else if !fact.exists {
        Err("错误：找不到 SSH 私钥文件："@ + path)
    } else {
        Ok(Some(path))
    }
}

/// Checks the key file of a profile; an empty path stands for none.
pub fn validate_identity_file(identity: &str, fact: PathFact) -> (result: Result<
    Option<String>,
    String,
>)
    ensures
        path_outcome(result) == checked_identity(identity@, fact),
{
    let path = clean_path(identity);
    if text::is_empty_text(path.as_str()) {
        return Ok(None);
    }
    if !fact.absolute {
        return Err("错误：SSH 私钥文件必须是完整路径".to_owned());
    }
    if !fact.exists {
        return Err(text::concat("错误：找不到 SSH 私钥文件：", path.as_str()));
    }
    Ok(Some(path))
}

/// Whether a text holds white space or a control character.
pub open spec fn unprintable(written: Seq<char>) -> bool {
    exists|i: int|
        0 <= i < written.len() && (text::white_space(#[trigger] written[i])
            || text::control_character(written[i]))
}

fn is_unprintable(list: &Vec<char>) -> (found: bool)
    ensures
        found == unprintable(list@),
{
    let mut index: usize = 0;
    while index < list.len()
        invariant
            index <= list@.len(),
            forall|i: int|
                0 <= i < index ==> !text::white_space(#[trigger] list@[i])
                    && !text::control_character(list@[i]),
        decreases list.len() - index,
    {
        if list[index].is_whitespace() || list[index].is_control() {
            assert(text::white_space(list@[index as int]) || text::control_character(
                list@[index as int],
            ));
            return true;
        }
        index += 1;
    }
    false
}

/// The host of a profile, or what is wrong with it.
pub open spec fn checked_host(host: Seq<char>) -> Result<Seq<char>, Seq<char>> {
    let name = text::trimmed(host);
    if name.len() == 0 {
        Err("错误：SSH 主机不能为空"@)
    } else if unprintable(name) {
        Err("错误：SSH 主机不能包含空白或控制字符"@)
    } else if name[0] == '-' {
        Err("错误：SSH 主机不能以 - 开头"@)
    } else {
        Ok(name)
    }
}

/// Checks the host of a profile: it must not look like an option.
pub fn validate_ssh_host(host: &str) -> (result: Result<String, String>)
    ensures
        text::outcome(result) == checked_host(host@),
{
    let name = text::trim(host);
    let list = text::characters(name.as_str());
    if list.len() == 0 {
        return Err("错误：SSH 主机不能为空".to_owned());
    }
    if is_unprintable(&list) {
        return Err("错误：SSH 主机不能包含空白或控制字符".to_owned());
    }
    if list[0] == '-' {
        return Err("错误：SSH 主机不能以 - 开头".to_owned());
    }
    Ok(name)
}

/// The user of a profile, or what is wrong with it.
pub open spec fn checked_user(user: Seq<char>) -> Result<Seq<char>, Seq<char>> {
    let name = text::trimmed(user);
    if unprintable(name) {
        Err("错误：SSH 用户名不能包含空白或控制字符"@)
    } else if name.contains('@') {
        Err("错误：SSH 用户名不能包含 @"@)
    } else if name.len() > 0 && name[0] == '-' {
        Err("错误：SSH 用户名不能以 - 开头"@)
    } else {
        Ok(name)
    }
}

/// Checks the user of a profile; there may be none.
pub fn validate_ssh_user(user: &str) -> (result: Result<String, String>)
    ensures
        text::outcome(result) == checked_user(user@),
{
    let name = text::trim(user);
    let list = text::characters(name.as_str());
    if is_unprintable(&list) {
        return Err("错误：SSH 用户名不能包含空白或控制字符".to_owned());
    }
    if text::position_of(&list, '@') < list.len() {
        return Err("错误：SSH 用户名不能包含 @".to_owned());
    }
    if list.len() > 0 && list[0] == '-' {
        return Err("错误：SSH 用户名不能以 - 开头".to_owned());
    }
    Ok(name)
}

/// The port of a profile, or what is wrong with it.
pub open spec fn checked_port(port: int) -> Result<u16, Seq<char>> {
    if 1 <= port <= 65535 {
        Ok(port as u16)
    } else {
        Err("错误：SSH 端口必须在 1 到 65535 之间"@)
    }
}

/// A port or an error message as a sequence.
pub open spec fn port_outcome(result: Result<u16, String>) -> Result<u16, Seq<char>> {
    match result {
        Ok(port) => Ok(port),
        Err(message) => Err(message@),
    }
}

pub fn validate_ssh_port(port: i32) -> (result: Result<u16, String>)
    ensures
        port_outcome(result) == checked_port(port as int),
{
    if 1 <= port && port <= 65535 {
        Ok(port as u16)
    } else {
        Err("错误：SSH 端口必须在 1 到 65535 之间".to_owned())
    }
}

/// The password of a profile, or what is wrong with it.
pub open spec fn checked_password(password: Seq<char>) -> Result<Seq<char>, Seq<char>> {
    if password.contains('\0') || password.contains('\r') || password.contains('\n') {
        Err("错误：SSH 密码不能包含空字符或换行符"@)
    } else {
        Ok(password)
    }
}

/// Checks the password of a profile: it has to fit on one line.
pub fn validate_ssh_password(password: &str) -> (result: Result<String, String>)
    ensures
        text::outcome(result) == checked_password(password@),
{
    if text::holds(password, '\0') || text::holds(password, '\r') || text::holds(password, '\n') {
        return Err("错误：SSH 密码不能包含空字符或换行符".to_owned());
    }
    Ok(password.to_owned())
}

/// What is wrong with the name of an environment variable, if anything.
pub open spec fn checked_key(key: Seq<char>) -> Result<(), Seq<char>> {
    if key.len() == 0 {
        Err("名称不能为空"@)
    } else if key.contains('\0') || key.contains('=') {
        Err(key)
    } else {
        Ok(())
    }
}

pub fn validate_environment_key(key: &str) -> (result: Result<(), String>)
    ensures
        text::verdict(result) == checked_key(key@),
{
    if text::is_empty_text(key) {
        return Err("名称不能为空".to_owned());
    }
    if text::holds(key, '\0') || text::holds(key, '=') {
        return Err(key.to_owned());
    }
    Ok(())
}

/// The environment in the lines of a text, or what is wrong with the first line
/// that is not right.
pub open spec fn environment_lines(lines: Seq<Seq<char>>) -> Result<
    Seq<(Seq<char>, Seq<char>)>,
    Seq<char>,
>
    decreases lines.len(),
{
    if lines.len() == 0 {
        Ok(Seq::empty())
    } else {
        match environment_lines(lines.drop_last()) {
            Err(message) => Err(message),
            Ok(variables) => {
                let line = text::trimmed(lines.last());
                let place = text::first_position(line, '=');
                let key = text::trimmed(line.take(place));
                if line.len() == 0 {
                    Ok(variables)
                } else if !line.contains('=') {
                    Err("错误：环境变量第 "@ + text::decimal(lines.len()) + " 行缺少 ="@)
                } else if checked_key(key) is Err {
                    Err("错误：环境变量第 "@ + text::decimal(lines.len()) + " 行名称无效"@)
                } else {
                    Ok(
                        environment::with_variable(
                            variables,
                            key,
                            text::trimmed(line.skip(place + 1)),
                        ),
                    )
                }
            },
        }
    }
}

/// The environment in a text.
pub open spec fn environment_in(input: Seq<char>) -> Result<
    Seq<(Seq<char>, Seq<char>)>,
    Seq<char>,
> {
    environment_lines(text::pieces(input, '\n'))
}

/// An environment or an error message, as sequences.
pub open spec fn environment_outcome(result: Result<Environment, String>) -> Result<
    Seq<(Seq<char>, Seq<char>)>,
    Seq<char>,
> {
    match result {
        Ok(environment) => Ok(environment@),
        Err(message) => Err(message@),
    }
}

proof fn lemma_environment_error(lines: Seq<Seq<char>>, count: int)
    requires
        0 <= count <= lines.len(),
        environment_lines(lines.take(count)) is Err,
    ensures
        environment_lines(lines) == environment_lines(lines.take(count)),
    decreases lines.len(),
{
    if count == lines.len() {
        assert(lines.take(count) == lines);
    } else {
        assert(lines.drop_last().take(count) == lines.take(count));
        lemma_environment_error(lines.drop_last(), count);
    }
}

/// Reads environment variables: one on each line, the name before the first
/// equals sign; a later line for the same name counts.
pub fn parse_environment(input: &str) -> (result: Result<Environment, String>)
    ensures
        environment_outcome(result) == environment_in(input@),
{
    let lines = text::split(input, '\n');
    let ghost all = text::texts(lines@);
    let mut variables = Environment::new();
    let mut index: usize = 0;
    assert(all.take(0) == Seq::<Seq<char>>::empty());
    while index < lines.len()
        invariant
            index <= lines@.len(),
            all == text::texts(lines@),
            all == text::pieces(input@, '\n'),
            environment_lines(all.take(index as int)) == Ok::<
                Seq<(Seq<char>, Seq<char>)>,
                Seq<char>,
            >(variables@),
        decreases lines.len() - index,
    {
        proof {
            assert(all.take(index + 1).drop_last() == all.take(index as int));
            assert(all.take(index + 1).last() == lines@[index as int]@);
        }
        let line = text::trim(lines[index].as_str());
        let list = text::characters(line.as_str());
        if list.len() > 0 {
            let place = text::position_of(&list, '=');
            if place == list.len() {
                proof {
                    lemma_environment_error(all, index + 1);
                }
                return Err(
                    text::concat3(
                        "错误：环境变量第 ",
                        text::decimal_text(index as u64 + 1).as_str(),
                        " 行缺少 =",
                    ),
                );
            }
            let before = text::string_of(&list, 0, place);
            let key = text::trim(before.as_str());
            let after = text::string_of(&list, place + 1, list.len());
            proof {
                assert(list@.subrange(0, place as int) == list@.take(place as int));
                assert(list@.subrange(place + 1, list@.len() as int) == list@.skip(place + 1));
            }
            if validate_environment_key(key.as_str()).is_err() {
                proof {
                    lemma_environment_error(all, index + 1);
                }
                return Err(
                    text::concat3(
                        "错误：环境变量第 ",
                        text::decimal_text(index as u64 + 1).as_str(),
                        " 行名称无效",
                    ),
                );
            }
            variables.insert(key, text::trim(after.as_str()));
        }
        index += 1;
    }
    assert(all.take(index as int) == all);
    Ok(variables)
}

/// An error message without the word that marks it as one.
pub open spec fn bare_error(error: Seq<char>) -> Seq<char> {
    if text::starts_with(error, "错误："@) {
        error.skip("错误："@.len() as int)
    } else {
        error
    }
}

pub fn error_without_prefix(error: &str) -> (bare: String)
    ensures
        bare@ == bare_error(error@),
{
    text::without_prefix(error, "错误：")
}

/// The name for a program whose file name is known, or is not.
pub open spec fn name_for_stem(stem: Option<Seq<char>>) -> Seq<char> {
    match stem {
        Some(stem) => if stem.len() > 0 {
            stem
        } else {
            "Shell"@
        },
        None => "Shell"@,
    }
}

/// The name for a program whose file name is known, or is not.
pub fn profile_name(stem: Option<String>) -> (name: String)
    ensures
        name@ == name_for_stem(text::optional(stem)),
{
    match stem {
        Some(stem) => if text::is_empty_text(stem.as_str()) {
            "Shell".to_owned()
        } else {
            stem
        },
        None => "Shell".to_owned(),
    }
}

/// Whether a program may get a name: the stem of its file, and some name where
/// operating systems differ about that.
pub open spec fn may_name(program: Seq<char>, name: Seq<char>) -> bool {
    name.len() > 0 && (names_file(program) ==> name == stem_of(last_part(program)))
}

/// The name for a program, after its file.
pub fn profile_name_from_program(program: &str) -> (name: String)
    ensures
        may_name(program@, name@),
{
    let stem = file_stem(program);
    proof {
        reveal_strlit("Shell");
        lemma_last_dot(last_part(program@));
    }
    profile_name(stem)
}

/// The profile that a form describes, or what is wrong with the form.
pub open spec fn profile_of_form(
    id: i32,
    name: Seq<char>,
    kind_index: i32,
    program: Seq<char>,
    arguments: Seq<char>,
    directory: Seq<char>,
    environment_text: Seq<char>,
    host: Seq<char>,
    user: Seq<char>,
    port: i32,
    identity: Seq<char>,
    password: Seq<char>,
    facts: PathFacts,
) -> Result<ProfileView, Seq<char>> {
    let base = ProfileView {
        id: id as int,
        name: text::trimmed(name),
        arguments: arguments_in(arguments),
        ..settings::empty_profile()
    };
    if base.name.len() == 0 {
        Err("错误：Profile 名称不能为空"@)
    } else if kind_index == 0 {
        match checked_program(program, facts.program) {
            Err(message) => Err(message),
            Ok(program) => match checked_directory(directory, facts.directory) {
                Err(message) => Err(message),
                Ok(directory) => match environment_in(environment_text) {
                    Err(message) => Err(message),
                    Ok(variables) => Ok(
                        ProfileView {
                            kind: ProfileKind::Local,
                            program,
                            working_directory: directory,
                            environment: variables,
                            ..base
                        },
                    ),
                },
            },
        }
    } else if kind_index == 1 {
        match checked_host(host) {
            Err(message) => Err(message),
            Ok(host) => match checked_user(user) {
                Err(message) => Err(message),
                Ok(user) => match checked_port(port as int) {
                    Err(message) => Err(message),
                    Ok(port) => match checked_identity(identity, facts.identity) {
                        Err(message) => Err(message),
                        Ok(identity) => match checked_password(password) {
                            Err(message) => Err(message),
                            Ok(password) => Ok(
                                ProfileView {
                                    kind: ProfileKind::Ssh,
                                    ssh_host: host,
                                    ssh_user: user,
                                    ssh_port: port as int,
                                    ssh_identity_file: identity,
                                    ssh_password: password,
                                    ..base
                                },
                            ),
                        },
                    },
                },
            },
        }
    } else {
        Err("错误：Profile 类型无效"@)
    }
}

/// A profile or an error message, as sequences.
pub open spec fn profile_outcome(result: Result<ShellProfile, String>) -> Result<
    ProfileView,
    Seq<char>,
> {
    match result {
        Ok(profile) => Ok(profile@),
        Err(message) => Err(message@),
    }
}

/// Makes a profile of a form, given what is known of the paths in it.
pub fn profile_from_form(
    id: i32,
    name: &str,
    kind_index: i32,
    program: &str,
    arguments: &str,
    working_directory: &str,
    environment: &str,
    ssh_host: &str,
    ssh_user: &str,
    ssh_port: i32,
    ssh_identity_file: &str,
    ssh_password: &str,
    facts: PathFacts,
) -> (result: Result<ShellProfile, String>)
    ensures
        profile_outcome(result) == profile_of_form(
            id,
            name@,
            kind_index,
            program@,
            arguments@,
            working_directory@,
            environment@,
            ssh_host@,
            ssh_user@,
            ssh_port,
            ssh_identity_file@,
            ssh_password@,
            facts,
        ),
{
    let name = text::trim(name);
    if text::is_empty_text(name.as_str()) {
        return Err("错误：Profile 名称不能为空".to_owned());
    }
    if kind_index != 0 && kind_index != 1 {
        return Err("错误：Profile 类型无效".to_owned());
    }
    let arguments = parse_arguments(arguments);
    let mut profile = ShellProfile::empty();
    profile.id = id;
    profile.name = name;
    profile.arguments = arguments;
    if kind_index == 0 {
        profile.kind = ProfileKind::Local;
        profile.program = match validate_program(program, facts.program) {
            Ok(program) => program,
            Err(message) => {
                return Err(message);
            },
        };
        profile.working_directory = match validate_working_directory(
            working_directory,
            facts.directory,
        ) {
            Ok(directory) => directory,
            Err(message) => {
                return Err(message);
            },
        };
        profile.environment = match parse_environment(environment) {
            Ok(variables) => variables,
            Err(message) => {
                return Err(message);
            },
        };
    } else {
        profile.kind = ProfileKind::Ssh;
        profile.ssh_host = match validate_ssh_host(ssh_host) {
            Ok(host) => host,
            Err(message) => {
                return Err(message);
            },
        };
        profile.ssh_user = match validate_ssh_user(ssh_user) {
            Ok(user) => user,
            Err(message) => {
                return Err(message);
            },
        };
        profile.ssh_port = match validate_ssh_port(ssh_port) {
            Ok(port) => port,
            Err(message) => {
                return Err(message);
            },
        };
        profile.ssh_identity_file = match validate_identity_file(
            ssh_identity_file,
            facts.identity,
        ) {
            Ok(identity) => identity,
            Err(message) => {
                return Err(message);
            },
        };
        profile.ssh_password = match validate_ssh_password(ssh_password) {
            Ok(password) => password,
            Err(message) => {
                return Err(message);
            },
        };
    }
    Ok(profile)
}

fn observe(path: &str, exists: bool) -> (fact: PathFact)
    ensures
        observed(path@, exists, fact),
{
    let clean = clean_path(path);
    PathFact { absolute: is_absolute(clean.as_str()), exists }
}

/// A path has to be complete: whatever the system says of a path that is
/// relative everywhere, it is refused as a program, as a working directory and as
/// a key file.
pub proof fn relative_paths_are_refused(path: Seq<char>, exists: bool, fact: PathFact)
    requires
        observed(path, exists, fact),
        relative(cleaned(path)),
        cleaned(path).len() > 0,
    ensures
        checked_program(path, fact) == Err::<Seq<char>, Seq<char>>(
            "错误：请输入 Shell 可执行文件的完整路径"@,
        ),
        checked_directory(path, fact) == Err::<Option<Seq<char>>, Seq<char>>(
            "错误：工作目录必须是完整路径"@,
        ),
        checked_identity(path, fact) == Err::<Option<Seq<char>>, Seq<char>>(
            "错误：SSH 私钥文件必须是完整路径"@,
        ),
{
}

/// Makes a profile of a form. `files` says what of the cleaned paths exists.
pub fn build_profile(
    id: i32,
    name: &str,
    kind_index: i32,
    program: &str,
    arguments: &str,
    working_directory: &str,
    environment: &str,
    ssh_host: &str,
    ssh_user: &str,
    ssh_port: i32,
    ssh_identity_file: &str,
    ssh_password: &str,
    files: ProfileFiles,
) -> (result: Result<ShellProfile, String>)
    ensures
        exists|facts: PathFacts| #[trigger]
            agree(facts, files, program@, working_directory@, ssh_identity_file@) && profile_outcome(
                result,
            ) == profile_of_form(
                id,
                name@,
                kind_index,
                program@,
                arguments@,
                working_directory@,
                environment@,
                ssh_host@,
                ssh_user@,
                ssh_port,
                ssh_identity_file@,
                ssh_password@,
                facts,
            ),
{
    let facts = PathFacts {
        program: observe(program, files.program),
        directory: observe(working_directory, files.directory),
        identity: observe(ssh_identity_file, files.identity),
    };
    assert(agree(facts, files, program@, working_directory@, ssh_identity_file@));
    profile_from_form(
        id,
        name,
        kind_index,
        program,
        arguments,
        working_directory,
        environment,
        ssh_host,
        ssh_user,
        ssh_port,
        ssh_identity_file,
        ssh_password,
        facts,
    )
}

/// An error message that names the profile it is about.
pub open spec fn profile_error(id: int, error: Seq<char>) -> Seq<char> {
    "Profile "@ + text::signed_decimal(id) + "："@ + bare_error(error)
}

fn describe_error(id: i32, error: &str) -> (message: String)
    ensures
        message@ == profile_error(id as int, error@),
{
    let bare = error_without_prefix(error);
    let mut message = "Profile ".to_owned();
    message.append(text::signed_decimal_text(id).as_str());
    message.append("：");
    message.append(bare.as_str());
    message
}

/// The first variable whose name is wrong, with what is wrong with it.
pub open spec fn first_bad_key(variables: Seq<(Seq<char>, Seq<char>)>) -> Option<Seq<char>>
    decreases variables.len(),
{
    if variables.len() == 0 {
        None
    } else {
        match first_bad_key(variables.drop_last()) {
            Some(message) => Some(message),
            None => match checked_key(variables.last().0) {
                Err(message) => Some(message),
                Ok(()) => None,
            },
        }
    }
}

proof fn lemma_first_bad_key(variables: Seq<(Seq<char>, Seq<char>)>, count: int)
    requires
        0 <= count <= variables.len(),
        first_bad_key(variables.take(count)) is Some,
    ensures
        first_bad_key(variables) == first_bad_key(variables.take(count)),
    decreases variables.len(),
{
    if count == variables.len() {
        assert(variables.take(count) == variables);
    } else {
        assert(variables.drop_last().take(count) == variables.take(count));
        lemma_first_bad_key(variables.drop_last(), count);
    }
}

fn find_bad_key(variables: &Environment) -> (found: Option<String>)
    ensures
        text::optional(found) == first_bad_key(variables@),
{
    let ghost all = variables@;
    let mut index: usize = 0;
    assert(all.take(0) == Seq::<(Seq<char>, Seq<char>)>::empty());
    while index < variables.len()
        invariant
            index <= all.len(),
            all == variables@,
            first_bad_key(all.take(index as int)) is None,
        decreases all.len() - index,
    {
        assert(all.take(index + 1).drop_last() == all.take(index as int));
        assert(all.take(index + 1).last() == all[index as int]);
        if let Err(message) = validate_environment_key(variables.name(index)) {
            proof {
                lemma_first_bad_key(all, index + 1);
            }
            return Some(message);
        }
        index += 1;
    }
    assert(all.take(index as int) == all);
    None
}

/// What is wrong with what a profile runs, if anything.
pub open spec fn launch_error(profile: ProfileView, facts: PathFacts) -> Option<Seq<char>> {
    match profile.kind {
        ProfileKind::Local => if let Err(message) = checked_program(
            profile.program,
            facts.program,
        ) {
            Some(profile_error(profile.id, message))
        } else if profile.working_directory is Some && checked_directory(
            profile.working_directory->0,
            facts.directory,
        ) is Err {
            Some(
                profile_error(
                    profile.id,
                    checked_directory(profile.working_directory->0, facts.directory)->Err_0,
                ),
            )
        } else if let Some(message) = first_bad_key(profile.environment) {
            Some(
                "Profile "@ + text::signed_decimal(profile.id) + "：环境变量名称无效："@ + message,
            )
        } else {
            None
        },
        ProfileKind::Ssh => if let Err(message) = checked_host(profile.ssh_host) {
            Some(profile_error(profile.id, message))
        } else if let Err(message) = checked_user(profile.ssh_user) {
            Some(profile_error(profile.id, message))
        } else if let Err(message) = checked_port(profile.ssh_port) {
            Some(profile_error(profile.id, message))
        } else if profile.ssh_identity_file is Some && checked_identity(
            profile.ssh_identity_file->0,
            facts.identity,
        ) is Err {
            Some(
                profile_error(
                    profile.id,
                    checked_identity(profile.ssh_identity_file->0, facts.identity)->Err_0,
                ),
            )
        } else if let Err(message) = checked_password(profile.ssh_password) {
            Some(profile_error(profile.id, message))
        } else {
            None
        },
    }
}

fn find_launch_error(profile: &ShellProfile, facts: PathFacts) -> (found: Option<String>)
    ensures
        text::optional(found) == launch_error(profile@, facts),
{
    match profile.kind {
        ProfileKind::Local => {
            if let Err(message) = validate_program(profile.program.as_str(), facts.program) {
                return Some(describe_error(profile.id, message.as_str()));
            }
            if let Some(directory) = &profile.working_directory {
                if let Err(message) = validate_working_directory(
                    directory.as_str(),
                    facts.directory,
                ) {
                    return Some(describe_error(profile.id, message.as_str()));
                }
            }
            if let Some(name) = find_bad_key(&profile.environment) {
                let mut message = "Profile ".to_owned();
                message.append(text::signed_decimal_text(profile.id).as_str());
                message.append("：环境变量名称无效：");
                message.append(name.as_str());
                return Some(message);
            }
            None
        },
        ProfileKind::Ssh => {
            if let Err(message) = validate_ssh_host(profile.ssh_host.as_str()) {
                return Some(describe_error(profile.id, message.as_str()));
            }
            if let Err(message) = validate_ssh_user(profile.ssh_user.as_str()) {
                return Some(describe_error(profile.id, message.as_str()));
            }
            if let Err(message) = validate_ssh_port(profile.ssh_port as i32) {
                return Some(describe_error(profile.id, message.as_str()));
            }
            if let Some(identity) = &profile.ssh_identity_file {
                if let Err(message) = validate_identity_file(identity.as_str(), facts.identity) {
                    return Some(describe_error(profile.id, message.as_str()));
                }
            }
            if let Err(message) = validate_ssh_password(profile.ssh_password.as_str()) {
                return Some(describe_error(profile.id, message.as_str()));
            }
            None
        },
    }
}

/// Whether one of the profiles has an id.
pub open spec fn has_id(profiles: Seq<ProfileView>, id: int) -> bool {
    exists|i: int| 0 <= i < profiles.len() && (#[trigger] profiles[i]).id == id
}

/// What is wrong with the last one of some profiles, if anything.
pub open spec fn last_profile_error(profiles: Seq<ProfileView>, facts: PathFacts) -> Option<
    Seq<char>,
> {
    let profile = profiles.last();
    if profile.id < 1 {
        Some("Profile 的 id 必须大于 0"@)
    } else if has_id(profiles.drop_last(), profile.id) {
        Some("Profile id "@ + text::signed_decimal(profile.id) + " 重复"@)
    } else if text::trimmed(profile.name).len() == 0 {
        Some("Profile "@ + text::signed_decimal(profile.id) + " 的名称不能为空"@)
    } else {
        launch_error(profile, facts)
    }
}

/// What is wrong with the first profile that is not right, if any.
pub open spec fn first_profile_error(profiles: Seq<ProfileView>, facts: Seq<PathFacts>) -> Option<
    Seq<char>,
>
    decreases profiles.len(),
{
    if profiles.len() == 0 {
        None
    } else {
        match first_profile_error(profiles.drop_last(), facts) {
            Some(message) => Some(message),
            None => last_profile_error(profiles, facts[profiles.len() - 1]),
        }
    }
}

/// What is wrong with the profiles and the default profile, if anything.
pub open spec fn checked_profiles(
    profiles: Seq<ProfileView>,
    default_id: Option<i32>,
    facts: Seq<PathFacts>,
) -> Result<(), Seq<char>> {
    match first_profile_error(profiles, facts) {
        Some(message) => Err(message),
        None => if default_id is Some && !has_id(profiles, default_id->0 as int) {
            Err("default_profile_id "@ + text::signed_decimal(default_id->0 as int) + " 不存在"@)
        } else {
            Ok(())
        },
    }
}

proof fn lemma_first_profile_error(
    profiles: Seq<ProfileView>,
    facts: Seq<PathFacts>,
    count: int,
)
    requires
        0 <= count <= profiles.len(),
        first_profile_error(profiles.take(count), facts) is Some,
    ensures
        first_profile_error(profiles, facts) == first_profile_error(profiles.take(count), facts),
    decreases profiles.len(),
{
    if count == profiles.len() {
        assert(profiles.take(count) == profiles);
    } else {
        assert(profiles.drop_last().take(count) == profiles.take(count));
        lemma_first_profile_error(profiles.drop_last(), facts, count);
    }
}

/// Where the first profile with an id stands below a limit, or the limit.
pub(crate) fn find_id(profiles: &Vec<ShellProfile>, limit: usize, id: i32) -> (place: usize)
    requires
        limit <= profiles@.len(),
    ensures
        place <= limit,
        place < limit ==> profiles@[place as int].id == id,
        forall|i: int| 0 <= i < place ==> (#[trigger] profiles@[i]).id != id,
        place < limit <==> has_id(settings::profile_views(profiles@).take(limit as int), id as int),
        limit == profiles@.len() ==> place == settings::profile_place(profiles@, id),
{
    let mut place: usize = 0;
    let ghost views = settings::profile_views(profiles@).take(limit as int);
    assert(profiles@.skip(0) == profiles@);
    while place < limit && profiles[place].id != id
        invariant
            place <= limit <= profiles@.len(),
            views == settings::profile_views(profiles@).take(limit as int),
            forall|i: int| 0 <= i < place ==> (#[trigger] profiles@[i]).id != id,
            settings::profile_place(profiles@, id) == place + settings::profile_place(
                profiles@.skip(place as int),
                id,
            ),
        decreases limit - place,
    {
        assert(profiles@.skip(place as int).drop_first() == profiles@.skip(place + 1));
        place += 1;
    }
    proof {
        if place < limit {
            assert(views[place as int].id == id);
        }
        if has_id(views, id as int) {
            let i = choose|i: int| 0 <= i < views.len() && (#[trigger] views[i]).id == id;
            assert(profiles@[i].id == id);
        }
    }
    place
}

/// Checks the profiles, given what is known of their paths.
pub fn check_profiles(settings: &AppSettings, facts: &Vec<PathFacts>) -> (result: Result<(), String>)
    requires
        facts@.len() == settings.profiles@.len(),
    ensures
        text::verdict(result) == checked_profiles(
            settings@.profiles,
            settings@.default_profile_id,
            facts@,
        ),
{
    let ghost all = settings@.profiles;
    let mut index: usize = 0;
    assert(all.take(0) == Seq::<ProfileView>::empty());
    while index < settings.profiles.len()
        invariant
            index <= settings.profiles@.len(),
            facts@.len() == settings.profiles@.len(),
            all == settings::profile_views(settings.profiles@),
            first_profile_error(all.take(index as int), facts@) is None,
        decreases settings.profiles.len() - index,
    {
        let profile: &ShellProfile = &settings.profiles[index];
        let ghost taken = all.take(index + 1);
        proof {
            assert(taken.drop_last() == all.take(index as int));
            assert(taken.last() == profile@);
        }
        let found = if profile.id < 1 {
            Some("Profile 的 id 必须大于 0".to_owned())
        } else if find_id(&settings.profiles, index, profile.id) < index {
            Some(
                text::concat3(
                    "Profile id ",
                    text::signed_decimal_text(profile.id).as_str(),
                    " 重复",
                ),
            )
        } else if text::is_empty_text(text::trim(profile.name.as_str()).as_str()) {
            Some(
                text::concat3(
                    "Profile ",
                    text::signed_decimal_text(profile.id).as_str(),
                    " 的名称不能为空",
                ),
            )
        } else {
            find_launch_error(profile, facts[index])
        };
        assert(text::optional(found) == last_profile_error(taken, facts@[index as int]));
        if let Some(message) = found {
            proof {
                lemma_first_profile_error(all, facts@, index + 1);
            }
            return Err(message);
        }
        index += 1;
    }
    assert(all.take(index as int) == all);
    if let Some(id) = settings.default_profile_id {
        if find_id(&settings.profiles, settings.profiles.len(), id) == settings.profiles.len() {
            return Err(
                text::concat3(
                    "default_profile_id ",
                    text::signed_decimal_text(id).as_str(),
                    " 不存在",
                ),
            );
        }
    }
    Ok(())
}

/// A path that may be left out, as a text.
pub open spec fn written_path(path: Option<Seq<char>>) -> Seq<char> {
    match path {
        Some(path) => path,
        None => Seq::empty(),
    }
}

/// Facts that the system may state of the paths of each profile.
pub open spec fn all_agree(
    facts: Seq<PathFacts>,
    files: Seq<ProfileFiles>,
    profiles: Seq<ProfileView>,
) -> bool {
    facts.len() == files.len() && forall|i: int|
        0 <= i < files.len() ==> agree(
            #[trigger] facts[i],
            files[i],
            profiles[i].program,
            written_path(profiles[i].working_directory),
            written_path(profiles[i].ssh_identity_file),
        )
}

fn path_or_empty(path: &Option<String>) -> (written: String)
    ensures
        written@ == written_path(text::optional(*path)),
{
    match path {
        Some(path) => path.clone(),
        None => String::new(),
    }
}

/// Checks the profiles. `files` says for each profile what of its cleaned paths
/// exists.
pub fn validate_profiles(settings: &AppSettings, files: &Vec<ProfileFiles>) -> (result: Result<
    (),
    String,
>)
    requires
        files@.len() == settings.profiles@.len(),
    ensures
        exists|facts: Seq<PathFacts>| #[trigger]
            all_agree(facts, files@, settings@.profiles) && text::verdict(result)
                == checked_profiles(
                settings@.profiles,
                settings@.default_profile_id,
                facts,
            ),
{
    let mut facts: Vec<PathFacts> = Vec::new();
    while facts.len() < files.len()
        invariant
            facts@.len() <= files@.len(),
            files@.len() == settings.profiles@.len(),
            forall|i: int|
                0 <= i < facts@.len() ==> agree(
                    #[trigger] facts@[i],
                    files@[i],
                    settings@.profiles[i].program,
                    written_path(settings@.profiles[i].working_directory),
                    written_path(settings@.profiles[i].ssh_identity_file),
                ),
        decreases files.len() - facts.len(),
    {
        let index: usize = facts.len();
        let profile: &ShellProfile = &settings.profiles[index];
        let directory = path_or_empty(&profile.working_directory);
        let identity = path_or_empty(&profile.ssh_identity_file);
        facts.push(
            PathFacts {
                program: observe(profile.program.as_str(), files[index].program),
                directory: observe(directory.as_str(), files[index].directory),
                identity: observe(identity.as_str(), files[index].identity),
            },
        );
    }
    assert(all_agree(facts@, files@, settings@.profiles));
    check_profiles(settings, &facts)
}

/// A shell that was found on the system.
#[derive(Debug)]
pub struct DetectedShell {
    pub name: String,
    pub program: String,
    pub arguments: Vec<String>,
    /// Whether the program is a file.
    pub is_file: bool,
}

/// What a `DetectedShell` holds.
#[verifier::ext_equal]
pub struct ShellView {
    pub name: Seq<char>,
    pub program: Seq<char>,
    pub arguments: Seq<Seq<char>>,
    pub is_file: bool,
}

impl View for DetectedShell {
    type V = ShellView;

    open spec fn view(&self) -> ShellView {
        ShellView {
            name: self.name@,
            program: self.program@,
            arguments: text::texts(self.arguments@),
            is_file: self.is_file,
        }
    }
}

/// What a list of shells holds.
pub open spec fn shell_views(shells: Seq<DetectedShell>) -> Seq<ShellView> {
    shells.map_values(|shell: DetectedShell| shell@)
}

/// Whether one of the shells is a program, whatever the case of its letters.
pub open spec fn has_program(shells: Seq<ShellView>, program: Seq<char>) -> bool {
    exists|i: int|
        0 <= i < shells.len() && lowered((#[trigger] shells[i]).program) == lowered(
            program,
        )
}

/// The candidates that are files, each program once.
pub open spec fn found_shells(candidates: Seq<ShellView>) -> Seq<ShellView>
    decreases candidates.len(),
{
    if candidates.len() == 0 {
        Seq::empty()
    } else {
        let before = found_shells(candidates.drop_last());
        let last = candidates.last();
        if last.is_file && !has_program(before, last.program) {
            before.push(last)
        } else {
            before
        }
    }
}

fn knows_program(shells: &Vec<DetectedShell>, program: &str) -> (known: bool)
    ensures
        known == has_program(shell_views(shells@), program@),
{
    let ghost views = shell_views(shells@);
    let lower = lower_case(program);
    let mut index: usize = 0;
    while index < shells.len()
        invariant
            index <= shells@.len(),
            views == shell_views(shells@),
            lower@ == lowered(program@),
            forall|i: int|
                0 <= i < index ==> lowered((#[trigger] views[i]).program) != lowered(
                    program@,
                ),
        decreases shells.len() - index,
    {
        let other = lower_case(shells[index].program.as_str());
        if text::same_text(other.as_str(), lower.as_str()) {
            assert(lowered(views[index as int].program) == lowered(program@));
            return true;
        }
        index += 1;
    }
    false
}

/// Keeps the candidates that are files, each program once.
pub fn detected_profiles(candidates: Vec<DetectedShell>) -> (shells: Vec<DetectedShell>)
    ensures
        shell_views(shells@) == found_shells(shell_views(candidates@)),
{
    let ghost all = shell_views(candidates@);
    let mut rest: Vec<DetectedShell> = candidates;
    let mut shells: Vec<DetectedShell> = Vec::new();
    let ghost mut count: int = 0;
    assert(shell_views(shells@) == found_shells(all.take(0)));
    assert(shell_views(rest@) == all.skip(0));
    while rest.len() > 0
        invariant
            0 <= count <= all.len(),
            shell_views(rest@) == all.skip(count),
            shell_views(shells@) == found_shells(all.take(count)),
        decreases rest.len(),
    {
        let ghost before = rest@;
        let shell = rest.remove(0);
        proof {
            assert(shell_views(before) == all.skip(count));
            assert(shell_views(before)[0] == shell@);
            assert(all.skip(count).len() == before.len());
            assert(all.skip(count)[0] == all[count]);
            assert(shell_views(rest@) == shell_views(before).drop_first());
            assert(all.skip(count).drop_first() == all.skip(count + 1));
            assert(all.take(count + 1).drop_last() == all.take(count));
            assert(all.take(count + 1).last() == shell@);
            count = count + 1;
        }
        if shell.is_file && !knows_program(&shells, shell.program.as_str()) {
            let ghost earlier = shell_views(shells@);
            let ghost view = shell@;
            shells.push(shell);
            assert(shell_views(shells@) == earlier.push(view));
        }
    }
    assert(all.take(count) == all);
    shells
}

/// The id that is given out next.
pub open spec fn fresh_id(next: int) -> int {
    if next < 1 {
        1
    } else {
        next
    }
}

/// The number behind an id, as far as ids go.
pub open spec fn id_after(id: int) -> int {
    if id == i32::MAX {
        id
    } else {
        id + 1
    }
}

/// The settings with a profile for each of some shells that were listed by
/// their paths alone.
pub open spec fn migrated(
    before: SettingsView,
    shells: Seq<Seq<char>>,
    names: Seq<Seq<char>>,
) -> SettingsView
    decreases shells.len(),
{
    if shells.len() == 0 {
        before
    } else {
        let earlier = migrated(before, shells.drop_last(), names);
        let id = fresh_id(earlier.next_profile_id);
        SettingsView {
            profiles: earlier.profiles.push(
                ProfileView {
                    id,
                    name: names[shells.len() - 1],
                    program: shells.last(),
                    ..settings::empty_profile()
                },
            ),
            default_profile_id: if before.default_shell is Some && text::same_ignoring_case(
                before.default_shell->0,
                shells.last(),
            ) {
                Some(id as i32)
            } else {
                earlier.default_profile_id
            },
            next_profile_id: id_after(id),
            ..earlier
        }
    }
}

/// The settings with a profile for each of some shells that were found.
pub open spec fn with_shells(before: SettingsView, shells: Seq<ShellView>) -> SettingsView
    decreases shells.len(),
{
    if shells.len() == 0 {
        before
    } else {
        let earlier = with_shells(before, shells.drop_last());
        let id = fresh_id(earlier.next_profile_id);
        SettingsView {
            profiles: earlier.profiles.push(
                ProfileView {
                    id,
                    name: shells.last().name,
                    program: shells.last().program,
                    arguments: shells.last().arguments,
                    ..settings::empty_profile()
                },
            ),
            next_profile_id: id_after(id),
            ..earlier
        }
    }
}

/// The id of the first profile.
pub open spec fn first_id(profiles: Seq<ProfileView>) -> Option<i32> {
    if profiles.len() == 0 {
        None
    } else {
        Some(profiles[0].id as i32)
    }
}

/// The arguments that are not blank, as they are.
pub open spec fn not_blank(arguments: Seq<Seq<char>>) -> Seq<Seq<char>>
    decreases arguments.len(),
{
    if arguments.len() == 0 {
        Seq::empty()
    } else if text::trimmed(arguments.last()).len() == 0 {
        not_blank(arguments.drop_last())
    } else {
        not_blank(arguments.drop_last()).push(arguments.last())
    }
}

/// Whether a profile has a name and something to run.
pub open spec fn usable(profile: ProfileView) -> bool {
    text::trimmed(profile.name).len() > 0 && (match profile.kind {
        ProfileKind::Local => text::trimmed(profile.program).len() > 0,
        ProfileKind::Ssh => text::trimmed(profile.ssh_host).len() > 0,
    })
}

/// A profile without needless white space.
pub open spec fn tidy(profile: ProfileView) -> ProfileView {
    ProfileView {
        name: text::trimmed(profile.name),
        program: cleaned(profile.program),
        ssh_host: text::trimmed(profile.ssh_host),
        ssh_user: text::trimmed(profile.ssh_user),
        arguments: not_blank(profile.arguments),
        working_directory: if profile.working_directory is Some
            && profile.working_directory->0.len() == 0 {
            None
        } else {
            profile.working_directory
        },
        ..profile
    }
}

/// The usable profiles, tidied.
pub open spec fn tidied(profiles: Seq<ProfileView>) -> Seq<ProfileView>
    decreases profiles.len(),
{
    if profiles.len() == 0 {
        Seq::empty()
    } else {
        let before = tidied(profiles.drop_last());
        if usable(profiles.last()) {
            before.push(tidy(profiles.last()))
        } else {
            before
        }
    }
}

/// A number behind every id.
pub open spec fn next_after(profiles: Seq<ProfileView>) -> int
    decreases profiles.len(),
{
    if profiles.len() == 0 {
        1
    } else {
        let before = next_after(profiles.drop_last());
        if before < id_after(profiles.last().id) {
            id_after(profiles.last().id)
        } else {
            before
        }
    }
}

/// The settings with profiles: those that are there, else those of the shells
/// that were listed, else those of the shells that were found.
pub open spec fn filled(
    before: SettingsView,
    names: Seq<Seq<char>>,
    found: Seq<ShellView>,
) -> SettingsView {
    let listed = if before.profiles.len() == 0 {
        migrated(before, before.shells, names)
    } else {
        before
    };
    if listed.profiles.len() == 0 {
        let added = with_shells(listed, found);
        SettingsView { default_profile_id: first_id(added.profiles), ..added }
    } else {
        listed
    }
}

/// The settings with usable, tidy profiles, a default that is one of them, and
/// a next id behind all of theirs.
pub open spec fn normalized_profiles(
    before: SettingsView,
    names: Seq<Seq<char>>,
    found: Seq<ShellView>,
) -> SettingsView {
    let complete = filled(before, names, found);
    let profiles = tidied(complete.profiles);
    SettingsView {
        profiles,
        next_profile_id: if complete.next_profile_id < next_after(profiles) {
            next_after(profiles)
        } else {
            complete.next_profile_id
        },
        default_profile_id: if complete.default_profile_id is Some && !has_id(
            profiles,
            complete.default_profile_id->0 as int,
        ) {
            first_id(profiles)
        } else {
            complete.default_profile_id
        },
        shells: Seq::empty(),
        default_shell: None,
        ..complete
    }
}

fn keep_arguments(arguments: &Vec<String>) -> (kept: Vec<String>)
    ensures
        text::texts(kept@) == not_blank(text::texts(arguments@)),
{
    let ghost all = text::texts(arguments@);
    let mut kept: Vec<String> = Vec::new();
    let mut index: usize = 0;
    assert(text::texts(kept@) == not_blank(all.take(0)));
    while index < arguments.len()
        invariant
            index <= arguments@.len(),
            all == text::texts(arguments@),
            text::texts(kept@) == not_blank(all.take(index as int)),
        decreases arguments.len() - index,
    {
        assert(all.take(index + 1).drop_last() == all.take(index as int));
        assert(all.take(index + 1).last() == arguments@[index as int]@);
        let bare = text::trim(arguments[index].as_str());
        if !text::is_empty_text(bare.as_str()) {
            let ghost before = text::texts(kept@);
            kept.push(arguments[index].clone());
            assert(text::texts(kept@) == before.push(arguments@[index as int]@));
        }
        index += 1;
    }
    assert(all.take(index as int) == all);
    kept
}

fn is_usable(profile: &ShellProfile) -> (kept: bool)
    ensures
        kept == usable(profile@),
{
    let name = text::trim(profile.name.as_str());
    if text::is_empty_text(name.as_str()) {
        return false;
    }
    let run = match profile.kind {
        ProfileKind::Local => text::trim(profile.program.as_str()),
        ProfileKind::Ssh => text::trim(profile.ssh_host.as_str()),
    };
    !text::is_empty_text(run.as_str())
}

fn tidy_profile(profile: ShellProfile) -> (clean: ShellProfile)
    ensures
        clean@ == tidy(profile@),
{
    let mut clean = profile;
    clean.name = text::trim(clean.name.as_str());
    clean.program = clean_path(clean.program.as_str());
    clean.ssh_host = text::trim(clean.ssh_host.as_str());
    clean.ssh_user = text::trim(clean.ssh_user.as_str());
    clean.arguments = keep_arguments(&clean.arguments);
    let blank = match &clean.working_directory {
        Some(directory) => text::is_empty_text(directory.as_str()),
        None => false,
    };
    if blank {
        clean.working_directory = None;
    }
    clean
}

fn tidy_profiles(profiles: Vec<ShellProfile>) -> (result: (Vec<ShellProfile>, i32))
    ensures
        settings::profile_views(result.0@) == tidied(settings::profile_views(profiles@)),
        result.1 == next_after(tidied(settings::profile_views(profiles@))),
{
    let ghost all = settings::profile_views(profiles@);
    let mut rest: Vec<ShellProfile> = profiles;
    let mut clean: Vec<ShellProfile> = Vec::new();
    let mut next_id: i32 = 1;
    let ghost mut count: int = 0;
    assert(settings::profile_views(clean@) == tidied(all.take(0)));
    assert(settings::profile_views(rest@) == all.skip(0));
    while rest.len() > 0
        invariant
            0 <= count <= all.len(),
            settings::profile_views(rest@) == all.skip(count),
            settings::profile_views(clean@) == tidied(all.take(count)),
            next_id == next_after(tidied(all.take(count))),
        decreases rest.len(),
    {
        let ghost before = rest@;
        let profile = rest.remove(0);
        proof {
            assert(settings::profile_views(before) == all.skip(count));
            assert(settings::profile_views(before)[0] == profile@);
            assert(all.skip(count).len() == before.len());
            assert(all.skip(count)[0] == all[count]);
            assert(settings::profile_views(rest@) == settings::profile_views(before).drop_first());
            assert(all.skip(count).drop_first() == all.skip(count + 1));
            assert(all.take(count + 1).drop_last() == all.take(count));
            assert(all.take(count + 1).last() == profile@);
            count = count + 1;
        }
        if is_usable(&profile) {
            let ghost earlier = settings::profile_views(clean@);
            let tidied_profile = tidy_profile(profile);
            let after: i32 = if tidied_profile.id == i32::MAX {
                i32::MAX
            } else {
                tidied_profile.id + 1
            };
            if next_id < after {
                next_id = after;
            }
            let ghost view = tidied_profile@;
            clean.push(tidied_profile);
            assert(settings::profile_views(clean@) == earlier.push(view));
            assert(earlier.push(view).drop_last() == earlier);
        }
    }
    assert(all.take(count) == all);
    (clean, next_id)
}

fn migrate_shells(settings: &mut AppSettings, names: &Vec<String>)
    requires
        names@.len() == old(settings).shells@.len(),
    ensures
        final(settings)@ == migrated(
            old(settings)@,
            old(settings)@.shells,
            text::texts(names@),
        ),
{
    let ghost before = settings@;
    let ghost listed = before.shells;
    let mut index: usize = 0;
    assert(listed.take(0) == Seq::<Seq<char>>::empty());
    while index < settings.shells.len()
        invariant
            index <= settings.shells@.len(),
            names@.len() == settings.shells@.len(),
            text::texts(settings.shells@) == listed,
            listed == before.shells,
            text::optional(settings.default_shell) == before.default_shell,
            settings@ == migrated(before, listed.take(index as int), text::texts(names@)),
        decreases settings.shells.len() - index,
    {
        proof {
            assert(listed.take(index + 1).drop_last() == listed.take(index as int));
            assert(listed.take(index + 1).last() == settings.shells@[index as int]@);
        }
        let id = settings.allocate_profile_id();
        let path = settings.shells[index].clone();
        let is_default = match &settings.default_shell {
            Some(default) => text::eq_ignore_ascii_case(default.as_str(), path.as_str()),
            None => false,
        };
        if is_default {
            settings.default_profile_id = Some(id);
        }
        let mut profile = ShellProfile::empty();
        profile.id = id;
        profile.name = names[index].clone();
        profile.program = path;
        let ghost earlier = settings::profile_views(settings.profiles@);
        let ghost view = profile@;
        settings.profiles.push(profile);
        proof {
            assert(settings::profile_views(settings.profiles@) == earlier.push(view));
            assert(text::texts(names@)[index as int] == names@[index as int]@);
            assert(settings@ =~= migrated(
                before,
                listed.take(index + 1),
                text::texts(names@),
            ));
        }
        index += 1;
    }
    assert(listed.take(index as int) == listed);
}

fn add_shells(settings: &mut AppSettings, found: &Vec<DetectedShell>)
    ensures
        final(settings)@ == with_shells(old(settings)@, shell_views(found@)),
{
    let ghost before = settings@;
    let ghost all = shell_views(found@);
    let mut index: usize = 0;
    assert(all.take(0) == Seq::<ShellView>::empty());
    while index < found.len()
        invariant
            index <= found@.len(),
            all == shell_views(found@),
            settings@ == with_shells(before, all.take(index as int)),
        decreases found.len() - index,
    {
        proof {
            assert(all.take(index + 1).drop_last() == all.take(index as int));
            assert(all.take(index + 1).last() == found@[index as int]@);
        }
        let id = settings.allocate_profile_id();
        let mut profile = ShellProfile::empty();
        profile.id = id;
        profile.name = found[index].name.clone();
        profile.program = found[index].program.clone();
        profile.arguments = text::copy_texts(&found[index].arguments);
        let ghost earlier = settings::profile_views(settings.profiles@);
        let ghost view = profile@;
        settings.profiles.push(profile);
        proof {
            assert(settings::profile_views(settings.profiles@) == earlier.push(view));
            assert(settings@ =~= with_shells(before, all.take(index + 1)));
        }
        index += 1;
    }
    assert(all.take(index as int) == all);
}

fn first_profile_id(profiles: &Vec<ShellProfile>) -> (id: Option<i32>)
    ensures
        id == first_id(settings::profile_views(profiles@)),
{
    if profiles.len() == 0 {
        None
    } else {
        Some(profiles[0].id)
    }
}

/// Brings the profiles in order, given the names for shells that were listed by
/// their paths alone.
pub fn arrange_profiles(
    settings: &mut AppSettings,
    names: &Vec<String>,
    found: &Vec<DetectedShell>,
)
    requires
        names@.len() == old(settings).shells@.len(),
    ensures
        final(settings)@ == normalized_profiles(
            old(settings)@,
            text::texts(names@),
            shell_views(found@),
        ),
{
    let ghost before = settings@;
    if settings.profiles.len() == 0 {
        migrate_shells(settings, names);
    }
    if settings.profiles.len() == 0 {
        add_shells(settings, found);
        settings.default_profile_id = first_profile_id(&settings.profiles);
    }
    let ghost complete = filled(before, text::texts(names@), shell_views(found@));
    assert(settings@ =~= complete);
    settings.shells = Vec::new();
    settings.default_shell = None;
    let mut profiles: Vec<ShellProfile> = Vec::new();
    std::mem::swap(&mut profiles, &mut settings.profiles);
    let (clean, next_id) = tidy_profiles(profiles);
    settings.profiles = clean;
    if settings.next_profile_id < next_id {
        settings.next_profile_id = next_id;
    }
    if let Some(id) = settings.default_profile_id {
        let count: usize = settings.profiles.len();
        assert(settings::profile_views(settings.profiles@).take(count as int)
            == settings::profile_views(settings.profiles@));
        if find_id(&settings.profiles, count, id) == count {
            settings.default_profile_id = first_profile_id(&settings.profiles);
        }
    }
    proof {
        assert(text::texts(settings.shells@) == Seq::<Seq<char>>::empty());
        assert(settings@ =~= normalized_profiles(
            before,
            text::texts(names@),
            shell_views(found@),
        ));
    }
}

/// Names that programs may get.
pub open spec fn names_for(names: Seq<Seq<char>>, programs: Seq<Seq<char>>) -> bool {
    names.len() == programs.len() && forall|i: int|
        0 <= i < names.len() ==> may_name(programs[i], #[trigger] names[i])
}

/// Brings the profiles in order: shells that older settings listed become
/// profiles, without any the shells that were found do, unusable profiles go,
/// the others are tidied, and the default is one of them.
pub fn normalize_profiles(settings: &mut AppSettings, found: &Vec<DetectedShell>)
    ensures
        exists|names: Seq<Seq<char>>| #[trigger]
            names_for(names, old(settings)@.shells) && final(settings)@
                == normalized_profiles(old(settings)@, names, shell_views(found@)),
{
    let mut names: Vec<String> = Vec::new();
    while names.len() < settings.shells.len()
        invariant
            names@.len() <= settings.shells@.len(),
            forall|i: int|
                0 <= i < names@.len() ==> may_name(settings@.shells[i], (#[trigger] names@[i])@),
        decreases settings.shells.len() - names.len(),
    {
        let index: usize = names.len();
        let name = profile_name_from_program(settings.shells[index].as_str());
        names.push(name);
    }
    proof {
        let views = text::texts(names@);
        assert forall|i: int| 0 <= i < views.len() implies may_name(
            settings@.shells[i],
            #[trigger] views[i],
        ) by {
            assert(views[i] == names@[i]@);
        }
        assert(names_for(views, settings@.shells));
    }
    arrange_profiles(settings, &names, found);
}

proof fn lemma_migrated_keeps_numbers(
    before: SettingsView,
    shells: Seq<Seq<char>>,
    names: Seq<Seq<char>>,
)
    ensures
        migrated(before, shells, names).font_size == before.font_size,
        migrated(before, shells, names).scrollback_lines == before.scrollback_lines,
        migrated(before, shells, names).scroll_lines == before.scroll_lines,
        migrated(before, shells, names).shortcuts == before.shortcuts,
    decreases shells.len(),
{
    if shells.len() > 0 {
        lemma_migrated_keeps_numbers(before, shells.drop_last(), names);
    }
}

proof fn lemma_with_shells_keeps_numbers(before: SettingsView, shells: Seq<ShellView>)
    ensures
        with_shells(before, shells).font_size == before.font_size,
        with_shells(before, shells).scrollback_lines == before.scrollback_lines,
        with_shells(before, shells).scroll_lines == before.scroll_lines,
        with_shells(before, shells).shortcuts == before.shortcuts,
    decreases shells.len(),
{
    if shells.len() > 0 {
        lemma_with_shells_keeps_numbers(before, shells.drop_last());
    }
}

/// Filling in profiles changes neither the numbers nor the shortcuts.
pub proof fn lemma_filled_keeps_numbers(
    before: SettingsView,
    names: Seq<Seq<char>>,
    found: Seq<ShellView>,
)
    ensures
        filled(before, names, found).font_size == before.font_size,
        filled(before, names, found).scrollback_lines == before.scrollback_lines,
        filled(before, names, found).scroll_lines == before.scroll_lines,
        filled(before, names, found).shortcuts == before.shortcuts,
{
    lemma_migrated_keeps_numbers(before, before.shells, names);
    let listed = if before.profiles.len() == 0 {
        migrated(before, before.shells, names)
    } else {
        before
    };
    lemma_with_shells_keeps_numbers(listed, found);
}

proof fn lemma_next_after(profiles: Seq<ProfileView>, index: int)
    requires
        0 <= index < profiles.len(),
    ensures
        next_after(profiles) >= id_after(profiles[index].id),
        next_after(profiles) >= 1,
    decreases profiles.len(),
{
    if index < profiles.len() - 1 {
        lemma_next_after(profiles.drop_last(), index);
        assert(profiles.drop_last()[index] == profiles[index]);
    } else if profiles.len() > 1 {
        lemma_next_after(profiles.drop_last(), 0);
    }
}

/// In normalized settings the default, where there is one, is a profile, and
/// the next id is behind the ids of all profiles: an id that is given out is
/// not in use, as long as ids last.
pub proof fn normalized_ids_are_sound(
    before: SettingsView,
    names: Seq<Seq<char>>,
    found: Seq<ShellView>,
)
    ensures
        ({
            let after = normalized_profiles(before, names, found);
            &&& after.default_profile_id is Some && after.profiles.len() > 0 ==> has_id(
                after.profiles,
                after.default_profile_id->0 as int,
            ) || after.default_profile_id == first_id(after.profiles)
            &&& after.profiles.len() == 0 ==> after.default_profile_id is None
            &&& forall|i: int|
                0 <= i < after.profiles.len() && after.profiles[i].id < i32::MAX
                    ==> (#[trigger] after.profiles[i]).id < fresh_id(after.next_profile_id)
        }),
{
    let after = normalized_profiles(before, names, found);
    let complete = filled(before, names, found);
    if after.profiles.len() == 0 && complete.default_profile_id is Some {
        assert(!has_id(after.profiles, complete.default_profile_id->0 as int));
    }
    assert forall|i: int|
        0 <= i < after.profiles.len() && after.profiles[i].id < i32::MAX implies (
    #[trigger] after.profiles[i]).id < fresh_id(after.next_profile_id) by {
        lemma_next_after(after.profiles, i);
    }
}

/// Arguments that a form shows are read back as they are: one on each line,
/// where none is blank, has white space around it or a line end in it.
pub proof fn arguments_are_read_back(arguments: Seq<Seq<char>>)
    requires
        arguments.len() > 0,
        forall|i: int|
            0 <= i < arguments.len() ==> (#[trigger] arguments[i]).len() > 0
                && !arguments[i].contains('\n') && text::trimmed(arguments[i]) == arguments[i],
    ensures
        arguments_in(text::joined(arguments, seq!['\n'])) == arguments,
{
    text::pieces_undo_joining(arguments, '\n');
    lemma_argument_lines(arguments);
}

proof fn lemma_argument_lines(arguments: Seq<Seq<char>>)
    requires
        forall|i: int|
            0 <= i < arguments.len() ==> (#[trigger] arguments[i]).len() > 0 && text::trimmed(
                arguments[i],
            ) == arguments[i],
    ensures
        argument_lines(arguments) == arguments,
    decreases arguments.len(),
{
    if arguments.len() > 0 {
        let shorter = arguments.drop_last();
        assert forall|i: int| 0 <= i < shorter.len() implies (#[trigger] shorter[i]).len() > 0
            && text::trimmed(shorter[i]) == shorter[i] by {
            assert(shorter[i] == arguments[i]);
        }
        lemma_argument_lines(shorter);
        assert(arguments.last() == arguments[arguments.len() - 1]);
        assert(shorter.push(arguments.last()) == arguments);
    }
}

/// A host that passes the check can neither be taken for an option nor for two
/// arguments, and checking it again changes nothing.
pub proof fn checked_hosts_are_plain(host: Seq<char>)
    requires
        checked_host(host) is Ok,
    ensures
        ({
            let name = checked_host(host)->Ok_0;
            &&& name.len() > 0
            &&& name[0] != '-'
            &&& !unprintable(name)
            &&& checked_host(name) == Ok::<Seq<char>, Seq<char>>(name)
        }),
{
    let name = checked_host(host)->Ok_0;
    assert(!text::white_space(name[0]) && !text::white_space(name[name.len() - 1])) by {
        if text::white_space(name[0]) || text::white_space(name[name.len() - 1]) {
            assert(unprintable(name));
        }
    }
    text::trim_keeps_trimmed(name);
}

/// A user that passes the check is the one that was typed, without white space
/// around it. It passes if and only if it has neither white space nor a control
/// character nor an at sign in it, and does not look like an option.
pub proof fn users_pass_if_they_are_plain(user: Seq<char>)
    ensures
        ({
            let name = text::trimmed(user);
            checked_user(user) is Ok <==> !unprintable(name) && !name.contains('@') && !(name.len()
                > 0 && name[0] == '-')
        }),
        checked_user(user) matches Ok(name) ==> name == text::trimmed(user),
{
}

/// A host that passes the check is the one that was typed, without white space
/// around it. It passes if and only if there is one that has neither white space
/// nor a control character in it and does not look like an option.
pub proof fn hosts_pass_if_they_are_plain(host: Seq<char>)
    ensures
        ({
            let name = text::trimmed(host);
            checked_host(host) is Ok <==> name.len() > 0 && !unprintable(name) && name[0] != '-'
        }),
        checked_host(host) matches Ok(name) ==> name == text::trimmed(host),
{
}

/// A port passes if and only if it is between 1 and 65535, and stays what it is. A
/// password passes if and only if it fits on one line and has no null character,
/// and stays what it is, white space included. The name of a variable passes if
/// and only if it is not empty and holds neither a null character nor an equals
/// sign.
pub proof fn values_pass_as_they_are(port: int, password: Seq<char>, key: Seq<char>)
    ensures
        checked_port(port) is Ok <==> 1 <= port <= 65535,
        checked_port(port) matches Ok(kept) ==> kept == port,
        checked_password(password) is Ok <==> forall|i: int|
            0 <= i < password.len() ==> (#[trigger] password[i]) != '\0' && password[i] != '\r'
                && password[i] != '\n',
        checked_password(password) matches Ok(kept) ==> kept == password,
        checked_key(key) is Ok <==> key.len() > 0 && forall|i: int|
            0 <= i < key.len() ==> (#[trigger] key[i]) != '\0' && key[i] != '=',
{
    if checked_password(password) is Ok {
        assert forall|i: int| 0 <= i < password.len() implies (#[trigger] password[i]) != '\0'
            && password[i] != '\r' && password[i] != '\n' by {
            assert(password.contains(password[i]));
        }
    }
    if checked_key(key) is Ok {
        assert forall|i: int| 0 <= i < key.len() implies (#[trigger] key[i]) != '\0' && key[i]
            != '=' by {
            assert(key.contains(key[i]));
        }
    }
}

/// A path that passes is the one that was typed, without white space and quotation
/// marks around it. It has to be absolute and there has to be something at it; a
/// program has to be named, a working directory and a key file may be left out.
pub proof fn paths_pass_if_something_is_there(path: Seq<char>, fact: PathFact)
    ensures
        ({
            let bare = text::unquoted(text::trimmed(path));
            let there = bare.len() > 0 && fact.absolute && fact.exists;
            &&& checked_program(path, fact) is Ok <==> there
            &&& checked_program(path, fact) matches Ok(kept) ==> kept == bare
            &&& checked_directory(path, fact) is Ok <==> there || bare.len() == 0
            &&& checked_directory(path, fact) matches Ok(kept) ==> kept == (if bare.len() == 0 {
                None
            } else {
                Some(bare)
            })
            &&& checked_identity(path, fact) is Ok <==> there || bare.len() == 0
            &&& checked_identity(path, fact) matches Ok(kept) ==> kept == (if bare.len() == 0 {
                None
            } else {
                Some(bare)
            })
        }),
{
}

/// The arguments in a text are its lines without white space around them, in their
/// order; blank lines are left out.
pub proof fn arguments_are_the_lines(lines: Seq<Seq<char>>)
    ensures
        argument_lines(lines) == lines.map_values(|line: Seq<char>| text::trimmed(line)).filter(
            |line: Seq<char>| line.len() > 0,
        ),
    decreases lines.len(),
{
    reveal(Seq::filter);
    let bare = lines.map_values(|line: Seq<char>| text::trimmed(line));
    if lines.len() > 0 {
        arguments_are_the_lines(lines.drop_last());
        assert(bare.drop_last() =~= lines.drop_last().map_values(
            |line: Seq<char>| text::trimmed(line),
        ));
    } else {
        assert(bare =~= Seq::<Seq<char>>::empty());
        assert(argument_lines(lines) =~= bare.filter(|line: Seq<char>| line.len() > 0));
    }
}

proof fn lemma_first_sign(name: Seq<char>, value: Seq<char>)
    requires
        !name.contains('='),
    ensures
        text::first_position(name + seq!['='] + value, '=') == name.len(),
    decreases name.len(),
{
    let line = name + seq!['='] + value;
    if name.len() > 0 {
        let rest = name.drop_first();
        assert(name.contains(name[0]));
        assert forall|i: int| 0 <= i < rest.len() implies rest[i] != '=' by {
            assert(name.contains(name[i + 1]));
        }
        lemma_first_sign(rest, value);
        assert(line.drop_first() =~= rest + seq!['='] + value);
    }
}

/// One more line with variables. A line with a name, an equals sign and a value sets
/// that variable: the first equals sign divides them, and white space around each
/// is left out. A blank line sets nothing. A line without an equals sign, or with
/// a name that does not pass, is an error that tells its number.
pub proof fn lines_set_their_variables(
    lines: Seq<Seq<char>>,
    line: Seq<char>,
    name: Seq<char>,
    value: Seq<char>,
)
    requires
        environment_lines(lines) is Ok,
        !name.contains('='),
    ensures
        ({
            let before = environment_lines(lines)->Ok_0;
            let after = environment_lines(lines.push(line));
            let bare = text::trimmed(line);
            &&& environment_lines(Seq::empty()) matches Ok(none) && none.len() == 0
            &&& bare.len() == 0 ==> after == environment_lines(lines)
            &&& bare == name + seq!['='] + value && checked_key(text::trimmed(name)) is Ok ==> after
                == Ok::<Seq<(Seq<char>, Seq<char>)>, Seq<char>>(
                environment::with_variable(before, text::trimmed(name), text::trimmed(value)),
            )
            &&& bare == name + seq!['='] + value && checked_key(text::trimmed(name)) is Err ==> after
                is Err
            &&& bare.len() > 0 && !bare.contains('=') ==> after == Err::<
                Seq<(Seq<char>, Seq<char>)>,
                Seq<char>,
            >("错误：环境变量第 "@ + text::decimal(lines.len() + 1) + " 行缺少 ="@)
        }),
{
    let longer = lines.push(line);
    assert(longer.drop_last() =~= lines);
    let bare = text::trimmed(line);
    if bare == name + seq!['='] + value {
        lemma_first_sign(name, value);
        assert(bare[name.len() as int] == '=');
        assert(bare.contains('='));
        assert(bare.take(name.len() as int) =~= name);
        assert(bare.skip((name.len() + 1) as int) =~= value);
    }
}

/// The first line that is wrong decides about the whole text: what comes behind it
/// does not help.
pub proof fn wrong_lines_stay_wrong(lines: Seq<Seq<char>>, line: Seq<char>)
    requires
        environment_lines(lines) is Err,
    ensures
        environment_lines(lines.push(line)) == environment_lines(lines),
{
    assert(lines.push(line).drop_last() =~= lines);
}

proof fn lemma_last_dot_found(base: Seq<char>, extension: Seq<char>)
    requires
        !extension.contains('.'),
    ensures
        last_dot(base + seq!['.'] + extension) == base.len(),
    decreases extension.len(),
{
    let name = base + seq!['.'] + extension;
    if extension.len() > 0 {
        let shorter = extension.drop_last();
        assert(extension.contains(extension.last()));
        assert forall|i: int| 0 <= i < shorter.len() implies shorter[i] != '.' by {
            assert(extension.contains(extension[i]));
        }
        lemma_last_dot_found(base, shorter);
        assert(name.drop_last() =~= base + seq!['.'] + shorter);
    }
}

proof fn lemma_no_dot(name: Seq<char>)
    requires
        !name.contains('.'),
    ensures
        last_dot(name) == -1,
    decreases name.len(),
{
    if name.len() > 0 {
        let shorter = name.drop_last();
        assert(name.contains(name.last()));
        assert forall|i: int| 0 <= i < shorter.len() implies shorter[i] != '.' by {
            assert(name.contains(name[i]));
        }
        lemma_no_dot(shorter);
    }
}

/// The stem of a file name is what stands before its last dot, and all of it where
/// there is none or the only one is at its start.
pub proof fn stems_have_no_extension(base: Seq<char>, extension: Seq<char>)
    requires
        !extension.contains('.'),
    ensures
        base.len() > 0 ==> stem_of(base + seq!['.'] + extension) == base,
        stem_of(seq!['.'] + extension) == seq!['.'] + extension,
        stem_of(extension) == extension,
{
    lemma_last_dot_found(base, extension);
    lemma_last_dot_found(Seq::empty(), extension);
    assert(Seq::<char>::empty() + seq!['.'] + extension =~= seq!['.'] + extension);
    lemma_no_dot(extension);
    let name = base + seq!['.'] + extension;
    assert(name.take(base.len() as int) =~= base);
}

/// The last part of a path is what stands behind its last slash, and all of it where
/// there is none.
pub proof fn last_parts_stand_behind_the_slash(start: Seq<char>, name: Seq<char>)
    requires
        !name.contains('/'),
    ensures
        last_part(start + seq!['/'] + name) == name,
        last_part(name) == name,
    decreases name.len(),
{
    let path = start + seq!['/'] + name;
    if name.len() > 0 {
        let shorter = name.drop_last();
        assert(name.contains(name.last()));
        assert forall|i: int| 0 <= i < shorter.len() implies shorter[i] != '/' by {
            assert(name.contains(name[i]));
        }
        last_parts_stand_behind_the_slash(start, shorter);
        assert(path.drop_last() =~= start + seq!['/'] + shorter);
        assert(shorter.push(name.last()) =~= name);
    } else {
        assert(path.last() == '/');
        assert(last_part(path) =~= name);
        assert(last_part(name) =~= name);
    }
}

proof fn lemma_sound_profiles(profiles: Seq<ProfileView>, facts: Seq<PathFacts>)
    ensures
        first_profile_error(profiles, facts) is None <==> forall|i: int|
            0 <= i < profiles.len() ==> sound_at(profiles, facts, i),
    decreases profiles.len(),
{
    if profiles.len() > 0 {
        let shorter = profiles.drop_last();
        let last = profiles.len() - 1;
        lemma_sound_profiles(shorter, facts);
        assert(profiles[last] == profiles.last());
        assert forall|i: int| 0 <= i < last implies sound_at(profiles, facts, i) == sound_at(
            shorter,
            facts,
            i,
        ) by {
            assert(shorter[i] == profiles[i]);
            assert forall|j: int| 0 <= j < i implies shorter[j] == #[trigger] profiles[j] by {}
            assert forall|j: int| 0 <= j < i implies profiles[j] == #[trigger] shorter[j] by {}
        }
        if has_id(shorter, profiles[last].id) {
            let j = choose|j: int| 0 <= j < shorter.len() && (#[trigger] shorter[j]).id
                == profiles[last].id;
            assert(profiles[j].id == profiles[last].id);
        }
        if !has_id(shorter, profiles[last].id) {
            assert forall|j: int| 0 <= j < last implies (#[trigger] profiles[j]).id
                != profiles[last].id by {
                assert(shorter[j].id == profiles[j].id);
            }
        }
        if first_profile_error(profiles, facts) is None {
            assert forall|i: int| 0 <= i < profiles.len() implies sound_at(profiles, facts, i) by {
                if i < last {
                    assert(sound_at(shorter, facts, i));
                }
            }
        }
        if forall|i: int| 0 <= i < profiles.len() ==> sound_at(profiles, facts, i) {
            assert forall|i: int| 0 <= i < shorter.len() implies sound_at(shorter, facts, i) by {
                assert(sound_at(profiles, facts, i));
            }
            assert(sound_at(profiles, facts, last));
        }
    }
}

/// Whether the profile at a place is as it should be: its id is positive and no
/// profile before it has it, it has a name, and what it runs passes.
pub open spec fn sound_at(profiles: Seq<ProfileView>, facts: Seq<PathFacts>, place: int) -> bool {
    let profile = profiles[place];
    &&& profile.id >= 1
    &&& forall|j: int| 0 <= j < place ==> (#[trigger] profiles[j]).id != profile.id
    &&& text::trimmed(profile.name).len() > 0
    &&& launch_error(profile, facts[place]) is None
}

/// Profiles pass the check if and only if each has a positive id of its own, a name
/// and something to run that passes, and the default one, if any, is among them.
pub proof fn profiles_pass_if_each_is_sound(
    profiles: Seq<ProfileView>,
    default_id: Option<i32>,
    facts: Seq<PathFacts>,
)
    ensures
        checked_profiles(profiles, default_id, facts) is Ok <==> (forall|i: int|
            0 <= i < profiles.len() ==> sound_at(profiles, facts, i)) && (default_id matches Some(
            id,
        ) ==> exists|i: int| 0 <= i < profiles.len() && (#[trigger] profiles[i]).id == id),
{
    lemma_sound_profiles(profiles, facts);
}

/// What a profile runs passes if and only if all parts of it do: of a local profile
/// the program, the working directory and the names of the variables, of a profile
/// for another machine the host, the user, the port, the key file and the password.
pub proof fn launches_pass_if_every_part_does(profile: ProfileView, facts: PathFacts)
    ensures
        profile.kind is Local ==> (launch_error(profile, facts) is None <==> checked_program(
            profile.program,
            facts.program,
        ) is Ok && (profile.working_directory matches Some(directory) ==> checked_directory(
            directory,
            facts.directory,
        ) is Ok) && forall|i: int|
            0 <= i < profile.environment.len() ==> checked_key(
                (#[trigger] profile.environment[i]).0,
            ) is Ok),
        profile.kind is Ssh ==> (launch_error(profile, facts) is None <==> checked_host(
            profile.ssh_host,
        ) is Ok && checked_user(profile.ssh_user) is Ok && checked_port(profile.ssh_port) is Ok && (
        profile.ssh_identity_file matches Some(file) ==> checked_identity(file, facts.identity)
            is Ok) && checked_password(profile.ssh_password) is Ok),
{
    lemma_good_keys(profile.environment);
}

proof fn lemma_good_keys(variables: Seq<(Seq<char>, Seq<char>)>)
    ensures
        first_bad_key(variables) is None <==> forall|i: int|
            0 <= i < variables.len() ==> checked_key((#[trigger] variables[i]).0) is Ok,
    decreases variables.len(),
{
    if variables.len() > 0 {
        let shorter = variables.drop_last();
        lemma_good_keys(shorter);
        assert(variables[variables.len() - 1] == variables.last());
        assert forall|i: int| 0 <= i < shorter.len() implies shorter[i] == #[trigger] variables[i] by {}
        if forall|i: int| 0 <= i < variables.len() ==> checked_key((#[trigger] variables[i]).0)
            is Ok {
            assert forall|i: int| 0 <= i < shorter.len() implies checked_key(
                (#[trigger] shorter[i]).0,
            ) is Ok by {
                assert(checked_key(variables[i].0) is Ok);
            }
        }
    }
}

/// A form that is accepted gives a profile with what was typed: the name without
/// white space around it and the arguments, for a local profile the program, the
/// directory and the variables, for another machine the host, the user, the port,
/// the key file and the password. Fields of the other kind stay empty. A form is
/// accepted if and only if each of its own fields passes.
pub proof fn forms_give_what_was_typed(
    id: i32,
    name: Seq<char>,
    kind_index: i32,
    program: Seq<char>,
    arguments: Seq<char>,
    directory: Seq<char>,
    environment_text: Seq<char>,
    host: Seq<char>,
    user: Seq<char>,
    port: i32,
    identity: Seq<char>,
    password: Seq<char>,
    facts: PathFacts,
)
    ensures
        ({
            let made = profile_of_form(
                id,
                name,
                kind_index,
                program,
                arguments,
                directory,
                environment_text,
                host,
                user,
                port,
                identity,
                password,
                facts,
            );
            &&& kind_index == 0 ==> (made is Ok <==> text::trimmed(name).len() > 0
                && checked_program(program, facts.program) is Ok && checked_directory(
                directory,
                facts.directory,
            ) is Ok && environment_in(environment_text) is Ok)
            &&& kind_index == 1 ==> (made is Ok <==> text::trimmed(name).len() > 0 && checked_host(
                host,
            ) is Ok && checked_user(user) is Ok && checked_port(port as int) is Ok
                && checked_identity(identity, facts.identity) is Ok && checked_password(password)
                is Ok)
            &&& kind_index != 0 && kind_index != 1 ==> made is Err
            &&& made matches Ok(profile) ==> {
                &&& profile.id == id
                &&& profile.name == text::trimmed(name)
                &&& profile.arguments == arguments_in(arguments)
                &&& kind_index == 0 ==> profile.kind is Local && profile.program
                    == text::unquoted(text::trimmed(program)) && Ok::<Option<Seq<char>>, Seq<char>>(
                    profile.working_directory,
                ) == checked_directory(directory, facts.directory) && Ok::<
                    Seq<(Seq<char>, Seq<char>)>,
                    Seq<char>,
                >(profile.environment) == environment_in(environment_text) && profile.ssh_host.len()
                    == 0 && profile.ssh_user.len() == 0 && profile.ssh_port == 22
                    && profile.ssh_identity_file is None && profile.ssh_password.len() == 0
                &&& kind_index == 1 ==> profile.kind is Ssh && profile.ssh_host == text::trimmed(
                    host,
                ) && profile.ssh_user == text::trimmed(user) && profile.ssh_port == port && Ok::<
                    Option<Seq<char>>,
                    Seq<char>,
                >(profile.ssh_identity_file) == checked_identity(identity, facts.identity)
                    && profile.ssh_password == password && profile.program.len() == 0
                    && profile.working_directory is None && profile.environment.len() == 0
            }
        }),
{
}

/// Profiles are kept if they have a name and something to run, in their order; white
/// space around names, hosts and users, quotation marks around programs, blank
/// arguments and empty directories are left out, and nothing else changes.
pub proof fn usable_profiles_are_tidied(profiles: Seq<ProfileView>)
    ensures
        tidied(profiles) == profiles.filter(
            |profile: ProfileView|
                text::trimmed(profile.name).len() > 0 && (profile.kind is Local ==> text::trimmed(
                    profile.program,
                ).len() > 0) && (profile.kind is Ssh ==> text::trimmed(profile.ssh_host).len() > 0),
        ).map_values(
            |profile: ProfileView|
                ProfileView {
                    name: text::trimmed(profile.name),
                    program: text::unquoted(text::trimmed(profile.program)),
                    ssh_host: text::trimmed(profile.ssh_host),
                    ssh_user: text::trimmed(profile.ssh_user),
                    arguments: profile.arguments.filter(
                        |argument: Seq<char>| text::trimmed(argument).len() > 0,
                    ),
                    working_directory: if profile.working_directory == Some(Seq::<char>::empty()) {
                        None
                    } else {
                        profile.working_directory
                    },
                    ..profile
                },
        ),
    decreases profiles.len(),
{
    reveal(Seq::filter);
    let wanted = |profile: ProfileView|
        text::trimmed(profile.name).len() > 0 && (profile.kind is Local ==> text::trimmed(
            profile.program,
        ).len() > 0) && (profile.kind is Ssh ==> text::trimmed(profile.ssh_host).len() > 0);
    let bare = |profile: ProfileView|
        ProfileView {
            name: text::trimmed(profile.name),
            program: text::unquoted(text::trimmed(profile.program)),
            ssh_host: text::trimmed(profile.ssh_host),
            ssh_user: text::trimmed(profile.ssh_user),
            arguments: profile.arguments.filter(
                |argument: Seq<char>| text::trimmed(argument).len() > 0,
            ),
            working_directory: if profile.working_directory == Some(Seq::<char>::empty()) {
                None
            } else {
                profile.working_directory
            },
            ..profile
        };
    if profiles.len() == 0 {
        assert(tidied(profiles) =~= profiles.filter(wanted).map_values(bare));
    } else {
        let last = profiles.last();
        usable_profiles_are_tidied(profiles.drop_last());
        lemma_not_blank(last.arguments);
        if let Some(directory) = last.working_directory {
            if directory.len() == 0 {
                assert(directory =~= Seq::<char>::empty());
            }
        }
        assert(usable(last) == wanted(last));
        assert(tidy(last) =~= bare(last));
        assert(tidied(profiles) =~= profiles.filter(wanted).map_values(bare));
    }
}

proof fn lemma_not_blank(arguments: Seq<Seq<char>>)
    ensures
        not_blank(arguments) == arguments.filter(
            |argument: Seq<char>| text::trimmed(argument).len() > 0,
        ),
    decreases arguments.len(),
{
    reveal(Seq::filter);
    if arguments.len() > 0 {
        lemma_not_blank(arguments.drop_last());
    } else {
        assert(not_blank(arguments) =~= arguments.filter(
            |argument: Seq<char>| text::trimmed(argument).len() > 0,
        ));
    }
}

/// Shells are found once each: every candidate that is a file is found, under its
/// own or another case of its letters, and nothing that is no file is found. The
/// first candidate of a program counts.
pub proof fn shells_are_found_once(candidates: Seq<ShellView>)
    ensures
        forall|i: int|
            0 <= i < candidates.len() && (#[trigger] candidates[i]).is_file ==> has_program(
                found_shells(candidates),
                candidates[i].program,
            ),
        forall|i: int|
            0 <= i < found_shells(candidates).len() ==> (#[trigger] found_shells(
                candidates,
            )[i]).is_file && candidates.contains(found_shells(candidates)[i]),
        forall|i: int, j: int|
            0 <= i < j < found_shells(candidates).len() ==> lowered(
                (#[trigger] found_shells(candidates)[i]).program,
            ) != lowered((#[trigger] found_shells(candidates)[j]).program),
        candidates.len() > 0 && candidates[0].is_file ==> found_shells(candidates).len() > 0
            && found_shells(candidates)[0] == candidates[0],
    decreases candidates.len(),
{
    if candidates.len() > 0 {
        let shorter = candidates.drop_last();
        let last = candidates.last();
        shells_are_found_once(shorter);
        let before = found_shells(shorter);
        let all = found_shells(candidates);
        assert(candidates[candidates.len() - 1] == last);
        if shorter.len() > 0 {
            assert(shorter[0] == candidates[0]);
        }
        if last.is_file && !has_program(before, last.program) {
            assert(all[before.len() as int] == last);
        }
        assert forall|i: int| 0 <= i < candidates.len() && (#[trigger] candidates[i]).is_file
            implies has_program(all, candidates[i].program) by {
            let program = candidates[i].program;
            if i < shorter.len() {
                assert(shorter[i] == candidates[i]);
            }
            if has_program(before, program) {
                let k = choose|k: int|
                    0 <= k < before.len() && lowered((#[trigger] before[k]).program) == lowered(
                        program,
                    );
                assert(all[k] == before[k]);
            }
        }
        assert forall|i: int| 0 <= i < all.len() implies (#[trigger] all[i]).is_file
            && candidates.contains(all[i]) by {
            if i < before.len() {
                assert(all[i] == before[i]);
                let k = choose|k: int| 0 <= k < shorter.len() && shorter[k] == before[i];
                assert(candidates[k] == all[i]);
            } else {
                assert(candidates[candidates.len() - 1] == all[i]);
            }
        }
        assert forall|i: int, j: int| 0 <= i < j < all.len() implies lowered(
            (#[trigger] all[i]).program,
        ) != lowered((#[trigger] all[j]).program) by {
            assert(all[i] == before[i]);
            if j < before.len() {
                assert(all[j] == before[j]);
            } else {
                assert(lowered(before[i].program) != lowered(last.program));
            }
        }
    }
}

/// Settings that have profiles keep them. Settings without any get one for each shell
/// that older settings listed, in their order, and without those one for each
/// shell that was found, the first of which becomes the default.
pub proof fn profiles_come_from_somewhere(
    before: SettingsView,
    names: Seq<Seq<char>>,
    found: Seq<ShellView>,
    place: int,
)
    requires
        0 <= place,
        names.len() == before.shells.len(),
    ensures
        before.profiles.len() > 0 ==> filled(before, names, found) == before,
        before.profiles.len() == 0 && before.shells.len() > 0 ==> filled(
            before,
            names,
            found,
        ).profiles.len() == before.shells.len(),
        before.profiles.len() == 0 && place < before.shells.len() ==> filled(
            before,
            names,
            found,
        ).profiles[place].program == before.shells[place] && filled(
            before,
            names,
            found,
        ).profiles[place].name == names[place] && filled(before, names, found).profiles[place].kind
            is Local,
        before.profiles.len() == 0 && before.shells.len() == 0 ==> filled(
            before,
            names,
            found,
        ).profiles.len() == found.len() && filled(before, names, found).default_profile_id
            == first_id(filled(before, names, found).profiles),
        before.profiles.len() == 0 && before.shells.len() == 0 && place < found.len() ==> filled(
            before,
            names,
            found,
        ).profiles[place].program == found[place].program && filled(
            before,
            names,
            found,
        ).profiles[place].name == found[place].name && filled(
            before,
            names,
            found,
        ).profiles[place].arguments == found[place].arguments,
{
    lemma_migrated_profiles(before, before.shells, names, place);
    if before.profiles.len() == 0 && before.shells.len() == 0 {
        lemma_added_profiles(before, found, place);
    }
}

proof fn lemma_migrated_profiles(
    before: SettingsView,
    shells: Seq<Seq<char>>,
    names: Seq<Seq<char>>,
    place: int,
)
    requires
        0 <= place,
    ensures
        ({
            let after = migrated(before, shells, names).profiles;
            let count = before.profiles.len();
            &&& after.len() == count + shells.len()
            &&& place < shells.len() ==> after[count + place].program == shells[place]
                && after[count + place].name == names[place] && after[count + place].kind is Local
        }),
    decreases shells.len(),
{
    if shells.len() > 0 {
        lemma_migrated_profiles(before, shells.drop_last(), names, place);
    }
}

proof fn lemma_added_profiles(before: SettingsView, shells: Seq<ShellView>, place: int)
    requires
        0 <= place,
    ensures
        ({
            let after = with_shells(before, shells).profiles;
            let count = before.profiles.len();
            &&& after.len() == count + shells.len()
            &&& place < shells.len() ==> after[count + place].program == shells[place].program
                && after[count + place].name == shells[place].name && after[count
                + place].arguments == shells[place].arguments
        }),
    decreases shells.len(),
{
    if shells.len() > 0 {
        lemma_added_profiles(before, shells.drop_last(), place);
    }
}

/// Filling in profiles changes none of the other choices of the user.
pub(crate) proof fn lemma_filled_keeps_choices(
    before: SettingsView,
    names: Seq<Seq<char>>,
    found: Seq<ShellView>,
)
    ensures
        ({
            let after = filled(before, names, found);
            &&& after.font_family == before.font_family
            &&& after.copy_on_select == before.copy_on_select
            &&& after.right_click_paste == before.right_click_paste
            &&& after.cursor_shape == before.cursor_shape
            &&& after.cursor_blink == before.cursor_blink
        }),
{
    lemma_migrated_keeps_choices(before, before.shells, names);
    let listed = if before.profiles.len() == 0 {
        migrated(before, before.shells, names)
    } else {
        before
    };
    lemma_with_shells_keeps_choices(listed, found);
}

proof fn lemma_migrated_keeps_choices(
    before: SettingsView,
    shells: Seq<Seq<char>>,
    names: Seq<Seq<char>>,
)
    ensures
        ({
            let after = migrated(before, shells, names);
            &&& after.font_family == before.font_family
            &&& after.copy_on_select == before.copy_on_select
            &&& after.right_click_paste == before.right_click_paste
            &&& after.cursor_shape == before.cursor_shape
            &&& after.cursor_blink == before.cursor_blink
        }),
    decreases shells.len(),
{
    if shells.len() > 0 {
        lemma_migrated_keeps_choices(before, shells.drop_last(), names);
    }
}

proof fn lemma_with_shells_keeps_choices(before: SettingsView, shells: Seq<ShellView>)
    ensures
        ({
            let after = with_shells(before, shells);
            &&& after.font_family == before.font_family
            &&& after.copy_on_select == before.copy_on_select
            &&& after.right_click_paste == before.right_click_paste
            &&& after.cursor_shape == before.cursor_shape
            &&& after.cursor_blink == before.cursor_blink
        }),
    decreases shells.len(),
{
    if shells.len() > 0 {
        lemma_with_shells_keeps_choices(before, shells.drop_last());
    }
}

/// After normalizing, a default profile that is still there stays the default, and
/// one that is gone gives way to the first profile. Ids that are given out are
/// positive and, as long as they last, ascend.
pub proof fn defaults_stay_while_they_are_there(
    before: SettingsView,
    names: Seq<Seq<char>>,
    found: Seq<ShellView>,
    next: int,
)
    ensures
        ({
            let complete = filled(before, names, found);
            let after = normalized_profiles(before, names, found);
            &&& after.profiles == tidied(complete.profiles)
            &&& complete.default_profile_id matches Some(id) ==> if exists|i: int|
                0 <= i < after.profiles.len() && (#[trigger] after.profiles[i]).id == id {
                after.default_profile_id == Some(id)
            } else {
                after.profiles.len() > 0 ==> after.default_profile_id == Some(
                    after.profiles[0].id as i32,
                )
            }
            &&& complete.default_profile_id is None ==> after.default_profile_id is None
            &&& after.next_profile_id >= complete.next_profile_id
        }),
        fresh_id(next) >= 1,
        next >= 1 ==> fresh_id(next) == next,
        next < i32::MAX ==> id_after(fresh_id(next)) == fresh_id(next) + 1,
{
}

/// A message loses the mark of an error at its start, and a message without one stays;
/// a program without a file name is called by a general one.
pub proof fn marks_are_taken_off_messages(rest: Seq<char>, stem: Seq<char>)
    ensures
        bare_error("错误："@ + rest) == rest,
        rest.len() == 0 || rest[0] != '错' ==> bare_error(rest) == rest,
        name_for_stem(None) == "Shell"@,
        stem.len() == 0 ==> name_for_stem(Some(stem)) == "Shell"@,
        stem.len() > 0 ==> name_for_stem(Some(stem)) == stem,
{
    reveal_strlit("错误：");
    let mark = "错误："@;
    assert((mark + rest).take(mark.len() as int) =~= mark);
    assert((mark + rest).skip(mark.len() as int) =~= rest);
    if text::starts_with(rest, mark) {
        assert(rest.take(mark.len() as int)[0] == mark[0]);
    }
}

} // verus!
