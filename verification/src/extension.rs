//! What the Zed extension decides: which command to run for a language server,
//! and which settings to hand to the proxy.

use vstd::prelude::*;

use crate::backend::NAME;
use crate::json::{field, Json, JsonModel, with_field};
use crate::mapping::json_view;
use crate::text::same_text;

verus! {

// ---------------------------------------------------------------------------
// Environments
// ---------------------------------------------------------------------------

pub open spec fn env_view(env: Seq<(String, String)>) -> Seq<(Seq<char>, Seq<char>)> {
    env.map_values(|entry: (String, String)| (entry.0@, entry.1@))
}

pub open spec fn other_than(key: Seq<char>) -> spec_fn((Seq<char>, Seq<char>)) -> bool {
    |entry: (Seq<char>, Seq<char>)| entry.0 != key
}

/// The environment with a variable set: it is the last entry, and the only one
/// for its key.
pub open spec fn with_env(
    env: Seq<(Seq<char>, Seq<char>)>,
    key: Seq<char>,
    value: Seq<char>,
) -> Seq<(Seq<char>, Seq<char>)> {
    env.filter(other_than(key)).push((key, value))
}

/// The environment with the first `count` of the given variables set.
pub open spec fn with_all(
    env: Seq<(Seq<char>, Seq<char>)>,
    more: Seq<(Seq<char>, Seq<char>)>,
    count: int,
) -> Seq<(Seq<char>, Seq<char>)>
    decreases count,
{
    if count <= 0 {
        env
    } else {
        with_env(with_all(env, more, count - 1), more[count - 1].0, more[count - 1].1)
    }
}

/// Sets a variable of an environment.
pub fn set_env(env: &mut Vec<(String, String)>, key: &str, value: String)
    ensures
        env_view(final(env)@) == with_env(env_view(old(env)@), key@, value@),
{
    let mut all: Vec<(String, String)> = Vec::new();
    std::mem::swap(&mut all, env);
    let ghost before = env_view(all@);
    let ghost keep = other_than(key@);
    proof {
        reveal(Seq::filter);
        assert(env_view(env@) =~= before.take(0).filter(keep));
    }
    for entry in it: all
        invariant
            it.seq() == all@,
            before == env_view(all@),
            keep == other_than(key@),
            env_view(env@) == before.take(it.index() as int).filter(keep),
    {
        let ghost done = env_view(env@);
        proof {
            reveal(Seq::filter);
            assert(before[it.index() as int] == (entry.0@, entry.1@));
            assert(before.take(it.index() + 1).drop_last() =~= before.take(it.index() as int));
        }
        if !same_text(entry.0.as_str(), key) {
            env.push(entry);
            assert(env_view(env@) =~= done.push((entry.0@, entry.1@)));
        }
    }
    assert(before.take(before.len() as int) =~= before);
    let ghost done = env_view(env@);
    env.push((key.to_owned(), value));
    assert(env_view(env@) =~= done.push((key@, value@)));
}

fn set_all(env: &mut Vec<(String, String)>, more: Vec<(String, String)>)
    ensures
        env_view(final(env)@) == with_all(
            env_view(old(env)@),
            env_view(more@),
            more@.len() as int,
        ),
{
    let ghost before = env_view(env@);
    let ghost entries = env_view(more@);
    for entry in it: more
        invariant
            it.seq() == more@,
            entries == env_view(more@),
            env_view(env@) == with_all(before, entries, it.index() as int),
    {
        assert(entries[it.index() as int] == (entry.0@, entry.1@));
        let (key, value) = entry;
        set_env(env, key.as_str(), value);
    }
}

// ---------------------------------------------------------------------------
// Commands
// ---------------------------------------------------------------------------

/// A program to run.
#[derive(Debug)]
pub struct Command {
    pub command: String,
    pub args: Vec<String>,
    pub env: Vec<(String, String)>,
}

pub struct CommandLine {
    pub command: Seq<char>,
    pub args: Seq<Seq<char>>,
    pub env: Seq<(Seq<char>, Seq<char>)>,
}

pub open spec fn texts_view(texts: Seq<String>) -> Seq<Seq<char>> {
    texts.map_values(|text: String| text@)
}

impl Command {
    pub open spec fn view(&self) -> CommandLine {
        CommandLine {
            command: self.command@,
            args: texts_view(self.args@),
            env: env_view(self.env@),
        }
    }
}

/// A command, or why there is none.
pub open spec fn command_view(result: Result<Command, String>) -> Result<CommandLine, Seq<char>> {
    match result {
        Ok(command) => Ok(command@),
        Err(error) => Err(error@),
    }
}

/// The binary that the user configured for the proxy.
#[derive(Debug)]
pub struct Binary {
    pub path: Option<String>,
    pub arguments: Option<Vec<String>>,
    pub env: Option<Vec<(String, String)>>,
}

pub struct BinaryModel {
    pub path: Option<Seq<char>>,
    pub arguments: Option<Seq<Seq<char>>>,
    pub env: Option<Seq<(Seq<char>, Seq<char>)>>,
}

pub open spec fn text_view(text: Option<String>) -> Option<Seq<char>> {
    match text {
        Some(text) => Some(text@),
        None => None,
    }
}

impl Binary {
    pub open spec fn view(&self) -> BinaryModel {
        BinaryModel {
            path: text_view(self.path),
            arguments: match self.arguments {
                Some(arguments) => Some(texts_view(arguments@)),
                None => None,
            },
            env: match self.env {
                Some(env) => Some(env_view(env@)),
                None => None,
            },
        }
    }
}

pub open spec fn binary_view(binary: Option<Binary>) -> Option<BinaryModel> {
    match binary {
        Some(binary) => Some(binary@),
        None => None,
    }
}

/// What the user is told when the proxy is nowhere to be found.
pub open spec fn not_installed() -> Seq<char> {
    "'"@ + NAME@
        + "' is not installed. Build it from this extension's repository with `cargo install --path "@
        + NAME@ + "`, or disable it with \"language_servers\": [\"...\", \"!"@ + NAME@ + "\"]."@
}

fn not_installed_text() -> (r: String)
    ensures
        r@ == not_installed(),
{
    let mut text = "'".to_owned();
    text.append(NAME);
    text.append(
        "' is not installed. Build it from this extension's repository with `cargo install --path ",
    );
    text.append(NAME);
    text.append("`, or disable it with \"language_servers\": [\"...\", \"!");
    text.append(NAME);
    text.append("\"].");
    text
}

/// The environment with the path of a backend, if it was found.
pub open spec fn with_backend(
    env: Seq<(Seq<char>, Seq<char>)>,
    key: Seq<char>,
    path: Option<Seq<char>>,
) -> Seq<(Seq<char>, Seq<char>)> {
    match path {
        Some(path) => with_env(env, key, path),
        None => env,
    }
}

/// The command for the proxy. A configured path wins over what is on `PATH`.
/// The backends that were found are handed on in the environment, where the
/// user's own variables win.
pub open spec fn proxy_command(
    binary: Option<BinaryModel>,
    on_path: Option<Seq<char>>,
    shell_env: Seq<(Seq<char>, Seq<char>)>,
    bash: Option<Seq<char>>,
    yaml: Option<Seq<char>>,
) -> Result<CommandLine, Seq<char>> {
    let configured = match binary {
        Some(binary) => binary.path,
        None => None,
    };
    let path = match configured {
        Some(path) => Some(path),
        None => on_path,
    };
    match path {
        Some(command) => {
            let env = with_backend(
                with_backend(shell_env, "BASH_LANGUAGE_SERVER_PATH"@, bash),
                "YAML_LANGUAGE_SERVER_PATH"@,
                yaml,
            );
            let user_env = match binary {
                Some(binary) => match binary.env {
                    Some(env) => env,
                    None => Seq::empty(),
                },
                None => Seq::empty(),
            };
            let args = match binary {
                Some(binary) => match binary.arguments {
                    Some(arguments) => arguments,
                    None => Seq::empty(),
                },
                None => Seq::empty(),
            };
            Ok(
                CommandLine {
                    command,
                    args,
                    env: with_all(env, user_env, user_env.len() as int),
                },
            )
        },
        None => Err(not_installed()),
    }
}

fn set_backend(env: &mut Vec<(String, String)>, key: &str, path: Option<String>)
    ensures
        env_view(final(env)@) == with_backend(env_view(old(env)@), key@, text_view(path)),
{
    if let Some(path) = path {
        set_env(env, key, path);
    }
}

/// The command for the proxy, given the user's settings for it, what was found
/// on `PATH`, and the environment of the shell.
pub fn bash_proxy_command(
    binary: Option<Binary>,
    on_path: Option<String>,
    shell_env: Vec<(String, String)>,
    bash: Option<String>,
    yaml: Option<String>,
) -> (r: Result<Command, String>)
    ensures
        command_view(r) == proxy_command(
            binary_view(binary),
            text_view(on_path),
            env_view(shell_env@),
            text_view(bash),
            text_view(yaml),
        ),
{
    let ghost given = binary_view(binary);
    let (configured, arguments, user_env) = match binary {
        Some(binary) => (binary.path, binary.arguments, binary.env),
        None => (None, None, None),
    };
    let path = match configured {
        Some(path) => path,
        None => match on_path {
            Some(path) => path,
            None => return Err(not_installed_text()),
        },
    };
    let mut env = shell_env;
    set_backend(&mut env, "BASH_LANGUAGE_SERVER_PATH", bash);
    set_backend(&mut env, "YAML_LANGUAGE_SERVER_PATH", yaml);
    match user_env {
        Some(user_env) => set_all(&mut env, user_env),
        None => {},
    }
    let args = match arguments {
        Some(arguments) => arguments,
        None => {
            let none: Vec<String> = Vec::new();
            assert(texts_view(none@) =~= Seq::<Seq<char>>::empty());
            none
        },
    };
    Ok(Command { command: path, args, env })
}

/// The command for `gitlab-ci-ls`, which must be on `PATH`.
pub open spec fn gitlab_command(on_path: Option<Seq<char>>) -> Result<CommandLine, Seq<char>> {
    match on_path {
        Some(command) => Ok(
            CommandLine { command, args: Seq::empty(), env: Seq::empty() },
        ),
        None => Err("The LSP for gitlab-ci 'gitlab-ci-ls' is not installed"@),
    }
}

/// The command for `gitlab-ci-ls`.
pub fn gitlab_ci_ls_command(on_path: Option<String>) -> (r: Result<Command, String>)
    ensures
        command_view(r) == gitlab_command(text_view(on_path)),
{
    match on_path {
        Some(command) => {
            let args: Vec<String> = Vec::new();
            let env: Vec<(String, String)> = Vec::new();
            assert(texts_view(args@) =~= Seq::<Seq<char>>::empty());
            assert(env_view(env@) =~= Seq::<(Seq<char>, Seq<char>)>::empty());
            Ok(Command { command, args, env })
        },
        None => Err("The LSP for gitlab-ci 'gitlab-ci-ls' is not installed".to_owned()),
    }
}

/// What the extension finds out about the proxy before it runs it.
#[derive(Debug)]
pub struct ProxyInputs {
    pub binary: Option<Binary>,
    pub on_path: Option<String>,
    pub shell_env: Vec<(String, String)>,
    pub bash: Option<String>,
    pub yaml: Option<String>,
}

/// The command for a language server: the proxy, or `gitlab-ci-ls`.
pub fn language_server_command(
    id: &str,
    gitlab_ci_ls: Option<String>,
    proxy: ProxyInputs,
) -> (r: Result<Command, String>)
    ensures
        id@ == NAME@ ==> command_view(r) == proxy_command(
            binary_view(proxy.binary),
            text_view(proxy.on_path),
            env_view(proxy.shell_env@),
            text_view(proxy.bash),
            text_view(proxy.yaml),
        ),
        id@ != NAME@ ==> command_view(r) == gitlab_command(text_view(gitlab_ci_ls)),
{
    if is_bash_proxy(id) {
        bash_proxy_command(
            proxy.binary,
            proxy.on_path,
            proxy.shell_env,
            proxy.bash,
            proxy.yaml,
        )
    } else {
        gitlab_ci_ls_command(gitlab_ci_ls)
    }
}

/// Whether a language server is the proxy.
pub fn is_bash_proxy(id: &str) -> (r: bool)
    ensures
        r == (id@ == NAME@),
{
    same_text(id, NAME)
}

// ---------------------------------------------------------------------------
// Settings
// ---------------------------------------------------------------------------

/// The settings for a language server: none but for the proxy. The user's
/// settings for Zed's own YAML server are passed along as `inheritedYaml`, so
/// options such as formatting keep applying to GitLab CI files.
pub open spec fn proxy_settings(
    id: Seq<char>,
    own: Option<JsonModel>,
    yaml_server: Option<JsonModel>,
) -> Option<JsonModel> {
    if id == NAME@ {
        let settings = match own {
            Some(JsonModel::Object(own)) => JsonModel::Object(own),
            _ => JsonModel::Object(Map::empty()),
        };
        let inherited = match yaml_server {
            Some(settings) => field(settings, "yaml"@),
            None => None,
        };
        Some(
            match inherited {
                Some(inherited) => with_field(settings, "inheritedYaml"@, inherited),
                None => settings,
            },
        )
    } else {
        None
    }
}

/// The settings for a language server, given the user's settings for the proxy
/// and for Zed's own YAML server.
pub fn bash_proxy_settings(id: &str, own: Option<Json>, yaml_server: Option<Json>) -> (r: Option<
    Json,
>)
    ensures
        json_view(r) == proxy_settings(id@, json_view(own), json_view(yaml_server)),
{
    if !is_bash_proxy(id) {
        return None;
    }
    let settings = match own {
        Some(own) => if own.is_object() {
            own
        } else {
            Json::object()
        },
        None => Json::object(),
    };
    let inherited = match &yaml_server {
        Some(settings) => match settings.get("yaml") {
            Some(yaml) => Some(yaml.duplicate()),
            None => None,
        },
        None => None,
    };
    match inherited {
        Some(inherited) => Some(settings.with("inheritedYaml", inherited)),
        None => Some(settings),
    }
}

// ---------------------------------------------------------------------------
// Laws
// ---------------------------------------------------------------------------

/// Where a variable that was set is: at the end, and nowhere else. All other
/// variables stay.
pub proof fn law_set_variables_are_unique(
    env: Seq<(Seq<char>, Seq<char>)>,
    key: Seq<char>,
    value: Seq<char>,
)
    ensures
        with_env(env, key, value).last() == (key, value),
        forall|i: int|
            0 <= i < with_env(env, key, value).len() - 1 ==> (#[trigger] with_env(
                env,
                key,
                value,
            )[i]).0 != key,
        forall|i: int|
            0 <= i < env.len() && (#[trigger] env[i]).0 != key ==> with_env(
                env,
                key,
                value,
            ).contains(env[i]),
{
    let kept = env.filter(other_than(key));
    let all = with_env(env, key, value);
    assert forall|i: int| 0 <= i < all.len() - 1 implies (#[trigger] all[i]).0 != key by {
        env.lemma_filter_pred(other_than(key), i);
        assert(all[i] == kept[i]);
    }
    assert forall|i: int| 0 <= i < env.len() && (#[trigger] env[i]).0 != key implies all.contains(
        env[i],
    ) by {
        env.lemma_filter_contains(other_than(key), i);
        let at = choose|at: int| 0 <= at < kept.len() && kept[at] == env[i];
        assert(all[at] == env[i]);
    }
}

/// A configured path wins over what is on `PATH`.
pub proof fn law_configured_path_wins(
    binary: BinaryModel,
    on_path: Option<Seq<char>>,
    shell_env: Seq<(Seq<char>, Seq<char>)>,
    bash: Option<Seq<char>>,
    yaml: Option<Seq<char>>,
)
    requires
        binary.path is Some,
    ensures
        proxy_command(Some(binary), on_path, shell_env, bash, yaml) matches Ok(command)
            && command.command == binary.path->Some_0,
{
}

/// The user's own variables win over the paths of the backends that were found
/// and over the shell's: whatever is last in the user's list is in the result.
pub proof fn law_user_variables_win(
    env: Seq<(Seq<char>, Seq<char>)>,
    user: Seq<(Seq<char>, Seq<char>)>,
    i: int,
)
    requires
        0 <= i < user.len(),
        forall|k: int| i < k < user.len() ==> (#[trigger] user[k]).0 != user[i].0,
    ensures
        with_all(env, user, user.len() as int).contains(user[i]),
{
    lemma_user_variable_stays(env, user, user.len() as int, i);
}

proof fn lemma_user_variable_stays(
    env: Seq<(Seq<char>, Seq<char>)>,
    user: Seq<(Seq<char>, Seq<char>)>,
    count: int,
    i: int,
)
    requires
        0 <= i < count <= user.len(),
        forall|k: int| i < k < user.len() ==> (#[trigger] user[k]).0 != user[i].0,
    ensures
        with_all(env, user, count).contains(user[i]),
    decreases count,
{
    let before = with_all(env, user, count - 1);
    let last = user[count - 1];
    law_set_variables_are_unique(before, last.0, last.1);
    let all = with_all(env, user, count);
    if i == count - 1 {
        assert(all[all.len() - 1] == last);
    } else {
        lemma_user_variable_stays(env, user, count - 1, i);
        let at = choose|at: int| 0 <= at < before.len() && before[at] == user[i];
        assert(before[at].0 != last.0);
    }
}

/// The proxy gets the inherited YAML settings, and its own settings otherwise
/// unchanged.
pub proof fn law_settings_are_passed_along(
    own: Map<Seq<char>, JsonModel>,
    yaml_server: JsonModel,
    key: Seq<char>,
)
    requires
        key != "inheritedYaml"@,
    ensures
        proxy_settings(NAME@, Some(JsonModel::Object(own)), Some(yaml_server)) matches Some(settings)
            && field(settings, key) == field(JsonModel::Object(own), key) && (field(
            yaml_server,
            "yaml"@,
        ) matches Some(yaml) ==> field(settings, "inheritedYaml"@) == Some(yaml)),
{
}

/// The value of a variable in an environment: that of its last entry.
pub open spec fn looked_up(env: Seq<(Seq<char>, Seq<char>)>, key: Seq<char>) -> Option<Seq<char>>
    decreases env.len(),
{
    if env.len() == 0 {
        None
    } else if env.last().0 == key {
        Some(env.last().1)
    } else {
        looked_up(env.drop_last(), key)
    }
}

proof fn lemma_looked_up_filtered(
    env: Seq<(Seq<char>, Seq<char>)>,
    key: Seq<char>,
    other: Seq<char>,
)
    requires
        other != key,
    ensures
        looked_up(env.filter(other_than(key)), other) == looked_up(env, other),
    decreases env.len(),
{
    reveal(Seq::filter);
    if env.len() > 0 {
        let rest = env.drop_last().filter(other_than(key));
        lemma_looked_up_filtered(env.drop_last(), key, other);
        if env.last().0 != key {
            assert(rest.push(env.last()).drop_last() =~= rest);
        }
    }
}

/// A variable that is set has its value, and all other variables keep theirs,
/// in their order.
pub proof fn law_set_variables_have_their_value(
    env: Seq<(Seq<char>, Seq<char>)>,
    key: Seq<char>,
    value: Seq<char>,
    other: Seq<char>,
)
    requires
        other != key,
    ensures
        looked_up(with_env(env, key, value), key) == Some(value),
        looked_up(with_env(env, key, value), other) == looked_up(env, other),
        with_env(env, key, value).drop_last() == env.filter(
            |entry: (Seq<char>, Seq<char>)| entry.0 != key,
        ),
{
    let kept = env.filter(other_than(key));
    assert(kept.push((key, value)).drop_last() =~= kept);
    lemma_looked_up_filtered(env, key, other);
    assert(other_than(key) =~= (|entry: (Seq<char>, Seq<char>)| entry.0 != key));
}

proof fn lemma_looked_up_all(
    env: Seq<(Seq<char>, Seq<char>)>,
    more: Seq<(Seq<char>, Seq<char>)>,
    count: int,
    key: Seq<char>,
)
    requires
        0 <= count <= more.len(),
    ensures
        looked_up(with_all(env, more, count), key) == (match looked_up(more.take(count), key) {
            Some(value) => Some(value),
            None => looked_up(env, key),
        }),
    decreases count,
{
    if count > 0 {
        lemma_looked_up_all(env, more, count - 1, key);
        assert(more.take(count).drop_last() =~= more.take(count - 1));
        let (name, value) = more[count - 1];
        let before = with_all(env, more, count - 1);
        if name != key {
            law_set_variables_have_their_value(before, name, value, key);
        } else {
            let kept = before.filter(other_than(name));
            assert(kept.push((name, value)).last() == (name, value));
        }
    } else {
        assert(more.take(0) =~= Seq::empty());
    }
}

/// The proxy is run from the configured path, or else from `PATH`, with the
/// configured arguments. A variable is the user's own, or else the path of the
/// backend that was found for it, or else the shell's.
pub proof fn law_proxy_is_run_as_configured(
    binary: Option<BinaryModel>,
    on_path: Option<Seq<char>>,
    shell_env: Seq<(Seq<char>, Seq<char>)>,
    bash: Option<Seq<char>>,
    yaml: Option<Seq<char>>,
    key: Seq<char>,
)
    ensures
        ({
            let made = proxy_command(binary, on_path, shell_env, bash, yaml);
            let configured = binary matches Some(binary) && binary.path is Some;
            let user = match binary {
                Some(BinaryModel { env: Some(env), .. }) => looked_up(env, key),
                _ => None,
            };
            let found = if key == "YAML_LANGUAGE_SERVER_PATH"@ && yaml is Some {
                yaml
            } else if key == "BASH_LANGUAGE_SERVER_PATH"@ && bash is Some {
                bash
            } else {
                looked_up(shell_env, key)
            };
            &&& made is Ok <==> configured || on_path is Some
            &&& made matches Ok(command) ==> {
                &&& command.command == (if configured {
                    binary->Some_0.path->Some_0
                } else {
                    on_path->Some_0
                })
                &&& match binary {
                    Some(BinaryModel { arguments: Some(arguments), .. }) => command.args
                        == arguments,
                    _ => command.args == Seq::<Seq<char>>::empty(),
                }
                &&& looked_up(command.env, key) == (if user is Some {
                    user
                } else {
                    found
                })
            }
            &&& made matches Err(error) ==> error == "'"@ + "gitlab-ci-bash-ls"@
                + "' is not installed. Build it from this extension's repository with `cargo install --path "@
                + "gitlab-ci-bash-ls"@
                + "`, or disable it with \"language_servers\": [\"...\", \"!"@
                + "gitlab-ci-bash-ls"@ + "\"]."@
        }),
{
    reveal_strlit("BASH_LANGUAGE_SERVER_PATH");
    reveal_strlit("YAML_LANGUAGE_SERVER_PATH");
    assert("BASH_LANGUAGE_SERVER_PATH"@[0] != "YAML_LANGUAGE_SERVER_PATH"@[0]);
    let first = with_backend(shell_env, "BASH_LANGUAGE_SERVER_PATH"@, bash);
    let env = with_backend(first, "YAML_LANGUAGE_SERVER_PATH"@, yaml);
    lemma_backend_variable(shell_env, "BASH_LANGUAGE_SERVER_PATH"@, bash, key);
    lemma_backend_variable(first, "YAML_LANGUAGE_SERVER_PATH"@, yaml, key);
    let user_env = match binary {
        Some(binary) => match binary.env {
            Some(env) => env,
            None => Seq::empty(),
        },
        None => Seq::empty(),
    };
    lemma_looked_up_all(env, user_env, user_env.len() as int, key);
    assert(user_env.take(user_env.len() as int) =~= user_env);
}

proof fn lemma_backend_variable(
    env: Seq<(Seq<char>, Seq<char>)>,
    name: Seq<char>,
    path: Option<Seq<char>>,
    key: Seq<char>,
)
    ensures
        looked_up(with_backend(env, name, path), key) == (if key == name && path is Some {
            path
        } else {
            looked_up(env, key)
        }),
{
    if let Some(path) = path {
        if key != name {
            law_set_variables_have_their_value(env, name, path, key);
        } else {
            let kept = env.filter(other_than(name));
            assert(kept.push((name, path)).last() == (name, path));
        }
    }
}

/// `gitlab-ci-ls` is run from `PATH`, without arguments and variables of its
/// own.
pub proof fn law_gitlab_ci_ls_is_run_from_path(on_path: Option<Seq<char>>)
    ensures
        on_path matches Some(path) ==> gitlab_command(on_path) == Ok::<CommandLine, Seq<char>>(
            CommandLine { command: path, args: Seq::empty(), env: Seq::empty() },
        ),
        on_path is None ==> gitlab_command(on_path) == Err::<CommandLine, Seq<char>>(
            "The LSP for gitlab-ci 'gitlab-ci-ls' is not installed"@,
        ),
{
}

/// Only the proxy has settings. Settings that are no object count as none, and
/// the YAML settings are inherited if and only if there are some.
pub proof fn law_settings_are_for_the_proxy(
    id: Seq<char>,
    own: Option<JsonModel>,
    yaml_server: Option<JsonModel>,
    key: Seq<char>,
)
    ensures
        id != "gitlab-ci-bash-ls"@ ==> proxy_settings(id, own, yaml_server) is None,
        id == "gitlab-ci-bash-ls"@ ==> {
            let inherited = match yaml_server {
                Some(settings) => field(settings, "yaml"@),
                None => None,
            };
            let kept = match own {
                Some(own) => field(own, key),
                None => None,
            };
            proxy_settings(id, own, yaml_server) matches Some(settings) && settings is Object
                && field(settings, key) == (if key == "inheritedYaml"@ && inherited is Some {
                inherited
            } else {
                kept
            })
        },
{
}

} // verus!
