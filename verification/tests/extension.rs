//! Commands and settings of the extension.

use gitlab_ci_bash_ls::backend::Backend;
use gitlab_ci_bash_ls::extension::{
    bash_proxy_settings, language_server_command, set_env, Binary, ProxyInputs,
};
use gitlab_ci_bash_ls::json::Json;

fn pair(key: &str, value: &str) -> (String, String) {
    (key.to_owned(), value.to_owned())
}

fn nothing() -> ProxyInputs {
    ProxyInputs {
        binary: None,
        on_path: None,
        shell_env: Vec::new(),
        bash: None,
        yaml: None,
    }
}

#[test]
fn variables_are_replaced() {
    let mut env = vec![pair("A", "1"), pair("B", "2"), pair("A", "3")];
    set_env(&mut env, "A", "4".to_owned());
    assert_eq!(env, [pair("B", "2"), pair("A", "4")]);
    set_env(&mut env, "C", "5".to_owned());
    assert_eq!(env, [pair("B", "2"), pair("A", "4"), pair("C", "5")]);
}

#[test]
fn the_gitlab_server_must_be_on_the_path() {
    let command =
        language_server_command("gitlab-ci", Some("/bin/gitlab-ci-ls".to_owned()), nothing())
            .unwrap();
    assert_eq!(command.command, "/bin/gitlab-ci-ls");
    assert!(command.args.is_empty() && command.env.is_empty());
    assert_eq!(
        language_server_command("gitlab-ci", None, nothing()).unwrap_err(),
        "The LSP for gitlab-ci 'gitlab-ci-ls' is not installed"
    );
}

#[test]
fn the_proxy_gets_the_paths_of_its_backends() {
    let command = language_server_command(
        "gitlab-ci-bash-ls",
        None,
        ProxyInputs {
            binary: Some(Binary {
                path: None,
                arguments: Some(vec!["--flag".to_owned()]),
                env: Some(vec![pair("YAML_LANGUAGE_SERVER_PATH", "/mine"), pair("X", "y")]),
            }),
            on_path: Some("/bin/proxy".to_owned()),
            shell_env: vec![pair("PATH", "/bin"), pair("BASH_LANGUAGE_SERVER_PATH", "old")],
            bash: Some("/bin/bash-ls".to_owned()),
            yaml: Some("/bin/yaml-ls".to_owned()),
        },
    )
    .unwrap();
    assert_eq!(command.command, "/bin/proxy");
    assert_eq!(command.args, ["--flag"]);
    assert_eq!(
        command.env,
        [
            pair("PATH", "/bin"),
            pair("BASH_LANGUAGE_SERVER_PATH", "/bin/bash-ls"),
            pair("YAML_LANGUAGE_SERVER_PATH", "/mine"),
            pair("X", "y"),
        ]
    );
}

#[test]
fn a_configured_proxy_wins_and_a_missing_one_is_reported() {
    let mut inputs = nothing();
    inputs.binary = Some(Binary {
        path: Some("/mine/proxy".to_owned()),
        arguments: None,
        env: None,
    });
    inputs.on_path = Some("/bin/proxy".to_owned());
    let command = language_server_command("gitlab-ci-bash-ls", None, inputs).unwrap();
    assert_eq!(command.command, "/mine/proxy");
    assert_eq!(
        language_server_command("gitlab-ci-bash-ls", None, nothing()).unwrap_err(),
        "'gitlab-ci-bash-ls' is not installed. Build it from this extension's repository with \
         `cargo install --path gitlab-ci-bash-ls`, or disable it with \"language_servers\": \
         [\"...\", \"!gitlab-ci-bash-ls\"]."
    );
}

#[test]
fn yaml_settings_are_inherited_by_the_proxy_only() {
    let own = || Some(Json::object().with("shell", Json::string("sh")));
    let yaml = || Some(Json::object().with("yaml", Json::object().with("hover", Json::Bool(true))));
    assert!(bash_proxy_settings("gitlab-ci", own(), yaml()).is_none());
    let settings = bash_proxy_settings("gitlab-ci-bash-ls", own(), yaml()).unwrap();
    assert!(settings.same(
        &Json::object()
            .with("shell", Json::string("sh"))
            .with("inheritedYaml", Json::object().with("hover", Json::Bool(true)))
    ));
    let settings = bash_proxy_settings("gitlab-ci-bash-ls", Some(Json::Bool(true)), None).unwrap();
    assert!(settings.same(&Json::object()));
}

#[test]
fn backends_know_their_programs() {
    assert_eq!(Backend::Bash.index(), 0);
    assert_eq!(Backend::Yaml.index(), 1);
    assert_eq!(Backend::Bash.args(), ["start"]);
    assert_eq!(Backend::Yaml.args(), ["--stdio"]);
    assert_eq!(Backend::Bash.path_env(), "BASH_LANGUAGE_SERVER_PATH");
    assert_eq!(Backend::Yaml.path(None), "yaml-language-server");
    assert_eq!(Backend::Yaml.path(Some(String::new())), "yaml-language-server");
    assert_eq!(Backend::Yaml.path(Some("/x".to_owned())), "/x");
}
