//! The proxy between a client and two backends, message by message.

use gitlab_ci_bash_ls::backend::Backend;
use gitlab_ci_bash_ls::proxy::{Action, Proxy};
use gitlab_ci_bash_ls::uri::virtual_uri;
use gitlab_ci_bash_ls::value::{from_value, to_value};
use serde_json::Value;

const URI: &str = "file:///tmp/gitlab-ci-bash-ls-test/.gitlab-ci.yml";

const YAML: &str = "\
stages: [build, deploy]

build:
  script:
    - ls $BUILD_DIR

deploy:
  script:
    - export GREETING=hi
    - echo \"$GREETING\"
    - |
      echo \"jojo\"
      echo $HI

hallo:
  s
";

fn value(text: &str) -> Value {
    serde_json::from_str(text).unwrap()
}

#[derive(Debug, PartialEq)]
enum Sent {
    Client(Value),
    Bash(Value),
    Yaml(Value),
    Log(String),
    Start(Backend),
    Stop(Backend),
    Exit(i32),
}

fn sent(proxy: &mut Proxy) -> Vec<Sent> {
    proxy
        .take_actions()
        .into_iter()
        .map(|action| match action {
            Action::ToClient(message) => Sent::Client(to_value(&message)),
            Action::ToServer(Backend::Bash, message) => Sent::Bash(to_value(&message)),
            Action::ToServer(Backend::Yaml, message) => Sent::Yaml(to_value(&message)),
            Action::Log(line) => Sent::Log(line),
            Action::Start(backend) => Sent::Start(backend),
            Action::Stop(backend) => Sent::Stop(backend),
            Action::Exit(code) => Sent::Exit(code),
        })
        .collect()
}

fn client(proxy: &mut Proxy, message: &str) -> Vec<Sent> {
    assert!(proxy.has_numbers_left());
    proxy.on_client_message(from_value(value(message)));
    sent(proxy)
}

fn backend(proxy: &mut Proxy, backend: Backend, message: &str) -> Vec<Sent> {
    proxy.on_server_message(backend, from_value(value(message)));
    sent(proxy)
}

fn request(proxy: &mut Proxy, id: i64, method: &str, params: &str) -> Vec<Sent> {
    client(
        proxy,
        &format!(r#"{{"jsonrpc": "2.0", "id": {id}, "method": "{method}", "params": {params}}}"#),
    )
}

fn notify(proxy: &mut Proxy, method: &str, params: &str) -> Vec<Sent> {
    client(
        proxy,
        &format!(r#"{{"jsonrpc": "2.0", "method": "{method}", "params": {params}}}"#),
    )
}

fn quoted(text: &str) -> String {
    Value::from(text).to_string()
}

/// A proxy with both backends ready.
fn ready_proxy(snippets: bool) -> Proxy {
    let mut proxy = Proxy::new(7);
    let params = format!(
        r#"{{
            "rootUri": null,
            "capabilities": {{
                "textDocument": {{ "completion": {{ "completionItem": {{ "snippetSupport": {snippets} }} }} }}
            }}
        }}"#
    );
    assert_eq!(
        request(&mut proxy, 1, "initialize", &params),
        [Sent::Start(Backend::Bash)]
    );
    proxy.on_started();
    assert_eq!(sent(&mut proxy).len(), 2);
    proxy.on_started();
    assert_eq!(sent(&mut proxy).len(), 1);
    assert_eq!(
        backend(&mut proxy, Backend::Bash, r#"{"id": 1, "result": {}}"#),
        [Sent::Bash(value(r#"{"jsonrpc": "2.0", "method": "initialized", "params": {}}"#))]
    );
    let last = backend(&mut proxy, Backend::Yaml, r#"{"id": 2, "result": {}}"#);
    assert_eq!(last.len(), 3);
    match &last[2] {
        Sent::Client(message) => {
            assert_eq!(message["id"], 1);
            assert_eq!(message["result"]["capabilities"]["hoverProvider"], true);
        }
        other => panic!("{other:?}"),
    }
    proxy
}

fn open(proxy: &mut Proxy, text: &str) -> Vec<Sent> {
    notify(
        proxy,
        "textDocument/didOpen",
        &format!(
            r#"{{"textDocument": {{"uri": "{URI}", "languageId": "yaml", "version": 1, "text": {}}}}}"#,
            quoted(text)
        ),
    )
}

fn change(proxy: &mut Proxy, text: &str) -> Vec<Sent> {
    notify(
        proxy,
        "textDocument/didChange",
        &format!(
            r#"{{"textDocument": {{"uri": "{URI}", "version": 2}}, "contentChanges": [{{"text": {}}}]}}"#,
            quoted(text)
        ),
    )
}

fn opened_proxy() -> Proxy {
    let mut proxy = ready_proxy(true);
    open(&mut proxy, YAML);
    proxy
}

fn position(line: usize, character: usize) -> String {
    format!(
        r#"{{"textDocument": {{"uri": "{URI}"}}, "position": {{"line": {line}, "character": {character}}}}}"#
    )
}

#[test]
fn virtual_uris_name_file_number_and_script() {
    assert_eq!(
        virtual_uri("file:///repo/.gitlab-ci.yml", 3, "deploy/script"),
        "file:///repo/.gitlab-ci.yml.3.deploy-script.sh"
    );
    assert_eq!(virtual_uri("a", 120, "jöb: x_1"), "a.120.j-b--x_1.sh");
    assert_ne!(virtual_uri("a", 0, "b"), virtual_uri("a.0", 0, "b"));
}

#[test]
fn backends_are_started_one_after_the_other() {
    let mut proxy = Proxy::new(42);
    let started = request(
        &mut proxy,
        1,
        "initialize",
        r#"{
            "rootUri": "file:///r", "rootPath": "/r",
            "capabilities": {"textDocument": {"completion": {"contextSupport": true}}},
            "initializationOptions": {"bashIde": {"logLevel": "info"}}
        }"#,
    );
    assert_eq!(started, [Sent::Start(Backend::Bash)]);
    proxy.on_started();
    assert_eq!(
        sent(&mut proxy),
        [
            Sent::Bash(value(
                r#"{
                    "jsonrpc": "2.0", "id": 1, "method": "initialize",
                    "params": {
                        "processId": 42,
                        "clientInfo": {"name": "gitlab-ci-bash-ls", "version": "2.0.0"},
                        "rootUri": "file:///r",
                        "rootPath": "/r",
                        "workspaceFolders": null,
                        "capabilities": {
                            "workspace": {"didChangeConfiguration": {"dynamicRegistration": false}},
                            "textDocument": {
                                "synchronization": {"dynamicRegistration": false},
                                "publishDiagnostics": {"versionSupport": true},
                                "hover": {"contentFormat": ["markdown", "plaintext"]},
                                "completion": {"contextSupport": true}
                            }
                        },
                        "initializationOptions": {
                            "backgroundAnalysisMaxFiles": 0,
                            "shellcheckArguments": ["--exclude=SC2154"],
                            "logLevel": "info"
                        }
                    }
                }"#
            )),
            Sent::Start(Backend::Yaml),
        ]
    );
    proxy.on_started();
    match &sent(&mut proxy)[..] {
        [Sent::Yaml(message)] => {
            assert_eq!(message["id"], 2);
            assert_eq!(message["params"]["initializationOptions"], Value::Null);
        }
        other => panic!("{other:?}"),
    }
    // The client waits for both.
    assert_eq!(
        backend(&mut proxy, Backend::Yaml, r#"{"id": 2, "result": null}"#).len(),
        2
    );
    let answers = backend(&mut proxy, Backend::Bash, r#"{"id": 1, "result": null}"#);
    assert_eq!(
        answers[1],
        Sent::Client(value(
            r#"{
                "jsonrpc": "2.0", "id": 1,
                "result": {
                    "capabilities": {
                        "textDocumentSync": {"openClose": true, "change": 1},
                        "hoverProvider": true,
                        "completionProvider": {"triggerCharacters": ["$", "{"], "resolveProvider": true}
                    },
                    "serverInfo": {"name": "gitlab-ci-bash-ls", "version": "2.0.0"}
                }
            }"#
        ))
    );
}

#[test]
fn missing_backends_are_reported_and_optional() {
    let mut proxy = Proxy::new(1);
    request(&mut proxy, 1, "initialize", "{}");
    proxy.on_start_failed("bash-language-server", "not found");
    let message = "gitlab-ci-bash-ls: could not start `bash-language-server` (not found). Install \
                   bash-language-server for script linting, hover and completion.";
    assert_eq!(
        sent(&mut proxy),
        [
            Sent::Log(message.to_owned()),
            Sent::Client(value(&format!(
                r#"{{"jsonrpc": "2.0", "method": "window/showMessage", "params": {{"type": 2, "message": {}}}}}"#,
                quoted(message)
            ))),
            Sent::Start(Backend::Yaml),
        ]
    );
    proxy.on_start_failed("/opt/yaml", "denied");
    let last = sent(&mut proxy);
    assert_eq!(last.len(), 3);
    match &last[2] {
        Sent::Client(message) => assert_eq!(message["id"], 1),
        other => panic!("{other:?}"),
    }
    // Without backends requests are answered with null.
    open(&mut proxy, YAML);
    assert_eq!(
        request(&mut proxy, 2, "textDocument/hover", &position(9, 15)),
        [Sent::Client(value(r#"{"jsonrpc": "2.0", "id": 2, "result": null}"#))]
    );
    assert_eq!(
        request(&mut proxy, 3, "shutdown", "null"),
        [Sent::Client(value(r#"{"jsonrpc": "2.0", "id": 3, "result": null}"#))]
    );
    assert_eq!(notify(&mut proxy, "exit", "null"), [Sent::Exit(0)]);
}

#[test]
fn a_backend_that_fails_to_initialize_is_stopped() {
    let mut proxy = Proxy::new(1);
    request(&mut proxy, 1, "initialize", "{}");
    proxy.on_started();
    proxy.on_start_failed("yaml-language-server", "not found");
    sent(&mut proxy);
    let actions = backend(
        &mut proxy,
        Backend::Bash,
        r#"{"id": 1, "error": {"code": 1, "message": "no"}}"#,
    );
    let message =
        r#"gitlab-ci-bash-ls: bash-language-server failed to initialize: {"code":1,"message":"no"}"#;
    assert_eq!(actions[0], Sent::Log(message.to_owned()));
    assert_eq!(actions[2], Sent::Stop(Backend::Bash));
    match &actions[3] {
        Sent::Client(message) => assert_eq!(message["id"], 1),
        other => panic!("{other:?}"),
    }
    assert!(!proxy.running(Backend::Bash));
}

#[test]
fn scripts_are_opened_and_their_diagnostics_mapped() {
    let mut proxy = ready_proxy(true);
    let actions = open(&mut proxy, YAML);
    assert_eq!(actions.len(), 4);
    assert_eq!(
        actions[0],
        Sent::Bash(value(&format!(
            r#"{{
                "jsonrpc": "2.0", "method": "textDocument/didOpen",
                "params": {{"textDocument": {{
                    "uri": "{URI}.0.build-script.sh", "languageId": "shellscript", "version": 1,
                    "text": "ls $BUILD_DIR"
                }}}}
            }}"#
        )))
    );
    assert_eq!(
        actions[2],
        Sent::Client(value(&format!(
            r#"{{"jsonrpc": "2.0", "method": "textDocument/publishDiagnostics",
                "params": {{"uri": "{URI}", "diagnostics": []}}}}"#
        )))
    );
    match &actions[3] {
        Sent::Yaml(message) => assert_eq!(message["params"]["textDocument"]["text"], YAML),
        other => panic!("{other:?}"),
    }

    let diagnostic = |uri: &str, range: &str| {
        format!(
            r#"{{"method": "textDocument/publishDiagnostics", "params": {{
                "uri": "{uri}", "version": 1,
                "diagnostics": [{{
                    "code": "SC2086", "range": {range}, "relatedInformation": [1]
                }}]
            }}}}"#
        )
    };
    backend(
        &mut proxy,
        Backend::Bash,
        &diagnostic(
            &format!("{URI}.0.build-script.sh"),
            r#"{"start": {"line": 0, "character": 3}, "end": {"line": 0, "character": 13}}"#,
        ),
    );
    let actions = backend(
        &mut proxy,
        Backend::Bash,
        &diagnostic(
            &format!("{URI}.1.deploy-script.sh"),
            r#"{"start": {"line": 3, "character": 5}, "end": {"line": 3, "character": 8}}"#,
        ),
    );
    assert_eq!(
        actions,
        [Sent::Client(value(&format!(
            r#"{{"jsonrpc": "2.0", "method": "textDocument/publishDiagnostics", "params": {{
                "uri": "{URI}",
                "diagnostics": [
                    {{"code": "SC2086", "range": {{
                        "start": {{ "line": 4, "character": 9 }}, "end": {{ "line": 4, "character": 19 }}
                    }}}},
                    {{"code": "SC2086", "range": {{
                        "start": {{ "line": 12, "character": 11 }}, "end": {{ "line": 12, "character": 14 }}
                    }}}}
                ]
            }}}}"#
        )))]
    );

    // Diagnostics of the YAML backend come first.
    let actions = backend(
        &mut proxy,
        Backend::Yaml,
        &format!(
            r#"{{"method": "textDocument/publishDiagnostics", "params": {{
                "uri": "{URI}", "diagnostics": [{{"message": "schema"}}]
            }}}}"#
        ),
    );
    match &actions[..] {
        [Sent::Client(message)] => {
            let diagnostics = message["params"]["diagnostics"].as_array().unwrap();
            assert_eq!(diagnostics.len(), 3);
            assert_eq!(diagnostics[0]["message"], "schema");
        }
        other => panic!("{other:?}"),
    }
}

#[test]
fn changed_scripts_lose_diagnostics_and_stale_ones_are_ignored() {
    let mut proxy = ready_proxy(true);
    let text = "job:\n  script: echo $A\n";
    open(&mut proxy, text);
    let uri = format!("{URI}.0.job-script.sh");
    let report = |version: &str| {
        format!(
            r#"{{"method": "textDocument/publishDiagnostics", "params": {{
                "uri": "{uri}", {version} "diagnostics": [{{
                    "range": {{"start": {{"line": 0, "character": 5}}, "end": {{"line": 0, "character": 7}}}}
                }}]
            }}}}"#
        )
    };
    let count = |actions: &[Sent]| match actions.last() {
        Some(Sent::Yaml(_)) => match &actions[actions.len() - 2] {
            Sent::Client(message) => message["params"]["diagnostics"].as_array().unwrap().len(),
            other => panic!("{other:?}"),
        },
        Some(Sent::Client(message)) => {
            message["params"]["diagnostics"].as_array().unwrap().len()
        }
        other => panic!("{other:?}"),
    };
    assert_eq!(count(&backend(&mut proxy, Backend::Bash, &report(""))), 1);
    // The script moved but did not change: no message about it, and its diagnostics move along.
    let moved = change(&mut proxy, "# comment\njob:\n  script: echo $A\n");
    assert_eq!(moved.len(), 2);
    assert_eq!(count(&moved), 1);
    match &moved[0] {
        Sent::Client(message) => {
            assert_eq!(message["params"]["diagnostics"][0]["range"]["start"]["line"], 2);
        }
        other => panic!("{other:?}"),
    }
    let changed = change(&mut proxy, "job:\n  script: echo $B\n");
    assert_eq!(changed.len(), 3);
    assert_eq!(
        changed[0],
        Sent::Bash(value(&format!(
            r#"{{"jsonrpc": "2.0", "method": "textDocument/didChange", "params": {{
                "textDocument": {{"uri": "{uri}", "version": 2}},
                "contentChanges": [{{"text": "echo $B"}}]
            }}}}"#
        )))
    );
    assert_eq!(count(&changed), 0);
    assert_eq!(backend(&mut proxy, Backend::Bash, &report(r#""version": 1,"#)), []);
    assert_eq!(
        count(&backend(&mut proxy, Backend::Bash, &report(r#""version": 2,"#))),
        1
    );
    // The script is gone.
    let gone = change(&mut proxy, "other: 1\n");
    assert_eq!(
        gone[0],
        Sent::Bash(value(&format!(
            r#"{{"jsonrpc": "2.0", "method": "textDocument/didClose", "params": {{
                "textDocument": {{"uri": "{uri}"}}
            }}}}"#
        )))
    );
}

#[test]
fn requests_in_scripts_go_to_bash_and_come_back_mapped() {
    let mut proxy = opened_proxy();
    assert_eq!(
        request(&mut proxy, 2, "textDocument/hover", &position(9, 15)),
        [Sent::Bash(value(&format!(
            r#"{{"jsonrpc": "2.0", "id": 3, "method": "textDocument/hover", "params": {{
                "textDocument": {{"uri": "{URI}.1.deploy-script.sh"}},
                "position": {{"line": 1, "character": 9}}
            }}}}"#
        )))]
    );
    let answer = backend(
        &mut proxy,
        Backend::Bash,
        r#"{"id": 3, "result": {"contents": "GREETING", "range": {
            "start": {"line": 1, "character": 7}, "end": {"line": 1, "character": 15}
        }}}"#,
    );
    assert_eq!(
        answer,
        [Sent::Client(value(
            r#"{"jsonrpc": "2.0", "id": 2, "result": {"contents": "GREETING", "range": {
                "start": {"line": 9, "character": 13}, "end": {"line": 9, "character": 21}
            }}}"#
        ))]
    );
    // An answer that nobody waits for is ignored.
    assert_eq!(backend(&mut proxy, Backend::Bash, r#"{"id": 3, "result": {}}"#), []);

    request(&mut proxy, 4, "textDocument/completion", &position(8, 10));
    let answer = backend(
        &mut proxy,
        Backend::Bash,
        r#"{"id": 4, "result": [
            {
                "label": "export", "additionalTextEdits": [1],
                "textEdit": {"newText": "export", "range": {
                    "start": {"line": 0, "character": 0}, "end": {"line": 0, "character": 4}
                }}
            },
            {"label": "lost", "textEdit": {"newText": "new"}},
            {"label": "both", "textEdit": {"newText": "b",
                "insert": {"start": {"line": 0, "character": 0}, "end": {"line": 0, "character": 1}},
                "replace": {"start": {"line": 0, "character": 0}, "end": {"line": 0, "character": 2}}
            }}
        ]}"#,
    );
    assert_eq!(
        answer,
        [Sent::Client(value(
            r#"{"jsonrpc": "2.0", "id": 4, "result": [
                {
                    "label": "export",
                    "textEdit": {"newText": "export", "range": {
                        "start": {"line": 8, "character": 6}, "end": {"line": 8, "character": 10}
                    }}
                },
                {"label": "lost", "insertText": "new"},
                {"label": "both", "textEdit": {"newText": "b",
                    "insert": {"start": {"line": 8, "character": 6}, "end": {"line": 8, "character": 7}},
                    "replace": {"start": {"line": 8, "character": 6}, "end": {"line": 8, "character": 8}}
                }}
            ]}"#
        ))]
    );
}

#[test]
fn other_requests_go_to_yaml_and_get_script_items() {
    let mut proxy = opened_proxy();
    let forwarded = request(&mut proxy, 3, "textDocument/completion", &position(15, 3));
    match &forwarded[..] {
        [Sent::Yaml(message)] => {
            assert_eq!(message["id"], 3);
            assert_eq!(message["params"], value(&position(15, 3)));
        }
        other => panic!("{other:?}"),
    }
    let answer = backend(
        &mut proxy,
        Backend::Yaml,
        r#"{"id": 3, "result": {"items": [{"label": "stage"}, {"label": "script"}]}}"#,
    );
    let result = match &answer[..] {
        [Sent::Client(message)] => message["result"].clone(),
        other => panic!("{other:?}"),
    };
    assert_eq!(result["items"][0]["label"], "stage");
    assert_eq!(result["items"][0]["data"], value(r#"{"gitlabCiYaml": true}"#));
    assert_eq!(result["items"][1]["label"], "script");
    assert_eq!(result["items"][1]["textEdit"]["newText"], "  script:\n    - $0");
    assert_eq!(result["items"].as_array().unwrap().len(), 2);
    assert_eq!(result["isIncomplete"], true);

    // Items of the YAML backend are complete; those of the other one are resolved there.
    let item = result["items"][1].to_string();
    assert_eq!(
        request(&mut proxy, 5, "completionItem/resolve", &item),
        [Sent::Client(value(&format!(r#"{{"jsonrpc": "2.0", "id": 5, "result": {item}}}"#)))]
    );
    match &request(&mut proxy, 6, "completionItem/resolve", r#"{"label": "x"}"#)[..] {
        [Sent::Bash(message)] => assert_eq!(message["method"], "completionItem/resolve"),
        other => panic!("{other:?}"),
    }
    // Errors are passed on as they are.
    assert_eq!(
        backend(&mut proxy, Backend::Bash, r#"{"id": 4, "error": {"code": -1}}"#),
        [Sent::Client(value(r#"{"jsonrpc": "2.0", "id": 6, "error": {"code": -1}}"#))]
    );
}

#[test]
fn completion_can_be_turned_off_by_settings() {
    let mut proxy = opened_proxy();
    let actions = notify(
        &mut proxy,
        "workspace/didChangeConfiguration",
        r#"{"settings": {"shell": "sh", "yaml": {"completion": false}}}"#,
    );
    // Both backends are told, and the directive changes every virtual document.
    assert_eq!(actions.len(), 5);
    match (&actions[0], &actions[1], &actions[2]) {
        (Sent::Bash(bash), Sent::Yaml(yaml), Sent::Bash(changed)) => {
            assert_eq!(bash["params"]["settings"]["bashIde"]["backgroundAnalysisMaxFiles"], 0);
            assert_eq!(yaml["params"]["settings"]["yaml"]["completion"], false);
            assert_eq!(
                changed["params"]["contentChanges"][0]["text"],
                "# shellcheck shell=sh\nls $BUILD_DIR"
            );
        }
        other => panic!("{other:?}"),
    }
    assert_eq!(
        request(&mut proxy, 7, "textDocument/completion", &position(15, 3)),
        [Sent::Client(value(r#"{"jsonrpc": "2.0", "id": 7, "result": null}"#))]
    );
    // Positions in scripts move with the directive.
    match &request(&mut proxy, 8, "textDocument/hover", &position(4, 6))[..] {
        [Sent::Bash(message)] => {
            assert_eq!(message["params"]["position"], value(r#"{"line": 1, "character": 0}"#));
        }
        other => panic!("{other:?}"),
    }
}

#[test]
fn cancelled_requests_are_cancelled_at_the_backend() {
    let mut proxy = opened_proxy();
    request(&mut proxy, 10, "textDocument/hover", &position(9, 15));
    request(&mut proxy, 11, "textDocument/hover", &position(0, 0));
    assert_eq!(
        notify(&mut proxy, "$/cancelRequest", r#"{"id": 11}"#),
        [Sent::Yaml(value(
            r#"{"jsonrpc": "2.0", "method": "$/cancelRequest", "params": {"id": 4}}"#
        ))]
    );
    assert_eq!(notify(&mut proxy, "$/cancelRequest", r#"{"id": 12}"#), []);
}

#[test]
fn backends_that_end_leave_no_request_open() {
    let mut proxy = opened_proxy();
    request(&mut proxy, 10, "textDocument/hover", &position(9, 15));
    request(&mut proxy, 11, "textDocument/hover", &position(0, 0));
    proxy.on_server_closed(Backend::Bash);
    let message = "gitlab-ci-bash-ls: bash-language-server exited unexpectedly";
    assert_eq!(
        sent(&mut proxy),
        [
            Sent::Stop(Backend::Bash),
            Sent::Client(value(r#"{"jsonrpc": "2.0", "id": 10, "result": null}"#)),
            Sent::Log(message.to_owned()),
            Sent::Client(value(&format!(
                r#"{{"jsonrpc": "2.0", "method": "window/showMessage", "params": {{"type": 1, "message": "{message}"}}}}"#
            ))),
        ]
    );
    assert!(!proxy.ready(Backend::Bash));
    assert!(proxy.ready(Backend::Yaml));
    // Nothing more is sent to it.
    let actions = change(&mut proxy, "job:\n  script: echo\n");
    assert!(actions.iter().all(|action| !matches!(action, Sent::Bash(_))));
}

#[test]
fn a_failed_write_ends_a_backend_quietly() {
    let mut proxy = opened_proxy();
    proxy.on_write_failed(Backend::Yaml);
    assert_eq!(
        request(&mut proxy, 9, "textDocument/hover", &position(0, 0)),
        [Sent::Client(value(r#"{"jsonrpc": "2.0", "id": 9, "result": null}"#))]
    );
    proxy.on_server_closed(Backend::Yaml);
    assert_eq!(sent(&mut proxy), [Sent::Stop(Backend::Yaml)]);
}

#[test]
fn shutdown_waits_for_both_backends() {
    let mut proxy = opened_proxy();
    let actions = request(&mut proxy, 20, "shutdown", "null");
    assert_eq!(
        actions,
        [
            Sent::Bash(value(
                r#"{"jsonrpc": "2.0", "id": 3, "method": "shutdown", "params": null}"#
            )),
            Sent::Yaml(value(
                r#"{"jsonrpc": "2.0", "id": 4, "method": "shutdown", "params": null}"#
            )),
        ]
    );
    assert_eq!(backend(&mut proxy, Backend::Yaml, r#"{"id": 4, "result": null}"#), []);
    // One that ends instead counts too, and is no surprise.
    proxy.on_server_closed(Backend::Bash);
    assert_eq!(
        sent(&mut proxy),
        [
            Sent::Stop(Backend::Bash),
            Sent::Client(value(r#"{"jsonrpc": "2.0", "id": 20, "result": null}"#)),
        ]
    );
    assert_eq!(
        notify(&mut proxy, "exit", "null"),
        [
            Sent::Yaml(value(r#"{"jsonrpc": "2.0", "method": "exit"}"#)),
            Sent::Exit(0),
        ]
    );
}

#[test]
fn clients_that_just_leave_get_an_error_code() {
    let mut proxy = opened_proxy();
    proxy.exit();
    assert_eq!(sent(&mut proxy).last(), Some(&Sent::Exit(1)));
}

#[test]
fn closed_files_are_forgotten() {
    let mut proxy = opened_proxy();
    let actions = notify(
        &mut proxy,
        "textDocument/didClose",
        &format!(r#"{{"textDocument": {{"uri": "{URI}"}}}}"#),
    );
    assert_eq!(actions.len(), 4);
    assert_eq!(
        actions[2],
        Sent::Client(value(&format!(
            r#"{{"jsonrpc": "2.0", "method": "textDocument/publishDiagnostics",
                "params": {{"uri": "{URI}", "diagnostics": []}}}}"#
        )))
    );
    assert_eq!(
        request(&mut proxy, 5, "textDocument/hover", &position(9, 15)),
        [Sent::Client(value(r#"{"jsonrpc": "2.0", "id": 5, "result": null}"#))]
    );
    assert_eq!(
        backend(
            &mut proxy,
            Backend::Yaml,
            &format!(
                r#"{{"method": "textDocument/publishDiagnostics", "params": {{"uri": "{URI}", "diagnostics": []}}}}"#
            )
        ),
        []
    );
}

#[test]
fn requests_of_backends_are_answered() {
    let mut proxy = opened_proxy();
    let ask = |id: &str| {
        format!(
            r#"{{"id": {id}, "method": "workspace/configuration",
                "params": {{"items": [{{"section": "bashIde"}}, {{"section": "yaml"}}, {{}}]}}}}"#
        )
    };
    match &backend(&mut proxy, Backend::Bash, &ask("\"a\""))[..] {
        [Sent::Bash(message)] => {
            assert_eq!(message["id"], "a");
            assert_eq!(message["result"][0]["backgroundAnalysisMaxFiles"], 0);
            assert_eq!(message["result"][1], Value::Null);
            assert_eq!(message["result"][2], Value::Null);
        }
        other => panic!("{other:?}"),
    }
    match &backend(&mut proxy, Backend::Yaml, &ask("1"))[..] {
        [Sent::Yaml(message)] => {
            assert_eq!(message["result"][0], Value::Null);
            assert_eq!(message["result"][1]["hover"], true);
        }
        other => panic!("{other:?}"),
    }
    assert_eq!(
        backend(&mut proxy, Backend::Yaml, r#"{"id": 5, "method": "client/registerCapability"}"#),
        [Sent::Yaml(value(r#"{"jsonrpc": "2.0", "id": 5, "result": null}"#))]
    );
    // Log messages are passed on, other notifications are not.
    let log = r#"{"method": "window/logMessage", "params": {"type": 3, "message": "hi"}}"#;
    assert_eq!(backend(&mut proxy, Backend::Bash, log), [Sent::Client(value(log))]);
    assert_eq!(backend(&mut proxy, Backend::Bash, r#"{"method": "$/progress"}"#), []);
}

#[test]
fn unknown_requests_are_refused_and_other_messages_ignored() {
    let mut proxy = opened_proxy();
    assert_eq!(
        request(&mut proxy, 9, "textDocument/rename", "{}"),
        [Sent::Client(value(
            r#"{"jsonrpc": "2.0", "id": 9, "error": {"code": -32601, "message": "unsupported method textDocument/rename"}}"#
        ))]
    );
    assert_eq!(notify(&mut proxy, "textDocument/didSave", "{}"), []);
    assert_eq!(client(&mut proxy, r#"{"id": 1, "result": null}"#), []);
    assert_eq!(client(&mut proxy, "[]"), []);
}
