//! Script-key completion.

use gitlab_ci_bash_ls::completion::{merge, script_items};
use gitlab_ci_bash_ls::json::Json;
use gitlab_ci_bash_ls::value::{from_value, to_value};
use serde_json::Value;

fn value(text: &str) -> Value {
    serde_json::from_str(text).unwrap()
}

fn json(text: &str) -> Json {
    from_value(value(text))
}

fn items_at(text: &str, position: &str, yaml: &str, snippets: bool) -> Vec<Value> {
    script_items(text, &json(position), &json(yaml), snippets).iter().map(to_value).collect()
}

fn items(text: &str) -> Vec<Value> {
    let line = text.split('\n').count() - 1;
    let character = text.split('\n').next_back().unwrap().len();
    items_at(
        text,
        &format!(r#"{{ "line": {line}, "character": {character} }}"#),
        "{}",
        true,
    )
}

#[test]
fn completes_root_prefix_under_empty_job() {
    for key in ["script", "before_script", "after_script"] {
        let text = format!("test:\n{key}");
        let found = items(&text);
        assert_eq!(found.len(), 1);
        assert_eq!(
            found[0]["textEdit"]["newText"],
            format!("  {key}:\n    - $0")
        );
        assert_eq!(
            found[0]["textEdit"]["range"]["start"],
            value(r#"{ "line": 1, "character": 0 }"#)
        );
        assert_eq!(found[0]["textEdit"]["range"]["end"]["character"], key.len());
    }
}

#[test]
fn respects_existing_and_configured_indentation() {
    assert_eq!(
        items("test:\n  aft")[0]["textEdit"]["newText"],
        "  after_script:\n    - $0"
    );
    assert_eq!(
        items("test:\n    stage: build\n    aft")[0]["textEdit"]["newText"],
        "    after_script:\n        - $0"
    );
    let found = items_at(
        "test:\naft",
        r#"{"line": 1, "character": 3}"#,
        r#"{"indentation": "    "}"#,
        false,
    );
    assert_eq!(
        found[0]["textEdit"]["newText"],
        "    after_script:\n        - "
    );
    assert_eq!(found[0]["insertTextFormat"], 1);
}

#[test]
fn leaves_globals_metadata_values_and_nested_keys_alone() {
    for text in [
        "aft",
        "test:\n\naft",
        "test:\n# global\naft",
        "test:\n  script: echo hi\naft",
        "variables:\naft",
        "stages:\nscr",
        "workflow:\n  aft",
        "test:\n  variables:\n    aft",
        "test:\n  script: echo aft",
        "test:\n  # aft",
        "test:\n  after_script:",
        "test:\n  script: |\n    aft",
        "test:\n\taft",
        "job: {}\naft",
        "value: \"hello\nfake_job:\naft",
    ] {
        assert!(items(text).is_empty(), "unexpected scaffold for {text:?}");
    }
    assert!(
        items_at(
            "test:\naft",
            r#"{"line": 1, "character": 3}"#,
            r#"{"completion": false}"#,
            true
        )
        .is_empty()
    );
}

#[test]
fn handles_defaults_quotes_comments_crlf_and_duplicates() {
    let keys: Vec<_> = items("default:\n")
        .into_iter()
        .map(|item| item["label"].clone())
        .collect();
    assert_eq!(keys, ["before_script", "after_script"]);
    assert_eq!(
        items("\"täst😀\": # job\naft")[0]["textEdit"]["newText"],
        "  after_script:\n    - $0"
    );
    let found = items_at(
        "test:\r\naft\r\n",
        r#"{"line": 1, "character": 3}"#,
        "{}",
        true,
    );
    assert_eq!(
        found[0]["textEdit"]["newText"],
        "  after_script:\r\n    - $0"
    );
    assert!(items("test:\n  after_script: echo hi\n  aft").is_empty());
    assert!(
        items_at(
            "test:\n  aft\n  after_script: echo hi\n",
            r#"{"line": 1, "character": 5}"#,
            "{}",
            true
        )
        .is_empty()
    );
}

#[test]
fn settings_do_not_override_existing_job_structure() {
    let text = "test:\n  variables:\n    OTHER: value\n    aft";
    assert!(
        items_at(
            text,
            r#"{"line": 3, "character": 7}"#,
            r#"{"indentation": "    "}"#,
            true
        )
        .is_empty()
    );
    let text = "test:\n    stage: build\n  aft";
    assert!(
        items_at(
            text,
            r#"{"line": 2, "character": 5}"#,
            r#"{"indentation": "  "}"#,
            true
        )
        .is_empty()
    );
    let text = "test:\n    stage: build\n    aft";
    let found = items_at(
        text,
        r#"{"line": 2, "character": 7}"#,
        r#"{"indentation": "  "}"#,
        true,
    );
    assert_eq!(
        found[0]["textEdit"]["newText"],
        "    after_script:\n        - $0"
    );
}

#[test]
fn checks_duplicate_keys_even_with_an_unfinished_later_job() {
    let text = "test:\n  aft\n  after_script:\n    - echo cleanup\nother: [\n";
    assert!(items_at(text, r#"{"line": 1, "character": 5}"#, "{}", true).is_empty());
    let text = "test:\n  aft\n  script: echo hi\nother: [\n";
    assert_eq!(
        items_at(text, r#"{"line": 1, "character": 5}"#, "{}", true).len(),
        1
    );
}

#[test]
fn merges_without_duplicate_labels_or_losing_backend_metadata() {
    let extra = items("test:\naft");
    for result in [
        value("null"),
        value("[]"),
        value(
            r#"{"items": [{"label": "after_script"}, {"label": "stage"}], "itemDefaults": {"insertTextFormat": 2}}"#,
        ),
    ] {
        let merged = to_value(&merge(
            from_value(result.clone()),
            extra.iter().cloned().map(from_value).collect(),
        ));
        let items = merged["items"].as_array().unwrap();
        assert_eq!(
            items
                .iter()
                .filter(|item| item["label"] == "after_script")
                .count(),
            1
        );
        assert_eq!(merged["isIncomplete"], true);
        if result.is_object() {
            assert_eq!(merged["itemDefaults"], result["itemDefaults"]);
            assert!(items.iter().any(|item| item["label"] == "stage"));
        }
    }
}

#[test]
fn scaffold_items_are_complete() {
    assert_eq!(
        items("test:\n  scr"),
        vec![value(
            r#"{
                "label": "script",
                "kind": 10,
                "detail": "Script block in test",
                "filterText": "script",
                "insertTextFormat": 2,
                "insertTextMode": 1,
                "textEdit": {
                    "range": {
                        "start": { "line": 1, "character": 0 },
                        "end": { "line": 1, "character": 5 }
                    },
                    "newText": "  script:\n    - $0"
                },
                "data": { "gitlabCiYaml": true }
            }"#
        )]
    );
}

#[test]
fn positions_outside_the_word_complete_nothing() {
    for position in [
        r#"{"line": 1, "character": 1}"#,
        r#"{"line": 1, "character": 6}"#,
        r#"{"line": 2, "character": 0}"#,
        r#"{"line": 0, "character": 0}"#,
        r#"{"line": -1, "character": 3}"#,
        r#"{"line": 1}"#,
        "null",
    ] {
        assert!(
            items_at("test:\n  aft", position, "{}", true).is_empty(),
            "{position}"
        );
    }
    assert_eq!(
        items_at("test:\n  aft", r#"{"line": 1, "character": 2}"#, "{}", true).len(),
        3
    );
}

#[test]
fn the_rest_of_the_file_decides_the_indentation_of_an_empty_job() {
    let text = "existing:\n    script:\n        - echo done\ntest:\naft";
    assert_eq!(
        items(text)[0]["textEdit"]["newText"],
        "    after_script:\n        - $0"
    );
    // Settings that are no indentation are ignored.
    for indentation in ["\"\"", "\" x\"", "4"] {
        let found = items_at(
            "test:\naft",
            r#"{"line": 1, "character": 3}"#,
            &format!(r#"{{"indentation": {indentation}}}"#),
            false,
        );
        assert_eq!(found[0]["textEdit"]["newText"], "  after_script:\n    - ");
    }
}

#[test]
fn merging_nothing_or_into_something_else_keeps_the_result() {
    let result = value(r#"[{"label": "stage"}]"#);
    assert_eq!(to_value(&merge(from_value(result.clone()), Vec::new())), result);
    let extra = items("test:\naft");
    for result in [value(r#""text""#), value(r#"{"items": 1}"#)] {
        let merged = merge(from_value(result.clone()), extra.iter().cloned().map(from_value).collect());
        assert_eq!(to_value(&merged), result);
    }
    let merged = to_value(&merge(
        json(r#"[{"label": "stage"}]"#),
        extra.iter().cloned().map(from_value).collect(),
    ));
    assert_eq!(merged["items"][0]["label"], "stage");
    assert_eq!(merged["items"][1]["label"], "after_script");
}
