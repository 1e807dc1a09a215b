//! Settings of the proxy.

use gitlab_ci_bash_ls::json::Json;
use gitlab_ci_bash_ls::settings::{Settings, GITLAB_CI_SCHEMA};
use gitlab_ci_bash_ls::value::from_value;

fn json(text: &str) -> Json {
    from_value(serde_json::from_str(text).unwrap())
}

fn settings(text: &str) -> Settings {
    Settings::from_value(Some(&json(text)))
}

#[test]
fn yaml_settings_pin_the_gitlab_schema_over_inherited_settings() {
    let settings = settings(
        r#"{
            "inheritedYaml": {
                "schemaStore": { "enable": true },
                "schemas": { "kubernetes": "*.yaml" },
                "format": { "singleQuote": false },
                "validate": false
            }
        }"#,
    );
    assert!(settings.yaml.at("schemaStore").same(&json(r#"{ "enable": false }"#)));
    assert!(
        settings
            .yaml
            .at("schemas")
            .same(&json(&format!(r#"{{ "{GITLAB_CI_SCHEMA}": ["*"] }}"#)))
    );
    assert!(settings.yaml.at("format").same(&json(r#"{ "singleQuote": false }"#)));
    assert!(settings.yaml.at("validate").same(&json("false")));
    assert!(settings.yaml.at("customTags").same(&json(r#"["!reference sequence"]"#)));
}

#[test]
fn user_yaml_settings_override_everything() {
    let settings = settings(
        r#"{
            "yaml": { "schemas": { "file:///local.json": "*" }, "customTags": ["!reference sequence", "!vault"] }
        }"#,
    );
    assert!(
        settings
            .yaml
            .at("schemas")
            .same(&json(r#"{ "file:///local.json": "*" }"#))
    );
    assert!(
        settings
            .yaml
            .at("customTags")
            .same(&json(r#"["!reference sequence", "!vault"]"#))
    );
    assert!(
        settings
            .bash_ide
            .at("shellcheckArguments")
            .same(&json(r#"["--exclude=SC2154"]"#))
    );
}

#[test]
fn defaults_apply_without_settings() {
    let settings = Settings::from_value(None);
    assert!(settings.bash_ide.same(&json(
        r#"{ "backgroundAnalysisMaxFiles": 0, "shellcheckArguments": ["--exclude=SC2154"] }"#
    )));
    assert_eq!(settings.shell, None);
    assert!(settings.yaml.at("completion").same(&json("true")));
    assert!(settings.yaml.at("hover").same(&json("true")));
    assert!(settings.yaml.at("validate").same(&json("true")));
}

#[test]
fn bash_settings_replace_single_defaults() {
    let settings = settings(r#"{ "bashIde": { "shellcheckArguments": ["-x"], "logLevel": "info" } }"#);
    assert!(settings.bash_ide.same(&json(
        r#"{ "backgroundAnalysisMaxFiles": 0, "shellcheckArguments": ["-x"], "logLevel": "info" }"#
    )));
}

#[test]
fn the_shell_is_trimmed_and_a_blank_one_ignored() {
    assert_eq!(settings(r#"{ "shell": " sh\n" }"#).shell.as_deref(), Some("sh"));
    assert_eq!(settings(r#"{ "shell": " dash " }"#).shell.as_deref(), Some("dash"));
    assert_eq!(settings(r#"{ "shell": "  " }"#).shell, None);
    assert_eq!(settings(r#"{ "shell": 1 }"#).shell, None);
    assert_eq!(settings(r#"[1]"#).shell, None);
}

#[test]
fn the_reference_tag_is_added_to_other_tags_once() {
    let added = settings(r#"{ "yaml": { "customTags": ["!vault"] } }"#);
    assert!(added.yaml.at("customTags").same(&json(r#"["!vault", "!reference sequence"]"#)));
    let kept = settings(r#"{ "yaml": { "customTags": ["!reference scalar"] } }"#);
    assert!(kept.yaml.at("customTags").same(&json(r#"["!reference scalar"]"#)));
    let replaced = settings(r#"{ "yaml": { "customTags": "none" } }"#);
    assert!(replaced.yaml.at("customTags").same(&json(r#""none""#)));
}
