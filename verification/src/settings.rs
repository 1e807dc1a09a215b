//! The settings of the proxy.

use vstd::prelude::*;

use crate::json::{
    duplicates, entries_map, field, fields_view, items_view, opt_view, text_of, with_default,
    with_field, Json, JsonModel,
};
use crate::text::{law_white_space_around_is_cut_off, has_prefix, lemma_trimmed, trim, trimmed, white_space};

verus! {

pub const GITLAB_CI_SCHEMA: &'static str = "https://gitlab.com/gitlab-org/gitlab/-/raw/master/app/assets/javascripts/editor/schema/ci.json";

/// Settings from `lsp.gitlab-ci-bash-ls.settings` in Zed.
#[derive(Debug)]
pub struct Settings {
    /// Forwarded to bash-language-server as its `bashIde` configuration.
    pub bash_ide: Json,
    /// Dialect passed to ShellCheck through a `# shellcheck shell=` directive.
    pub shell: Option<String>,
    /// Forwarded to yaml-language-server as its `yaml` configuration.
    pub yaml: Json,
}

pub struct SettingsModel {
    pub bash_ide: JsonModel,
    pub shell: Option<Seq<char>>,
    pub yaml: JsonModel,
}

/// The keys of `source` win over those of `target`. Only objects have keys.
pub open spec fn merged(target: JsonModel, source: Option<JsonModel>) -> JsonModel {
    match (target, source) {
        (JsonModel::Object(below), Some(JsonModel::Object(above))) => JsonModel::Object(
            below.union_prefer_right(above),
        ),
        _ => target,
    }
}

pub open spec fn option_field(value: Option<JsonModel>, key: Seq<char>) -> Option<JsonModel> {
    match value {
        Some(value) => field(value, key),
        None => None,
    }
}

pub open spec fn default_bash_ide() -> JsonModel {
    JsonModel::Object(
        map![
            "backgroundAnalysisMaxFiles"@ => JsonModel::Integer(0),
            "shellcheckArguments"@ => JsonModel::Array(seq![JsonModel::Text("--exclude=SC2154"@)]),
        ],
    )
}

pub open spec fn default_yaml() -> JsonModel {
    JsonModel::Object(
        map![
            "completion"@ => JsonModel::Bool(true),
            "hover"@ => JsonModel::Bool(true),
            "validate"@ => JsonModel::Bool(true),
        ],
    )
}

/// The schema for every document: GitLab's.
pub open spec fn gitlab_schemas() -> JsonModel {
    JsonModel::Object(
        map![GITLAB_CI_SCHEMA@ => JsonModel::Array(seq![JsonModel::Text("*"@)])],
    )
}

pub open spec fn no_schema_store() -> JsonModel {
    JsonModel::Object(map!["enable"@ => JsonModel::Bool(false)])
}

/// What the proxy sets itself, over all that is inherited.
pub open spec fn pinned_yaml() -> JsonModel {
    JsonModel::Object(
        map!["schemaStore"@ => no_schema_store(), "schemas"@ => gitlab_schemas()],
    )
}

/// Whether a custom tag registers `!reference`.
pub open spec fn is_reference_entry(tag: JsonModel) -> bool {
    text_of(tag) matches Some(tag) && "!reference"@.is_prefix_of(tag)
}

/// Whether one of the tags registers `!reference`.
pub open spec fn has_reference_entry(tags: Seq<JsonModel>) -> bool {
    exists|i: int| 0 <= i < tags.len() && is_reference_entry(#[trigger] tags[i])
}

/// The `!reference` tag is registered unless it is already, or the list of
/// tags is no list.
pub open spec fn with_reference_tag(yaml: JsonModel) -> JsonModel {
    let yaml = with_default(yaml, "customTags"@, JsonModel::Array(Seq::empty()));
    match field(yaml, "customTags"@) {
        Some(JsonModel::Array(tags)) => if has_reference_entry(tags) {
            yaml
        } else {
            with_field(
                yaml,
                "customTags"@,
                JsonModel::Array(tags.push(JsonModel::Text("!reference sequence"@))),
            )
        },
        _ => yaml,
    }
}

/// The dialect for ShellCheck; a blank one counts as none.
pub open spec fn shell_of(shell: Option<JsonModel>) -> Option<Seq<char>> {
    match shell {
        Some(JsonModel::Text(shell)) => if trimmed(shell).len() > 0 {
            Some(trimmed(shell))
        } else {
            None
        },
        _ => None,
    }
}

/// Lowest to highest precedence: defaults, the user's settings for Zed's YAML
/// server (passed on by the extension), the GitLab schema, and the user's
/// `yaml` settings for this proxy.
pub open spec fn yaml_settings(value: Option<JsonModel>) -> JsonModel {
    with_reference_tag(
        merged(
            merged(
                merged(default_yaml(), option_field(value, "inheritedYaml"@)),
                Some(pinned_yaml()),
            ),
            option_field(value, "yaml"@),
        ),
    )
}

pub open spec fn settings_of(value: Option<JsonModel>) -> SettingsModel {
    SettingsModel {
        bash_ide: merged(default_bash_ide(), option_field(value, "bashIde"@)),
        shell: shell_of(option_field(value, "shell"@)),
        yaml: yaml_settings(value),
    }
}

/// Shallow merge of the keys of `source` into `target`.
pub fn merge(target: Json, source: Option<&Json>) -> (r: Json)
    ensures
        r@ == merged(target@, opt_view(source)),
{
    let source = match source {
        Some(source) => source,
        None => return target,
    };
    match source {
        Json::Object(entries) => {
            if !target.is_object() {
                return target;
            }
            let ghost below = target@->Object_0;
            let ghost fields = fields_view(entries@);
            let mut result = target;
            let mut i: usize = 0;
            proof {
                assert(fields.take(0) =~= Seq::<(Seq<char>, JsonModel)>::empty());
                assert(below.union_prefer_right(Map::empty()) =~= below);
            }
            while i < entries.len()
                invariant
                    i <= entries@.len(),
                    fields == fields_view(entries@),
                    result@ == JsonModel::Object(
                        below.union_prefer_right(entries_map(fields.take(i as int))),
                    ),
                decreases entries@.len() - i,
            {
                proof {
                    let above = entries_map(fields.take(i as int));
                    assert(fields.take(i + 1).drop_last() =~= fields.take(i as int));
                    assert(fields.take(i + 1).last() == fields[i as int]);
                    let (key, value) = fields[i as int];
                    assert(below.union_prefer_right(above).insert(key, value)
                        =~= below.union_prefer_right(above.insert(key, value)));
                }
                result = result.with(entries[i].0.as_str(), entries[i].1.duplicate());
                i = i + 1;
            }
            proof {
                assert(fields.take(i as int) =~= fields);
                assert(source.entries() =~= fields);
            }
            result
        },
        _ => target,
    }
}

impl Settings {
    pub open spec fn view(&self) -> SettingsModel {
        SettingsModel {
            bash_ide: self.bash_ide@,
            shell: match self.shell {
                Some(shell) => Some(shell@),
                None => None,
            },
            yaml: self.yaml@,
        }
    }

    pub fn from_value(value: Option<&Json>) -> (r: Self)
        ensures
            r@ == settings_of(opt_view(value)),
    {
        // Job variables are defined by GitLab, not in the script, so SC2154
        // ("referenced but not assigned") would fire on nearly every variable.
        // Background analysis would scan unrelated workspace scripts.
        let arguments = vec![Json::string("--exclude=SC2154")];
        assert(items_view(arguments@) =~= seq![JsonModel::Text("--exclude=SC2154"@)]);
        let bash_ide = Json::object().with("backgroundAnalysisMaxFiles", Json::Uint(0)).with(
            "shellcheckArguments",
            Json::array(arguments),
        );
        let bash_ide = merge(bash_ide, get(value, "bashIde"));

        // Lowest to highest precedence: defaults, the user's settings for Zed's
        // YAML server (passed on by the extension), the GitLab schema, and the
        // user's `yaml` settings for this proxy. The YAML backend only ever sees
        // GitLab CI files, so the schema applies to every document.
        let yaml = Json::object().with("completion", Json::Bool(true)).with(
            "hover",
            Json::Bool(true),
        ).with("validate", Json::Bool(true));
        let yaml = merge(yaml, get(value, "inheritedYaml"));
        let every = vec![Json::string("*")];
        assert(items_view(every@) =~= seq![JsonModel::Text("*"@)]);
        let pinned = Json::object().with(
            "schemaStore",
            Json::object().with("enable", Json::Bool(false)),
        ).with("schemas", Json::object().with(GITLAB_CI_SCHEMA, Json::array(every)));
        let yaml = merge(yaml, Some(&pinned));
        let yaml = merge(yaml, get(value, "yaml"));
        let yaml = register_reference_tag(yaml);

        let shell = match get(value, "shell") {
            Some(shell) => match shell.as_str() {
                Some(shell) => {
                    let shell = trim(shell);
                    if shell.as_str().is_empty() {
                        None
                    } else {
                        Some(shell)
                    }
                },
                None => None,
            },
            None => None,
        };
        Settings { bash_ide, shell, yaml }
    }
}

fn get<'a>(value: Option<&'a Json>, key: &str) -> (r: Option<&'a Json>)
    ensures
        opt_view(r) == option_field(opt_view(value), key@),
{
    match value {
        Some(value) => value.get(key),
        None => None,
    }
}

/// Registers the `!reference` tag.
fn register_reference_tag(yaml: Json) -> (r: Json)
    ensures
        r@ == with_reference_tag(yaml@),
{
    let none: Vec<Json> = Vec::new();
    assert(items_view(none@) =~= Seq::<JsonModel>::empty());
    let tagged = yaml.with_missing("customTags", Json::array(none));
    let mut tags = match tagged.get("customTags") {
        Some(Json::Array(tags)) => {
            duplicates(tags)
        },
        _ => {
            return tagged;
        },
    };
    let ghost models = items_view(tags@);
    proof {
        assert(field(tagged@, "customTags"@)->Some_0->Array_0 =~= models);
    }
    let mut i: usize = 0;
    while i < tags.len()
        invariant
            i <= tags@.len(),
            models == items_view(tags@),
            tagged@ == with_default(yaml@, "customTags"@, JsonModel::Array(Seq::empty())),
            field(tagged@, "customTags"@) == Some(JsonModel::Array(models)),
            forall|k: int| 0 <= k < i ==> !is_reference_entry(#[trigger] models[k]),
        decreases tags@.len() - i,
    {
        if let Some(tag) = tags[i].as_str() {
            if has_prefix(tag, "!reference") {
                assert(is_reference_entry(models[i as int]));
                return tagged;
            }
        }
        i = i + 1;
    }
    tags.push(Json::string("!reference sequence"));
    assert(items_view(tags@) =~= models.push(JsonModel::Text("!reference sequence"@)));
    tagged.with("customTags", Json::array(tags))
}


// ---------------------------------------------------------------------------
// Laws
// ---------------------------------------------------------------------------

/// The user's `bashIde` settings win over the defaults, and the defaults hold
/// for all other keys.
pub proof fn law_bash_ide_settings_win(value: JsonModel, key: Seq<char>)
    ensures
        field(value, "bashIde"@) matches Some(JsonModel::Object(own)) ==> field(
            settings_of(Some(value)).bash_ide,
            key,
        ) == (if own.contains_key(key) {
            Some(own[key])
        } else {
            field(default_bash_ide(), key)
        }),
        !(field(value, "bashIde"@) matches Some(JsonModel::Object(_))) ==> settings_of(
            Some(value),
        ).bash_ide == default_bash_ide(),
{
}

/// The user's `yaml` settings for the proxy win over everything else; only the
/// list of custom tags may get longer.
pub proof fn law_yaml_settings_win(value: JsonModel, key: Seq<char>)
    requires
        field(value, "yaml"@) matches Some(JsonModel::Object(own)) && own.contains_key(key),
        key != "customTags"@,
    ensures
        field(yaml_settings(Some(value)), key) == field(field(value, "yaml"@)->Some_0, key),
{
}

/// GitLab's schema is pinned over inherited settings, with SchemaStore off,
/// unless the user's `yaml` settings say otherwise.
pub proof fn law_gitlab_schema_is_pinned(value: Option<JsonModel>, key: Seq<char>)
    requires
        key == "schemas"@ || key == "schemaStore"@,
        option_field(value, "yaml"@) matches Some(own) ==> field(own, key) is None,
    ensures
        field(yaml_settings(value), key) == field(pinned_yaml(), key),
        field(yaml_settings(value), key) is Some,
{
    reveal_strlit("schemas");
    reveal_strlit("schemaStore");
    reveal_strlit("customTags");
}

/// Inherited settings keep applying where neither the proxy nor the user says
/// anything else.
pub proof fn law_inherited_settings_apply(value: JsonModel, key: Seq<char>)
    requires
        field(value, "inheritedYaml"@) matches Some(JsonModel::Object(inherited))
            && inherited.contains_key(key),
        key != "schemas"@,
        key != "schemaStore"@,
        key != "customTags"@,
        field(value, "yaml"@) matches Some(own) ==> field(own, key) is None,
    ensures
        field(yaml_settings(Some(value)), key) == field(
            field(value, "inheritedYaml"@)->Some_0,
            key,
        ),
{
}

/// The `!reference` tag is registered, whatever the settings are, unless they
/// replace the list of tags by something else. No tag of the user is lost.
pub proof fn law_reference_tag_is_registered(value: Option<JsonModel>)
    ensures
        field(yaml_settings(value), "customTags"@) matches Some(JsonModel::Array(tags)) ==> has_reference_entry(tags),
        field(yaml_settings(value), "customTags"@) is Some,
        option_field(value, "yaml"@) matches Some(own) ==> (field(own, "customTags"@) matches Some(
            JsonModel::Array(own_tags),
        ) ==> (field(yaml_settings(value), "customTags"@) matches Some(JsonModel::Array(tags))
            && own_tags.is_prefix_of(tags))),
{
    let base = merged(
        merged(
            merged(default_yaml(), option_field(value, "inheritedYaml"@)),
            Some(pinned_yaml()),
        ),
        option_field(value, "yaml"@),
    );
    let tagged = with_default(base, "customTags"@, JsonModel::Array(Seq::empty()));
    if let Some(JsonModel::Array(tags)) = field(tagged, "customTags"@) {
        if !has_reference_entry(tags) {
            let more = tags.push(JsonModel::Text("!reference sequence"@));
            reveal_strlit("!reference sequence");
            reveal_strlit("!reference");
            assert("!reference"@ =~= "!reference sequence"@.subrange(0, "!reference"@.len() as int));
            assert(is_reference_entry(more[tags.len() as int]));
            assert(yaml_settings(value) == with_field(
                tagged,
                "customTags"@,
                JsonModel::Array(more),
            ));
            assert(field(yaml_settings(value), "customTags"@) == Some(JsonModel::Array(more)));
        } else {
            assert(yaml_settings(value) == tagged);
        }
    }
}

/// Without settings ShellCheck's dialect is left alone, and so it is with a
/// blank one; the dialect has no white space around it.
pub proof fn law_shell_is_never_blank(value: Option<JsonModel>)
    ensures
        settings_of(value).shell matches Some(shell) ==> shell.len() > 0 && !white_space(shell[0])
            && !white_space(shell.last()),
        value is None ==> settings_of(value).shell is None,
{
    if let Some(JsonModel::Text(shell)) = option_field(value, "shell"@) {
        lemma_trimmed(shell);
    }
}

/// The keys of the settings are different texts.
proof fn lemma_setting_keys()
    ensures
        "completion"@ != "hover"@,
        "completion"@ != "validate"@,
        "completion"@ != "schemas"@,
        "completion"@ != "schemaStore"@,
        "completion"@ != "customTags"@,
        "hover"@ != "validate"@,
        "hover"@ != "schemas"@,
        "hover"@ != "schemaStore"@,
        "hover"@ != "customTags"@,
        "validate"@ != "schemas"@,
        "validate"@ != "schemaStore"@,
        "validate"@ != "customTags"@,
        "schemas"@ != "schemaStore"@,
        "schemas"@ != "customTags"@,
        "schemaStore"@ != "customTags"@,
        "backgroundAnalysisMaxFiles"@ != "shellcheckArguments"@,
{
    reveal_strlit("completion");
    reveal_strlit("hover");
    reveal_strlit("validate");
    reveal_strlit("schemas");
    reveal_strlit("schemaStore");
    reveal_strlit("customTags");
    reveal_strlit("backgroundAnalysisMaxFiles");
    reveal_strlit("shellcheckArguments");
    assert("completion"@.len() == 10);
    assert("hover"@.len() == 5);
    assert("validate"@.len() == 8);
    assert("schemas"@.len() == 7);
    assert("schemaStore"@.len() == 11);
    assert("customTags"@.len() == 10);
    assert("completion"@[1] != "customTags"@[1]);
    assert("backgroundAnalysisMaxFiles"@.len() == 26);
    assert("shellcheckArguments"@.len() == 19);
}

/// Where the user's `bashIde` settings say nothing, bash-language-server
/// analyses no files in the background, and ShellCheck does not warn about
/// variables that are never assigned. Nothing else is set.
pub proof fn law_default_bash_settings(value: Option<JsonModel>, key: Seq<char>)
    requires
        option_field(value, "bashIde"@) matches Some(own) ==> field(own, key) is None,
    ensures
        key == "backgroundAnalysisMaxFiles"@ ==> field(settings_of(value).bash_ide, key) == Some(
            JsonModel::Integer(0),
        ),
        key == "shellcheckArguments"@ ==> field(settings_of(value).bash_ide, key) == Some(
            JsonModel::Array(seq![JsonModel::Text("--exclude=SC2154"@)]),
        ),
        key != "backgroundAnalysisMaxFiles"@ && key != "shellcheckArguments"@ ==> field(
            settings_of(value).bash_ide,
            key,
        ) is None,
{
    lemma_setting_keys();
}

/// The user's `bashIde` settings are settings for bash-language-server.
pub proof fn law_own_bash_settings_apply(value: JsonModel, own: JsonModel, key: Seq<char>)
    requires
        field(value, "bashIde"@) == Some(own),
        field(own, key) is Some,
    ensures
        field(settings_of(Some(value)).bash_ide, key) == field(own, key),
{
}

/// Where neither the user's `yaml` settings nor the inherited ones say
/// anything, completion, hovers and validation are on. Nothing else is set but
/// the schema and the custom tags.
pub proof fn law_default_yaml_settings(value: Option<JsonModel>, key: Seq<char>)
    requires
        option_field(value, "yaml"@) matches Some(own) ==> field(own, key) is None,
        option_field(value, "inheritedYaml"@) matches Some(own) ==> field(own, key) is None,
        key != "schemas"@,
        key != "schemaStore"@,
        key != "customTags"@,
    ensures
        field(settings_of(value).yaml, key) == (if key == "completion"@ || key == "hover"@ || key
            == "validate"@ {
            Some(JsonModel::Bool(true))
        } else {
            None
        }),
{
    lemma_setting_keys();
}

/// The schema that is pinned is GitLab's, for every file, and SchemaStore is
/// off. Only the user's `yaml` settings for the proxy change that.
pub proof fn law_pinned_yaml_settings(value: Option<JsonModel>)
    ensures
        !(option_field(value, "yaml"@) matches Some(own) && field(own, "schemas"@) is Some)
            ==> field(settings_of(value).yaml, "schemas"@) == Some(
            JsonModel::Object(
                map![
                    "https://gitlab.com/gitlab-org/gitlab/-/raw/master/app/assets/javascripts/editor/schema/ci.json"@
                        => JsonModel::Array(seq![JsonModel::Text("*"@)]),
                ],
            ),
        ),
        !(option_field(value, "yaml"@) matches Some(own) && field(own, "schemaStore"@) is Some)
            ==> field(settings_of(value).yaml, "schemaStore"@) == Some(
            JsonModel::Object(map!["enable"@ => JsonModel::Bool(false)]),
        ),
{
    lemma_setting_keys();
}

/// The user's `yaml` settings for the proxy win over everything else, and the
/// inherited ones over the defaults, key by key.
pub proof fn law_yaml_settings_are_layered(
    value: JsonModel,
    key: Seq<char>,
    own: JsonModel,
    inherited: JsonModel,
)
    requires
        key != "customTags"@,
        field(value, "yaml"@) == Some(own) || (field(value, "yaml"@) is None && own
            == JsonModel::Null),
        field(value, "inheritedYaml"@) == Some(inherited) || (field(value, "inheritedYaml"@)
            is None && inherited == JsonModel::Null),
    ensures
        field(own, key) is Some ==> field(settings_of(Some(value)).yaml, key) == field(own, key),
        field(own, key) is None && field(inherited, key) is Some && key != "schemas"@ && key
            != "schemaStore"@ ==> field(settings_of(Some(value)).yaml, key) == field(
            inherited,
            key,
        ),
{
    lemma_setting_keys();
}

/// The custom tags are the user's, or the inherited ones if the user has none.
/// `!reference sequence` comes behind them unless one of them starts with
/// `!reference`. Anything but a list stays as it is.
pub proof fn law_custom_tags(
    value: JsonModel,
    own: JsonModel,
    inherited: JsonModel,
    tags: Seq<JsonModel>,
)
    requires
        field(value, "yaml"@) == Some(own) || (field(value, "yaml"@) is None && own
            == JsonModel::Null),
        field(value, "inheritedYaml"@) == Some(inherited) || (field(value, "inheritedYaml"@)
            is None && inherited == JsonModel::Null),
    ensures
        ({
            let given = if field(own, "customTags"@) is Some {
                field(own, "customTags"@)
            } else {
                field(inherited, "customTags"@)
            };
            let made = field(settings_of(Some(value)).yaml, "customTags"@);
            let registered = exists|i: int|
                0 <= i < tags.len() && ((#[trigger] tags[i]) matches JsonModel::Text(tag)
                    && "!reference"@.is_prefix_of(tag));
            let reference = JsonModel::Text("!reference sequence"@);
            &&& given == Some(JsonModel::Array(tags)) && registered ==> made == given
            &&& given == Some(JsonModel::Array(tags)) && !registered ==> made == Some(
                JsonModel::Array(tags.push(reference)),
            )
            &&& given is None ==> made == Some(JsonModel::Array(seq![reference]))
            &&& given is Some && !(given->Some_0 is Array) ==> made == given
        }),
{
    lemma_setting_keys();
    let base = merged(
        merged(merged(default_yaml(), field(value, "inheritedYaml"@)), Some(pinned_yaml())),
        field(value, "yaml"@),
    );
    let given = if field(own, "customTags"@) is Some {
        field(own, "customTags"@)
    } else {
        field(inherited, "customTags"@)
    };
    assert(field(base, "customTags"@) == given);
    let reference = JsonModel::Text("!reference sequence"@);
    if given is None {
        let none = Seq::<JsonModel>::empty();
        assert(!has_reference_entry(none));
        assert(none.push(reference) =~= seq![reference]);
    }
    if given == Some(JsonModel::Array(tags)) {
        assert(has_reference_entry(tags) <==> exists|i: int|
            0 <= i < tags.len() && ((#[trigger] tags[i]) matches JsonModel::Text(tag)
                && "!reference"@.is_prefix_of(tag))) by {
            if has_reference_entry(tags) {
                let i = choose|i: int|
                    0 <= i < tags.len() && is_reference_entry(#[trigger] tags[i]);
                assert(tags[i] is Text);
            }
            if exists|i: int|
                0 <= i < tags.len() && ((#[trigger] tags[i]) matches JsonModel::Text(tag)
                    && "!reference"@.is_prefix_of(tag)) {
                let i = choose|i: int|
                    0 <= i < tags.len() && ((#[trigger] tags[i]) matches JsonModel::Text(tag)
                        && "!reference"@.is_prefix_of(tag));
                assert(is_reference_entry(tags[i]));
            }
        }
    }
}

/// The dialect for ShellCheck is the text of `shell` without the white space
/// around it. There is none if that is empty, or if `shell` is no text.
pub proof fn law_shell_is_the_text_of_its_setting(
    value: JsonModel,
    before: Seq<char>,
    shell: Seq<char>,
    behind: Seq<char>,
)
    requires
        forall|i: int| 0 <= i < before.len() ==> white_space(#[trigger] before[i]),
        forall|i: int| 0 <= i < behind.len() ==> white_space(#[trigger] behind[i]),
        shell.len() > 0 ==> !white_space(shell[0]) && !white_space(shell.last()),
    ensures
        field(value, "shell"@) == Some(JsonModel::Text(before + shell + behind)) ==> settings_of(
            Some(value),
        ).shell == (if shell.len() > 0 {
            Some(shell)
        } else {
            None
        }),
        !(field(value, "shell"@) matches Some(JsonModel::Text(_))) ==> settings_of(
            Some(value),
        ).shell is None,
{
    law_white_space_around_is_cut_off(before, shell, behind);
}

} // verus!
