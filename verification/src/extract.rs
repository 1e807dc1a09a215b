//! Finds the shell scripts in a GitLab CI file and records where each script
//! character came from, so positions can be translated in both directions.

use vstd::prelude::*;

pub use crate::script::{Script, SourceSpan};
pub use crate::source::{Pos, Source};
use crate::node::{
    built, built_on, closed_documents, documents_of, event_fits, is_reference_tag, lemma_built_on,
    node_get, node_text, nodes_model, with_closed, with_node, Builder, BuilderModel, FrameModel,
    Mark, Node, NodeModel,
};
use crate::scalar::{scalar_positions, scalar_spans, span_places, spans_places, Place};
use crate::script::{map_fits, ScriptModel};
use crate::source::source_lines;
use crate::text::{chars_of, join_lines, same_text};
use crate::yaml::{
    column_within, events_view, load_events, yaml_events, EventModel, ScalarStyle, YamlEvent,
};

verus! {

/// Root keys that configure the pipeline instead of naming a job.
/// Kept in sync with the job-name exclusions in `languages/gitlab-ci/injections.scm`.
pub const RESERVED_KEYS: [&'static str; 17] = [
    "after_script",
    "before_script",
    "cache",
    "hooks",
    "image",
    "include",
    "nil",
    "pre_get_sources_script",
    "script",
    "services",
    "spec",
    "stages",
    "true",
    "false",
    "types",
    "variables",
    "workflow",
];

/// Whether a root key configures the pipeline.
pub open spec fn is_reserved_key(key: Seq<char>) -> bool {
    exists|i: int| 0 <= i < RESERVED_KEYS@.len() && (#[trigger] RESERVED_KEYS@[i])@ == key
}

/// Whether a root key configures the pipeline.
pub fn is_reserved(key: &str) -> (r: bool)
    ensures
        r == is_reserved_key(key@),
{
    let keys = RESERVED_KEYS;
    let mut i: usize = 0;
    while i < keys.len()
        invariant
            keys == RESERVED_KEYS,
            i <= keys@.len(),
            forall|k: int| 0 <= k < i ==> (#[trigger] RESERVED_KEYS@[k])@ != key@,
        decreases keys@.len() - i,
    {
        if same_text(keys[i], key) {
            assert(RESERVED_KEYS@[i as int]@ == key@);
            return true;
        }
        i = i + 1;
    }
    false
}

// ---------------------------------------------------------------------------
// Commands
// ---------------------------------------------------------------------------

/// A command of a script: a scalar, and how and where it is written.
pub struct CommandModel {
    pub value: Seq<char>,
    pub style: ScalarStyle,
    pub line: int,
    pub col: int,
}

/// Whether a plain scalar stands for no value at all.
pub open spec fn is_null_text(value: Seq<char>) -> bool {
    value.len() == 0 || value == "~"@ || value == "null"@
}

/// The commands of a script value. Nested sequences are flattened like GitLab
/// does; `!reference` tags, aliases and mappings are skipped.
pub open spec fn commands(node: NodeModel) -> Seq<CommandModel>
    decreases node,
{
    match node {
        NodeModel::Scalar { value, style, line, col, reference } => if reference || (style
            == ScalarStyle::Plain && is_null_text(value)) {
            Seq::empty()
        } else {
            seq![CommandModel { value, style, line, col }]
        },
        NodeModel::Sequence { items, reference } => if reference {
            Seq::empty()
        } else {
            commands_of(items)
        },
        _ => Seq::empty(),
    }
}

/// The commands of several script values, one after the other.
pub open spec fn commands_of(nodes: Seq<NodeModel>) -> Seq<CommandModel>
    decreases nodes,
{
    if nodes.len() == 0 {
        Seq::empty()
    } else {
        commands_of(nodes.subrange(0, nodes.len() - 1)) + commands(nodes[nodes.len() - 1])
    }
}

/// The commands of the values that are there.
pub open spec fn commands_in(values: Seq<Option<NodeModel>>) -> Seq<CommandModel>
    decreases values.len(),
{
    if values.len() == 0 {
        Seq::empty()
    } else {
        commands_in(values.drop_last()) + (match values.last() {
            Some(node) => commands(node),
            None => Seq::empty(),
        })
    }
}

/// A command of a script: the characters of a scalar, and how and where it is
/// written.
pub struct ScriptCommand {
    pub value: Vec<char>,
    pub style: ScalarStyle,
    pub mark: Mark,
}

impl ScriptCommand {
    pub open spec fn view(&self) -> CommandModel {
        CommandModel {
            value: self.value@,
            style: self.style,
            line: self.mark.line_no(),
            col: self.mark.column_no(),
        }
    }
}

pub open spec fn commands_view(commands: Seq<ScriptCommand>) -> Seq<CommandModel> {
    commands.map_values(|command: ScriptCommand| command@)
}

/// Collects the command scalars of a script value. Nested sequences are
/// flattened like GitLab does; `!reference` tags and aliases are skipped.
pub fn collect_commands(node: &Node, out: &mut Vec<ScriptCommand>)
    ensures
        commands_view(final(out)@) == commands_view(old(out)@) + commands(node@),
    decreases node,
{
    let ghost before = commands_view(out@);
    match node {
        Node::Scalar { value, style, mark, reference } => {
            let is_null = *style == ScalarStyle::Plain && (value.as_str().is_empty() || same_text(
                value.as_str(),
                "~",
            ) || same_text(value.as_str(), "null"));
            if !*reference && !is_null {
                let command = ScriptCommand {
                    value: chars_of(value.as_str()),
                    style: *style,
                    mark: *mark,
                };
                out.push(command);
                assert(commands_view(out@) =~= before + seq![command@]);
            } else {
                assert(before + Seq::<CommandModel>::empty() =~= before);
            }
        },
        Node::Sequence { items, reference } => {
            if !*reference {
                let ghost models = node@->items;
                let mut i: usize = 0;
                assert(models.subrange(0, 0) =~= Seq::<NodeModel>::empty());
                assert(before + Seq::<CommandModel>::empty() =~= before);
                while i < items.len()
                    invariant
                        i <= items@.len() == models.len(),
                        *node == (Node::Sequence { items: *items, reference: *reference }),
                        forall|k: int| 0 <= k < models.len() ==> models[k] == items@[k]@,
                        commands_view(out@) == before + commands_of(models.subrange(0, i as int)),
                    decreases items@.len() - i,
                {
                    let ghost so_far = commands_view(out@);
                    proof {
                        assert(decreases_to!(*node => node->Sequence_items));
                        assert(decreases_to!(node->Sequence_items => node->Sequence_items@));
                        assert(decreases_to!(items@ => items@[i as int]));
                        let next = models.subrange(0, i + 1);
                        assert(next.subrange(0, next.len() - 1) =~= models.subrange(0, i as int));
                    }
                    collect_commands(&items[i], out);
                    assert(commands_view(out@) =~= before + commands_of(
                        models.subrange(0, i + 1),
                    ));
                    i = i + 1;
                }
                assert(models.subrange(0, i as int) =~= models);
            } else {
                assert(before + Seq::<CommandModel>::empty() =~= before);
            }
        },
        _ => {
            assert(before + Seq::<CommandModel>::empty() =~= before);
        },
    }
}

// ---------------------------------------------------------------------------
// Scripts
// ---------------------------------------------------------------------------

pub open spec fn pos_of(place: Place) -> Pos {
    Pos { line: place.line as usize, col: place.col as usize }
}

pub open spec fn span_of(span: (Place, Place)) -> SourceSpan {
    SourceSpan { start: pos_of(span.0), end: pos_of(span.1) }
}

/// The source map of one command.
pub open spec fn command_map(lines: Seq<Seq<char>>, command: CommandModel) -> Seq<
    Option<SourceSpan>,
> {
    scalar_spans(lines, command.value, command.style, command.line, command.col).map_values(
        |span: (Place, Place)| Some(span_of(span)),
    )
}

/// What stands for the separator behind a command: the end of the command,
/// with no width, so that a closing quote is not part of it.
pub open spec fn separator(map: Seq<Option<SourceSpan>>) -> Option<SourceSpan> {
    if map.len() > 0 {
        match map.last() {
            Some(span) => Some(SourceSpan { start: span.end, end: span.end }),
            None => None,
        }
    } else {
        None
    }
}

/// The commands joined by line breaks, with their source map.
pub open spec fn assembled(lines: Seq<Seq<char>>, commands: Seq<CommandModel>) -> (
    Seq<char>,
    Seq<Option<SourceSpan>>,
)
    decreases commands.len(),
{
    if commands.len() == 0 {
        (Seq::empty(), Seq::empty())
    } else {
        let (text, map) = assembled(lines, commands.drop_last());
        let command = commands.last();
        if text.len() == 0 {
            (command.value, command_map(lines, command))
        } else {
            (
                text.push('\n') + command.value,
                map.push(separator(map)) + command_map(lines, command),
            )
        }
    }
}

/// The script with the given name, unless the values hold no command.
pub open spec fn script_for(
    lines: Seq<Seq<char>>,
    name: Seq<char>,
    values: Seq<Option<NodeModel>>,
) -> Seq<ScriptModel> {
    if commands_in(values).len() == 0 {
        Seq::empty()
    } else {
        let (text, map) = assembled(lines, commands_in(values));
        seq![ScriptModel { name, text, map }]
    }
}

/// The value at `hooks: pre_get_sources_script:`.
pub open spec fn hook_of(job: NodeModel) -> Option<NodeModel> {
    match node_get(job, "hooks"@) {
        Some(hooks) => node_get(hooks, "pre_get_sources_script"@),
        None => None,
    }
}

/// The scripts of one root entry. GitLab runs before_script and script in the
/// same shell, so they form one script.
pub open spec fn entry_scripts(lines: Seq<Seq<char>>, key: NodeModel, job: NodeModel) -> Seq<
    ScriptModel,
> {
    match node_text(key) {
        None => Seq::empty(),
        Some(key) => if key == "before_script"@ || key == "after_script"@ {
            script_for(lines, key, seq![Some(job)])
        } else if is_reserved_key(key) {
            Seq::empty()
        } else {
            script_for(
                lines,
                key + "/script"@,
                seq![node_get(job, "before_script"@), node_get(job, "script"@)],
            ) + script_for(
                lines,
                key + "/after_script"@,
                seq![node_get(job, "after_script"@)],
            ) + script_for(
                lines,
                key + "/pre_get_sources_script"@,
                seq![node_get(job, "pre_get_sources_script"@)],
            ) + script_for(lines, key + "/hooks/pre_get_sources_script"@, seq![hook_of(job)])
        },
    }
}

pub open spec fn entries_scripts(lines: Seq<Seq<char>>, entries: Seq<(NodeModel, NodeModel)>) -> Seq<
    ScriptModel,
>
    decreases entries.len(),
{
    if entries.len() == 0 {
        Seq::empty()
    } else {
        entries_scripts(lines, entries.drop_last()) + entry_scripts(
            lines,
            entries.last().0,
            entries.last().1,
        )
    }
}

/// The scripts of all documents that are mappings, in the order of the file.
pub open spec fn documents_scripts(lines: Seq<Seq<char>>, documents: Seq<NodeModel>) -> Seq<
    ScriptModel,
>
    decreases documents.len(),
{
    if documents.len() == 0 {
        Seq::empty()
    } else {
        documents_scripts(lines, documents.drop_last()) + (match documents.last() {
            NodeModel::Mapping(entries) => entries_scripts(lines, entries),
            _ => Seq::empty(),
        })
    }
}

/// The scripts of a file whose parser events are given.
pub open spec fn scripts_of(lines: Seq<Seq<char>>, events: Seq<EventModel>) -> Seq<ScriptModel> {
    documents_scripts(lines, documents_of(events))
}

pub open spec fn scripts_view(scripts: Seq<Script>) -> Seq<ScriptModel> {
    scripts.map_values(|script: Script| script@)
}

/// Adds the script with the commands of `values`, unless there are none.
fn add_script(
    scripts: &mut Vec<Script>,
    source: &Source,
    name: String,
    values: &[Option<&Node>],
)
    ensures
        scripts_view(final(scripts)@) == scripts_view(old(scripts)@) + script_for(
            source@,
            name@,
            values_model(values@),
        ),
{
    let ghost before = scripts_view(scripts@);
    let ghost models = values_model(values@);
    let mut items: Vec<ScriptCommand> = Vec::new();
    let mut i: usize = 0;
    assert(models.take(0) =~= Seq::<Option<NodeModel>>::empty());
    assert(commands_view(items@) =~= Seq::<CommandModel>::empty());
    while i < values.len()
        invariant
            i <= values@.len(),
            models == values_model(values@),
            commands_view(items@) == commands_in(models.take(i as int)),
        decreases values@.len() - i,
    {
        proof {
            assert(models.take(i + 1).drop_last() =~= models.take(i as int));
            assert(models.take(i + 1).last() == models[i as int]);
            assert(commands_view(items@) + Seq::<CommandModel>::empty() =~= commands_view(items@));
        }
        match values[i] {
            Some(value) => collect_commands(value, &mut items),
            None => {},
        }
        i = i + 1;
    }
    proof {
        assert(models.take(i as int) =~= models);
        assert(before + Seq::<ScriptModel>::empty() =~= before);
    }
    if items.len() == 0 {
        return ;
    }
    let ghost commands = commands_view(items@);
    let mut chars: Vec<char> = Vec::new();
    let mut map: Vec<Option<SourceSpan>> = Vec::new();
    let mut k: usize = 0;
    assert(commands.take(0) =~= Seq::<CommandModel>::empty());
    while k < items.len()
        invariant
            k <= items@.len(),
            commands == commands_view(items@),
            (chars@, map@) == assembled(source@, commands.take(k as int)),
            chars@.len() == map@.len(),
            map_fits(map@),
        decreases items@.len() - k,
    {
        let ghost text = chars@;
        let ghost text_map = map@;
        let ghost command = commands[k as int];
        proof {
            assert(commands.take(k + 1).drop_last() =~= commands.take(k as int));
            assert(commands.take(k + 1).last() == command);
        }
        if chars.len() > 0 {
            // The separator has no source width: do not include a scalar's closing quote.
            let after_previous = match map[map.len() - 1] {
                Some(span) => Some(SourceSpan { start: span.end, end: span.end }),
                None => None,
            };
            chars.push('\n');
            map.push(after_previous);
            assert(map@ == text_map.push(separator(text_map)));
        }
        let ghost head = chars@;
        let ghost head_map = map@;
        let spans = scalar_positions(
            source,
            items[k].value.as_slice(),
            items[k].style,
            items[k].mark.line(),
            items[k].mark.col(),
        );
        let ghost own_map = command_map(source@, command);
        proof {
            assert(spans_places(spans@).len() == command.value.len());
            assert forall|j: int| 0 <= j < spans@.len() implies own_map[j] == Some(
                #[trigger] spans@[j],
            ) by {
                assert(spans_places(spans@)[j] == span_places(spans@[j]));
            }
        }
        let mut j: usize = 0;
        while j < items[k].value.len()
            invariant
                k < items@.len(),
                j <= items@[k as int].value@.len(),
                spans@.len() == items@[k as int].value@.len() == own_map.len(),
                command.value == items@[k as int].value@,
                forall|l: int| 0 <= l < spans@.len() ==> own_map[l] == Some(#[trigger] spans@[l]),
                forall|l: int| 0 <= l < spans@.len() ==> (#[trigger] spans@[l]).fits(),
                chars@ == head + command.value.take(j as int),
                map@ == head_map + own_map.take(j as int),
                head.len() == head_map.len(),
                map_fits(map@),
            decreases items@[k as int].value@.len() - j,
        {
            chars.push(items[k].value[j]);
            map.push(Some(spans[j]));
            proof {
                assert(chars@ =~= head + command.value.take(j + 1));
                assert(map@ =~= head_map + own_map.take(j + 1));
            }
            j = j + 1;
        }
        proof {
            assert(command.value.take(j as int) =~= command.value);
            assert(own_map.take(j as int) =~= own_map);
            if text.len() == 0 {
                assert(head =~= Seq::<char>::empty());
                assert(head_map =~= Seq::<Option<SourceSpan>>::empty());
                assert(chars@ =~= command.value);
                assert(map@ =~= own_map);
            }
        }
        k = k + 1;
    }
    assert(commands.take(k as int) =~= commands);
    let script = Script::new(name, chars, map);
    scripts.push(script);
    assert(scripts_view(scripts@) =~= before + seq![script@]);
}

pub open spec fn value_model(value: Option<&Node>) -> Option<NodeModel> {
    match value {
        Some(node) => Some(node@),
        None => None,
    }
}

pub open spec fn values_model(values: Seq<Option<&Node>>) -> Seq<Option<NodeModel>> {
    values.map_values(|value: Option<&Node>| value_model(value))
}

/// `key` followed by `suffix`.
fn named(key: &str, suffix: &str) -> (r: String)
    ensures
        r@ == key@ + suffix@,
{
    let mut name = key.to_owned();
    name.append(suffix);
    name
}

/// Adds the scripts of one root entry.
fn add_entry(scripts: &mut Vec<Script>, source: &Source, key: &Node, job: &Node)
    ensures
        scripts_view(final(scripts)@) == scripts_view(old(scripts)@) + entry_scripts(
            source@,
            key@,
            job@,
        ),
{
    let ghost before = scripts_view(scripts@);
    assert(before + Seq::<ScriptModel>::empty() =~= before);
    let key = match key.as_str() {
        Some(key) => key,
        None => return ,
    };
    if same_text(key, "before_script") || same_text(key, "after_script") {
        let values = [Some(job)];
        assert(values_model(values@) =~= seq![Some(job@)]);
        add_script(scripts, source, key.to_owned(), &values);
        return ;
    }
    if is_reserved(key) {
        return ;
    }
    // GitLab runs before_script and script in the same shell.

    let values = [job.get("before_script"), job.get("script")];
    assert(values_model(values@) =~= seq![
        node_get(job@, "before_script"@),
        node_get(job@, "script"@),
    ]);
    add_script(scripts, source, named(key, "/script"), &values);
    let values = [job.get("after_script")];
    assert(values_model(values@) =~= seq![node_get(job@, "after_script"@)]);
    add_script(scripts, source, named(key, "/after_script"), &values);
    let values = [job.get("pre_get_sources_script")];
    assert(values_model(values@) =~= seq![node_get(job@, "pre_get_sources_script"@)]);
    add_script(scripts, source, named(key, "/pre_get_sources_script"), &values);
    let hook = match job.get("hooks") {
        Some(hooks) => hooks.get("pre_get_sources_script"),
        None => None,
    };
    let values = [hook];
    assert(values_model(values@) =~= seq![hook_of(job@)]);
    add_script(scripts, source, named(key, "/hooks/pre_get_sources_script"), &values);
    assert(scripts_view(scripts@) =~= before + entry_scripts(source@, NodeModel::Scalar {
        value: key@,
        style: ScalarStyle::Plain,
        line: 0,
        col: 0,
        reference: false,
    }, job@));
}

/// Whether all scalars are at columns that a line can have.
pub open spec fn columns_fit(events: Seq<EventModel>) -> bool {
    forall|i: int| 0 <= i < events.len() ==> event_fits(#[trigger] events[i])
}

/// The scripts of a file with the given lines, whose parser events are `events`.
pub fn extract_scripts(source: &Source, events: Vec<YamlEvent>) -> (r: Vec<Script>)
    requires
        columns_fit(events_view(events@)),
    ensures
        scripts_view(r@) == scripts_of(source@, events_view(events@)),
{
    let ghost all = events_view(events@);
    let mut builder = Builder::new();
    assert(all.take(0) =~= Seq::<EventModel>::empty());
    for event in it: events
        invariant
            it.seq() == events@,
            all == events_view(events@),
            columns_fit(all),
            builder@ == built(all.take(it.index() as int)),
    {
        proof {
            assert(all[it.index() as int] == event@);
            assert(all.take(it.index() + 1).drop_last() =~= all.take(it.index() as int));
        }
        builder.on_event(event);
    }
    assert(all.take(all.len() as int) =~= all);
    let documents = builder.finish();
    let ghost models = nodes_model(documents@);
    let mut scripts: Vec<Script> = Vec::new();
    assert(scripts_view(scripts@) =~= Seq::<ScriptModel>::empty());
    assert(models.take(0) =~= Seq::<NodeModel>::empty());
    let mut d: usize = 0;
    while d < documents.len()
        invariant
            d <= documents@.len(),
            models == nodes_model(documents@),
            scripts_view(scripts@) == documents_scripts(source@, models.take(d as int)),
        decreases documents@.len() - d,
    {
        let ghost before = scripts_view(scripts@);
        proof {
            assert(models.take(d + 1).drop_last() =~= models.take(d as int));
            assert(models.take(d + 1).last() == documents@[d as int]@);
            assert(before + Seq::<ScriptModel>::empty() =~= before);
        }
        if let Node::Mapping(entries) = &documents[d] {
            let ghost pairs = documents@[d as int]@->Mapping_0;
            let mut e: usize = 0;
            assert(pairs.take(0) =~= Seq::<(NodeModel, NodeModel)>::empty());
            while e < entries.len()
                invariant
                    e <= entries@.len() == pairs.len(),
                    forall|k: int|
                        0 <= k < pairs.len() ==> #[trigger] pairs[k] == (
                            entries@[k].0@,
                            entries@[k].1@,
                        ),
                    scripts_view(scripts@) == before + entries_scripts(
                        source@,
                        pairs.take(e as int),
                    ),
                decreases entries@.len() - e,
            {
                proof {
                    assert(pairs.take(e + 1).drop_last() =~= pairs.take(e as int));
                    assert(pairs.take(e + 1).last() == pairs[e as int]);
                }
                add_entry(&mut scripts, source, &entries[e].0, &entries[e].1);
                assert(scripts_view(scripts@) =~= before + entries_scripts(
                    source@,
                    pairs.take(e + 1),
                ));
                e = e + 1;
            }
            assert(pairs.take(e as int) =~= pairs);
        }
        d = d + 1;
    }
    assert(models.take(d as int) =~= models);
    scripts
}

/// Parses `text` and returns the source lines plus every script it contains.
/// Invalid YAML still yields the scripts parsed before the error.
pub fn parse(text: &str) -> (r: (Source, Vec<Script>))
    ensures
        r.0@ == source_lines(text@),
        scripts_view(r.1@) == scripts_of(source_lines(text@), yaml_events(text@)),
{
    let source = Source::new(text);
    // Errors are expected while the user is typing; keep what was parsed so far.
    let events = load_events(text);
    proof {
        assert forall|i: int| 0 <= i < events@.len() implies event_fits(
            #[trigger] events_view(events@)[i],
        ) by {
            assert(column_within(events@[i]@, 4 * text@.len()));
        }
    }
    let scripts = extract_scripts(&source, events);
    (source, scripts)
}

// ---------------------------------------------------------------------------
// Laws
// ---------------------------------------------------------------------------

/// The scripts of all root entries that are complete.
pub open spec fn settled_scripts(lines: Seq<Seq<char>>, b: BuilderModel) -> Seq<ScriptModel> {
    documents_scripts(lines, b.documents) + (if b.stack.len() > 0 {
        match b.stack[0] {
            FrameModel::Mapping { entries, .. } => entries_scripts(lines, entries),
            FrameModel::Sequence { .. } => Seq::empty(),
        }
    } else {
        Seq::empty()
    })
}

/// Invalid YAML still yields the scripts before the error: once a root entry
/// is complete, its scripts stay, whatever follows it and wherever it stops.
pub proof fn law_complete_entries_keep_their_scripts(
    lines: Seq<Seq<char>>,
    events: Seq<EventModel>,
    more: Seq<EventModel>,
)
    ensures
        settled_scripts(lines, built(events)).is_prefix_of(scripts_of(lines, events + more)),
{
    lemma_built_on(events, more);
    lemma_settled_on(lines, built(events), more);
    lemma_settled_closed(lines, built(events + more));
}

proof fn lemma_settled_with_node(lines: Seq<Seq<char>>, b: BuilderModel, node: NodeModel)
    ensures
        settled_scripts(lines, b).is_prefix_of(settled_scripts(lines, with_node(b, node))),
{
    let next = with_node(b, node);
    if b.stack.len() == 0 {
        assert(next.documents.drop_last() =~= b.documents);
    } else if b.stack.len() == 1 {
        if let FrameModel::Mapping { entries, key: Some(key) } = b.stack[0] {
            assert(entries.push((key, node)).drop_last() =~= entries);
        }
    } else {
        assert(next.stack[0] == b.stack[0]);
    }
}

proof fn lemma_settled_with_closed(lines: Seq<Seq<char>>, b: BuilderModel)
    ensures
        settled_scripts(lines, b).is_prefix_of(settled_scripts(lines, with_closed(b))),
{
    if b.stack.len() == 1 {
        assert(with_closed(b).documents.drop_last() =~= b.documents);
    } else if b.stack.len() > 1 {
        let outer = BuilderModel { stack: b.stack.drop_last(), documents: b.documents };
        let node = match b.stack.last() {
            FrameModel::Sequence { items, reference } => NodeModel::Sequence { items, reference },
            FrameModel::Mapping { entries, .. } => NodeModel::Mapping(entries),
        };
        lemma_settled_with_node(lines, outer, node);
    }
}

proof fn lemma_settled_on(lines: Seq<Seq<char>>, b: BuilderModel, more: Seq<EventModel>)
    ensures
        settled_scripts(lines, b).is_prefix_of(settled_scripts(lines, built_on(b, more))),
    decreases more.len(),
{
    if more.len() > 0 {
        lemma_settled_on(lines, b, more.drop_last());
        let before = built_on(b, more.drop_last());
        match more.last() {
            EventModel::Scalar { value, style, line, col, tag } => {
                lemma_settled_with_node(
                    lines,
                    before,
                    NodeModel::Scalar { value, style, line, col, reference: is_reference_tag(tag) },
                );
            },
            EventModel::Alias => {
                lemma_settled_with_node(lines, before, NodeModel::Alias);
            },
            EventModel::SequenceEnd => {
                lemma_settled_with_closed(lines, before);
            },
            EventModel::MappingEnd => {
                lemma_settled_with_closed(lines, before);
            },
            _ => {},
        }
    }
}

proof fn lemma_settled_closed(lines: Seq<Seq<char>>, b: BuilderModel)
    ensures
        settled_scripts(lines, b).is_prefix_of(documents_scripts(lines, closed_documents(b))),
    decreases b.stack.len(),
{
    if b.stack.len() > 0 {
        lemma_settled_with_closed(lines, b);
        lemma_settled_closed(lines, with_closed(b));
    }
}

/// A nested list of commands says the same as its items written out in place.
pub proof fn law_nested_lists_are_flattened(
    before: Seq<NodeModel>,
    nested: Seq<NodeModel>,
    after: Seq<NodeModel>,
)
    ensures
        commands_of(
            before.push(NodeModel::Sequence { items: nested, reference: false }) + after,
        ) == commands_of(before + nested + after),
{
    let list = NodeModel::Sequence { items: nested, reference: false };
    lemma_commands_of_parts(before.push(list), after);
    lemma_commands_of_parts(before + nested, after);
    lemma_commands_of_parts(before, nested);
    assert(before.push(list).subrange(0, before.len() as int) =~= before);
    reveal_with_fuel(commands_of, 2);
    reveal_with_fuel(commands, 2);
}

proof fn lemma_commands_of_parts(first: Seq<NodeModel>, second: Seq<NodeModel>)
    ensures
        commands_of(first + second) == commands_of(first) + commands_of(second),
    decreases second.len(),
{
    let all = first + second;
    if second.len() == 0 {
        assert(all =~= first);
        assert(commands_of(first) + commands_of(second) =~= commands_of(first));
    } else {
        let head = second.subrange(0, second.len() - 1);
        lemma_commands_of_parts(first, head);
        assert(all.subrange(0, all.len() - 1) =~= first + head);
        assert(commands_of(first) + (commands_of(head) + commands(second.last())) =~= commands_of(
            first,
        ) + commands_of(head) + commands(second.last()));
    }
}

/// `!reference` values hold no command, nor do aliases and mappings.
pub proof fn law_references_hold_no_command(node: NodeModel)
    requires
        match node {
            NodeModel::Scalar { reference, .. } => reference,
            NodeModel::Sequence { reference, .. } => reference,
            _ => true,
        },
    ensures
        commands(node) =~= Seq::<CommandModel>::empty(),
{
}

/// Root keys that configure the pipeline have no scripts, but for the two that
/// are scripts of their own.
pub proof fn law_reserved_keys_have_no_scripts(
    lines: Seq<Seq<char>>,
    key: NodeModel,
    value: NodeModel,
)
    requires
        node_text(key) matches Some(text) && is_reserved_key(text) && text != "before_script"@
            && text != "after_script"@,
    ensures
        entry_scripts(lines, key, value) =~= Seq::<ScriptModel>::empty(),
{
}

/// Every character of a script comes from somewhere in the file.
pub proof fn law_scripts_are_mapped(lines: Seq<Seq<char>>, commands: Seq<CommandModel>)
    ensures
        assembled(lines, commands).0.len() == assembled(lines, commands).1.len(),
        forall|i: int|
            0 <= i < assembled(lines, commands).1.len() ==> (#[trigger] assembled(
                lines,
                commands,
            ).1[i]) is Some,
    decreases commands.len(),
{
    if commands.len() > 0 {
        law_scripts_are_mapped(lines, commands.drop_last());
        let command = commands.last();
        crate::scalar::law_every_character_has_a_span(
            lines,
            command.value,
            command.style,
            command.line,
            command.col,
        );
    }
}

/// A command starts on a line of its own, unless nothing came before it. The
/// separator takes no room in the file.
pub proof fn law_commands_stand_on_lines_of_their_own(
    lines: Seq<Seq<char>>,
    commands: Seq<CommandModel>,
    command: CommandModel,
)
    ensures
        assembled(lines, commands).0.len() > 0 ==> assembled(lines, commands.push(command)).0
            == assembled(lines, commands).0 + seq!['\n'] + command.value && (assembled(
            lines,
            commands.push(command),
        ).1[assembled(lines, commands).0.len() as int] matches Some(span) && span.start
            == span.end),
        assembled(lines, commands).0.len() == 0 ==> assembled(lines, commands.push(command)).0
            == command.value,
{
    assert(commands.push(command).drop_last() =~= commands);
    law_scripts_are_mapped(lines, commands);
    let (text, _) = assembled(lines, commands);
    assert(text.push('\n') =~= text + seq!['\n']);
}

// ---------------------------------------------------------------------------
// What every file yields
// ---------------------------------------------------------------------------

/// The root keys that configure the pipeline are these and no others.
pub proof fn law_reserved_keys(key: Seq<char>)
    ensures
        is_reserved_key(key) <==> (key == "after_script"@ || key == "before_script"@ || key
            == "cache"@ || key == "hooks"@ || key == "image"@ || key == "include"@ || key
            == "nil"@ || key == "pre_get_sources_script"@ || key == "script"@ || key
            == "services"@ || key == "spec"@ || key == "stages"@ || key == "true"@ || key
            == "false"@ || key == "types"@ || key == "variables"@ || key == "workflow"@),
{
    let keys = RESERVED_KEYS@;
    assert(keys.len() == 17);
    assert(keys[0]@ == "after_script"@);
    assert(keys[1]@ == "before_script"@);
    assert(keys[2]@ == "cache"@);
    assert(keys[3]@ == "hooks"@);
    assert(keys[4]@ == "image"@);
    assert(keys[5]@ == "include"@);
    assert(keys[6]@ == "nil"@);
    assert(keys[7]@ == "pre_get_sources_script"@);
    assert(keys[8]@ == "script"@);
    assert(keys[9]@ == "services"@);
    assert(keys[10]@ == "spec"@);
    assert(keys[11]@ == "stages"@);
    assert(keys[12]@ == "true"@);
    assert(keys[13]@ == "false"@);
    assert(keys[14]@ == "types"@);
    assert(keys[15]@ == "variables"@);
    assert(keys[16]@ == "workflow"@);
}

/// A scalar is a command as it stands, unless it is a reference or a plain
/// scalar that stands for no value.
pub proof fn law_scalars_are_commands(
    value: Seq<char>,
    style: ScalarStyle,
    line: int,
    col: int,
)
    ensures
        commands(NodeModel::Scalar { value, style, line, col, reference: false }) == (if style
            == ScalarStyle::Plain && (value == ""@ || value == "~"@ || value == "null"@) {
            Seq::<CommandModel>::empty()
        } else {
            seq![CommandModel { value, style, line, col }]
        }),
{
    reveal_strlit("");
    assert(value.len() == 0 <==> value =~= ""@);
}

/// A list holds the commands of its items, one after the other.
pub proof fn law_lists_hold_the_commands_of_their_items(items: Seq<NodeModel>, item: NodeModel)
    ensures
        commands(NodeModel::Sequence { items: Seq::empty(), reference: false }) == Seq::<
            CommandModel,
        >::empty(),
        commands(NodeModel::Sequence { items: items.push(item), reference: false }) == commands(
            NodeModel::Sequence { items, reference: false },
        ) + commands(item),
{
    reveal_with_fuel(commands, 2);
    reveal_with_fuel(commands_of, 2);
    let all = items.push(item);
    assert(all.subrange(0, all.len() - 1) =~= items);
}

/// The texts of commands.
pub open spec fn command_texts(commands: Seq<CommandModel>) -> Seq<Seq<char>> {
    commands.map_values(|command: CommandModel| command.value)
}

proof fn lemma_assembled_empty(lines: Seq<Seq<char>>, commands: Seq<CommandModel>)
    requires
        forall|k: int| 0 <= k < commands.len() ==> (#[trigger] commands[k]).value.len() == 0,
    ensures
        assembled(lines, commands).0.len() == 0,
    decreases commands.len(),
{
    if commands.len() > 0 {
        assert(commands[commands.len() - 1].value.len() == 0);
        lemma_assembled_empty(lines, commands.drop_last());
    }
}

/// The text of a script is its commands, joined by line breaks. Empty commands
/// in front of the first one that is not empty leave no line behind.
pub proof fn law_commands_are_joined(
    lines: Seq<Seq<char>>,
    commands: Seq<CommandModel>,
    first: int,
)
    requires
        0 <= first <= commands.len(),
        forall|k: int| 0 <= k < first ==> (#[trigger] commands[k]).value.len() == 0,
        first < commands.len() ==> commands[first].value.len() > 0,
    ensures
        assembled(lines, commands).0 == join_lines(command_texts(commands).skip(first)),
    decreases commands.len(),
{
    let texts = command_texts(commands);
    if first == commands.len() {
        lemma_assembled_empty(lines, commands);
        assert(texts.skip(first) =~= Seq::<Seq<char>>::empty());
        assert(assembled(lines, commands).0 =~= Seq::<char>::empty());
    } else {
        let last = commands.last();
        let before = commands.drop_last();
        if first == commands.len() - 1 {
            lemma_assembled_empty(lines, before);
            assert(texts.skip(first) =~= seq![last.value]);
        } else {
            law_commands_are_joined(lines, before, first);
            lemma_assembled_not_empty(lines, before, first);
            let rest = texts.skip(first);
            assert(rest.drop_last() =~= command_texts(before).skip(first));
            assert(rest.last() == last.value);
        }
    }
}

proof fn lemma_assembled_not_empty(
    lines: Seq<Seq<char>>,
    commands: Seq<CommandModel>,
    first: int,
)
    requires
        0 <= first < commands.len(),
        commands[first].value.len() > 0,
    ensures
        assembled(lines, commands).0.len() > 0,
    decreases commands.len(),
{
    if first < commands.len() - 1 {
        lemma_assembled_not_empty(lines, commands.drop_last(), first);
    }
}

/// Every character of a command is mapped to where the command has it in the
/// file, in whatever script the command stands; what comes before it stays as
/// it is, and the separator is at the end of what comes before, with no width.
pub proof fn law_commands_are_mapped_in_their_script(
    lines: Seq<Seq<char>>,
    commands: Seq<CommandModel>,
    command: CommandModel,
    i: int,
)
    requires
        0 <= i < command.value.len(),
    ensures
        ({
            let (text, map) = assembled(lines, commands);
            let (all_text, all_map) = assembled(lines, commands.push(command));
            let spans = scalar_spans(
                lines,
                command.value,
                command.style,
                command.line,
                command.col,
            );
            let start = if text.len() == 0 {
                0
            } else {
                text.len() as int + 1
            };
            &&& all_text[start + i] == command.value[i]
            &&& all_map[start + i] == Some(
                SourceSpan {
                    start: Pos {
                        line: spans[i].0.line as usize,
                        col: spans[i].0.col as usize,
                    },
                    end: Pos { line: spans[i].1.line as usize, col: spans[i].1.col as usize },
                },
            )
            &&& text.len() > 0 ==> {
                &&& text.is_prefix_of(all_text)
                &&& map.is_prefix_of(all_map)
                &&& all_text[text.len() as int] == '\n'
                &&& map.last() is Some
                &&& all_map[text.len() as int] == Some(
                    SourceSpan { start: map.last()->0.end, end: map.last()->0.end },
                )
            }
        }),
{
    assert(commands.push(command).drop_last() =~= commands);
    law_scripts_are_mapped(lines, commands);
    let (text, map) = assembled(lines, commands);
    let (all_text, all_map) = assembled(lines, commands.push(command));
    if text.len() > 0 {
        assert(map[map.len() - 1] is Some);
        assert(text =~= all_text.take(text.len() as int));
        assert(map =~= all_map.take(map.len() as int));
    }
}

/// The commands of a value that may be missing.
pub open spec fn commands_at(value: Option<NodeModel>) -> Seq<CommandModel> {
    match value {
        Some(node) => commands(node),
        None => Seq::empty(),
    }
}

/// Whether some scripts are one with a name and commands, or none if there is
/// no command.
pub open spec fn is_script_of(
    scripts: Seq<ScriptModel>,
    lines: Seq<Seq<char>>,
    name: Seq<char>,
    commands: Seq<CommandModel>,
) -> bool {
    if commands.len() == 0 {
        scripts.len() == 0
    } else {
        &&& scripts.len() == 1
        &&& scripts[0].name == name
        &&& scripts[0].text == assembled(lines, commands).0
        &&& scripts[0].map == assembled(lines, commands).1
    }
}

proof fn lemma_commands_in_one(value: Option<NodeModel>)
    ensures
        commands_in(seq![value]) == commands_at(value),
{
    assert(seq![value].drop_last() =~= Seq::<Option<NodeModel>>::empty());
    reveal_with_fuel(commands_in, 2);
    assert(commands_in(seq![value]) =~= commands_at(value));
}

proof fn lemma_commands_in_two(first: Option<NodeModel>, second: Option<NodeModel>)
    ensures
        commands_in(seq![first, second]) == commands_at(first) + commands_at(second),
{
    assert(seq![first, second].drop_last() =~= seq![first]);
    lemma_commands_in_one(first);
}

/// The value of `hooks: pre_get_sources_script:` in a job.
pub open spec fn hook_value(job: NodeModel) -> Option<NodeModel> {
    match node_get(job, "hooks"@) {
        Some(hooks) => node_get(hooks, "pre_get_sources_script"@),
        None => None,
    }
}

/// Every root entry whose key is a scalar that is not reserved is a job, hidden
/// jobs and `default` included. Its `before_script` and `script` form one
/// script, because they run in the same shell; `after_script`,
/// `pre_get_sources_script` and the hook are scripts of their own. Each is there
/// exactly when it has a command, and there are no others.
pub proof fn law_jobs_have_their_scripts(
    lines: Seq<Seq<char>>,
    key: NodeModel,
    name: Seq<char>,
    job: NodeModel,
)
    requires
        key matches NodeModel::Scalar { value, .. } && value == name,
        !is_reserved_key(name),
    ensures
        exists|
            main: Seq<ScriptModel>,
            after: Seq<ScriptModel>,
            sources: Seq<ScriptModel>,
            hook: Seq<ScriptModel>,
        |
            {
                &&& #[trigger] (main + after + sources + hook) == entry_scripts(lines, key, job)
                &&& is_script_of(
                    main,
                    lines,
                    name + "/script"@,
                    commands_at(node_get(job, "before_script"@)) + commands_at(
                        node_get(job, "script"@),
                    ),
                )
                &&& is_script_of(
                    after,
                    lines,
                    name + "/after_script"@,
                    commands_at(node_get(job, "after_script"@)),
                )
                &&& is_script_of(
                    sources,
                    lines,
                    name + "/pre_get_sources_script"@,
                    commands_at(node_get(job, "pre_get_sources_script"@)),
                )
                &&& is_script_of(
                    hook,
                    lines,
                    name + "/hooks/pre_get_sources_script"@,
                    commands_at(hook_value(job)),
                )
            },
{
    assert(RESERVED_KEYS@[1]@ == "before_script"@);
    assert(RESERVED_KEYS@[0]@ == "after_script"@);
    let before_script = node_get(job, "before_script"@);
    let script = node_get(job, "script"@);
    let after_script = node_get(job, "after_script"@);
    let sources_script = node_get(job, "pre_get_sources_script"@);
    lemma_commands_in_two(before_script, script);
    lemma_commands_in_one(after_script);
    lemma_commands_in_one(sources_script);
    lemma_commands_in_one(hook_of(job));
    let main = script_for(lines, name + "/script"@, seq![before_script, script]);
    let after = script_for(lines, name + "/after_script"@, seq![after_script]);
    let sources = script_for(lines, name + "/pre_get_sources_script"@, seq![sources_script]);
    let hook = script_for(
        lines,
        name + "/hooks/pre_get_sources_script"@,
        seq![hook_of(job)],
    );
    assert(main + after + sources + hook == entry_scripts(lines, key, job));
}

/// A `before_script` or `after_script` at the root is a script of its own.
pub proof fn law_global_scripts(
    lines: Seq<Seq<char>>,
    key: NodeModel,
    name: Seq<char>,
    value: NodeModel,
)
    requires
        key matches NodeModel::Scalar { value, .. } && value == name,
        name == "before_script"@ || name == "after_script"@,
    ensures
        is_script_of(entry_scripts(lines, key, value), lines, name, commands(value)),
{
    lemma_commands_in_one(Some(value));
}

/// An entry whose key is no scalar has no scripts.
pub proof fn law_other_keys_have_no_scripts(
    lines: Seq<Seq<char>>,
    key: NodeModel,
    value: NodeModel,
)
    requires
        !(key is Scalar),
    ensures
        entry_scripts(lines, key, value).len() == 0,
{
}

proof fn lemma_entries_scripts_parts(
    lines: Seq<Seq<char>>,
    first: Seq<(NodeModel, NodeModel)>,
    second: Seq<(NodeModel, NodeModel)>,
)
    ensures
        entries_scripts(lines, first + second) == entries_scripts(lines, first)
            + entries_scripts(lines, second),
    decreases second.len(),
{
    if second.len() == 0 {
        assert(first + second =~= first);
        assert(entries_scripts(lines, first) + entries_scripts(lines, second) =~= entries_scripts(
            lines,
            first,
        ));
    } else {
        lemma_entries_scripts_parts(lines, first, second.drop_last());
        assert((first + second).drop_last() =~= first + second.drop_last());
        assert(entries_scripts(lines, first + second) =~= entries_scripts(lines, first)
            + entries_scripts(lines, second));
    }
}

proof fn lemma_documents_scripts_parts(
    lines: Seq<Seq<char>>,
    first: Seq<NodeModel>,
    second: Seq<NodeModel>,
)
    ensures
        documents_scripts(lines, first + second) == documents_scripts(lines, first)
            + documents_scripts(lines, second),
    decreases second.len(),
{
    if second.len() == 0 {
        assert(first + second =~= first);
        assert(documents_scripts(lines, first) + documents_scripts(lines, second)
            =~= documents_scripts(lines, first));
    } else {
        lemma_documents_scripts_parts(lines, first, second.drop_last());
        assert((first + second).drop_last() =~= first + second.drop_last());
        assert(documents_scripts(lines, first + second) =~= documents_scripts(lines, first)
            + documents_scripts(lines, second));
    }
}

/// The scripts of a file are those of the root entries of its documents, in the
/// order of the file: the scripts of each entry stand together, those of the
/// entries and documents before it come first, and those behind it follow.
pub proof fn law_scripts_are_in_the_order_of_the_file(
    lines: Seq<Seq<char>>,
    before: Seq<NodeModel>,
    head: Seq<(NodeModel, NodeModel)>,
    key: NodeModel,
    value: NodeModel,
    tail: Seq<(NodeModel, NodeModel)>,
    after: Seq<NodeModel>,
)
    ensures
        ({
            let document = NodeModel::Mapping(head.push((key, value)) + tail);
            documents_scripts(lines, before.push(document) + after) == documents_scripts(
                lines,
                before,
            ) + documents_scripts(lines, seq![NodeModel::Mapping(head)]) + entry_scripts(
                lines,
                key,
                value,
            ) + documents_scripts(lines, seq![NodeModel::Mapping(tail)]) + documents_scripts(
                lines,
                after,
            )
        }),
{
    let entries = head.push((key, value)) + tail;
    let document = NodeModel::Mapping(entries);
    lemma_documents_scripts_parts(lines, before.push(document), after);
    assert(before.push(document).drop_last() =~= before);
    lemma_entries_scripts_parts(lines, head.push((key, value)), tail);
    assert(head.push((key, value)).drop_last() =~= head);
    lemma_single_document(lines, head);
    lemma_single_document(lines, tail);
    let own = entry_scripts(lines, key, value);
    let a = documents_scripts(lines, before);
    let b = entries_scripts(lines, head);
    let c = entries_scripts(lines, tail);
    let d = documents_scripts(lines, after);
    assert(a + (b + own + c) + d =~= a + b + own + c + d);
}

proof fn lemma_single_document(lines: Seq<Seq<char>>, entries: Seq<(NodeModel, NodeModel)>)
    ensures
        documents_scripts(lines, seq![NodeModel::Mapping(entries)]) == entries_scripts(
            lines,
            entries,
        ),
{
    assert(seq![NodeModel::Mapping(entries)].drop_last() =~= Seq::<NodeModel>::empty());
    reveal_with_fuel(documents_scripts, 2);
    assert(documents_scripts(lines, seq![NodeModel::Mapping(entries)]) =~= entries_scripts(
        lines,
        entries,
    ));
}

/// Files and documents without entries have no scripts, nor do documents that
/// are no mappings.
pub proof fn law_no_entries_no_scripts(lines: Seq<Seq<char>>, document: NodeModel)
    requires
        document matches NodeModel::Mapping(entries) ==> entries.len() == 0,
    ensures
        documents_scripts(lines, Seq::empty()).len() == 0,
        documents_scripts(lines, seq![document]).len() == 0,
{
    assert(seq![document].drop_last() =~= Seq::<NodeModel>::empty());
    reveal_with_fuel(documents_scripts, 2);
}

/// The scripts of every job are among the scripts of its file.
pub proof fn law_files_hold_the_scripts_of_their_jobs(
    lines: Seq<Seq<char>>,
    events: Seq<EventModel>,
    d: int,
    entries: Seq<(NodeModel, NodeModel)>,
    e: int,
    name: Seq<char>,
)
    requires
        0 <= d < documents_of(events).len(),
        documents_of(events)[d] == NodeModel::Mapping(entries),
        0 <= e < entries.len(),
        entries[e].0 matches NodeModel::Scalar { value, .. } && value == name,
        !is_reserved_key(name),
        (commands_at(node_get(entries[e].1, "before_script"@)) + commands_at(
            node_get(entries[e].1, "script"@),
        )).len() > 0,
    ensures
        exists|i: int|
            {
                let cs = commands_at(node_get(entries[e].1, "before_script"@)) + commands_at(
                    node_get(entries[e].1, "script"@),
                );
                &&& 0 <= i < scripts_of(lines, events).len()
                &&& (#[trigger] scripts_of(lines, events)[i]).name == name + "/script"@
                &&& scripts_of(lines, events)[i].text == assembled(lines, cs).0
                &&& scripts_of(lines, events)[i].map == assembled(lines, cs).1
            },
{
    let documents = documents_of(events);
    let (key, job) = entries[e];
    let before = documents.take(d);
    let after = documents.skip(d + 1);
    let head = entries.take(e);
    let tail = entries.skip(e + 1);
    assert(entries =~= head.push((key, job)) + tail);
    assert(documents =~= before.push(NodeModel::Mapping(entries)) + after);
    law_scripts_are_in_the_order_of_the_file(lines, before, head, key, job, tail, after);
    law_jobs_have_their_scripts(lines, key, name, job);
    let own = entry_scripts(lines, key, job);
    let i = documents_scripts(lines, before).len() + documents_scripts(
        lines,
        seq![NodeModel::Mapping(head)],
    ).len();
    assert(own.len() > 0);
    assert(scripts_of(lines, events)[i as int] == own[0]);
}

} // verus!
