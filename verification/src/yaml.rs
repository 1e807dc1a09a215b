//! The YAML parser, behind plain values.
//!
//! `yaml_rust2` reads the YAML. What it reports is handed on as plain data:
//! a list of events with their positions, or a list of loaded documents.

use vstd::prelude::*;
use yaml_rust2::parser::{Event, MarkedEventReceiver, Parser};
use yaml_rust2::scanner::{Marker, TScalarStyle};
use yaml_rust2::{Yaml, YamlLoader};

use crate::seqs::{first_index, lemma_first_from, lemma_first_from_is};
use crate::text::same_text;

verus! {

// ---------------------------------------------------------------------------
// Events
// ---------------------------------------------------------------------------

/// How a scalar is written in the file.
#[derive(Clone, Copy, Debug, PartialEq, Eq, Structural)]
pub enum ScalarStyle {
    Plain,
    SingleQuoted,
    DoubleQuoted,
    Literal,
    Folded,
}

/// One event of the YAML parser. A tag is its handle and its suffix.
#[derive(Debug)]
pub enum YamlEvent {
    Scalar {
        value: String,
        style: ScalarStyle,
        line: usize,
        col: usize,
        tag: Option<(String, String)>,
    },
    SequenceStart { tag: Option<(String, String)> },
    SequenceEnd,
    MappingStart,
    MappingEnd,
    Alias,
    /// A stream or document boundary.
    Boundary,
}

/// What an event says.
pub enum EventModel {
    Scalar {
        value: Seq<char>,
        style: ScalarStyle,
        line: int,
        col: int,
        tag: Option<(Seq<char>, Seq<char>)>,
    },
    SequenceStart { tag: Option<(Seq<char>, Seq<char>)> },
    SequenceEnd,
    MappingStart,
    MappingEnd,
    Alias,
    Boundary,
}

pub open spec fn tag_view(tag: Option<(String, String)>) -> Option<(Seq<char>, Seq<char>)> {
    match tag {
        Some((handle, suffix)) => Some((handle@, suffix@)),
        None => None,
    }
}

impl YamlEvent {
    pub open spec fn view(&self) -> EventModel {
        match *self {
            YamlEvent::Scalar { value, style, line, col, tag } => EventModel::Scalar {
                value: value@,
                style,
                line: line as int,
                col: col as int,
                tag: tag_view(tag),
            },
            YamlEvent::SequenceStart { tag } => EventModel::SequenceStart { tag: tag_view(tag) },
            YamlEvent::SequenceEnd => EventModel::SequenceEnd,
            YamlEvent::MappingStart => EventModel::MappingStart,
            YamlEvent::MappingEnd => EventModel::MappingEnd,
            YamlEvent::Alias => EventModel::Alias,
            YamlEvent::Boundary => EventModel::Boundary,
        }
    }
}

pub open spec fn events_view(events: Seq<YamlEvent>) -> Seq<EventModel> {
    events.map_values(|event: YamlEvent| event@)
}

/// `yaml_rust2::parser::Event`, only passed on.
#[verifier::external_type_specification]
#[verifier::external_body]
pub struct ExEvent(yaml_rust2::parser::Event);

/// `yaml_rust2::scanner::Marker`, only passed on.
#[verifier::external_type_specification]
#[verifier::external_body]
pub struct ExMarker(yaml_rust2::scanner::Marker);

/// Receives the parser's events and keeps them.
pub struct EventLog {
    pub events: Vec<YamlEvent>,
}

impl MarkedEventReceiver for EventLog {
    /// Turns a `yaml_rust2` event and its marker into plain data, one for one,
    /// and appends it.
    #[verifier::external_body]
    fn on_event(&mut self, event: Event, mark: Marker) {
        self.events.push(match event {
            Event::Scalar(value, style, _, tag) => YamlEvent::Scalar { value, style: match style {
                TScalarStyle::Plain => ScalarStyle::Plain,
                TScalarStyle::SingleQuoted => ScalarStyle::SingleQuoted,
                TScalarStyle::DoubleQuoted => ScalarStyle::DoubleQuoted,
                TScalarStyle::Literal => ScalarStyle::Literal,
                TScalarStyle::Folded => ScalarStyle::Folded,
            }, line: mark.line(), col: mark.col(), tag: tag.map(|t| (t.handle, t.suffix)) },
            Event::SequenceStart(_, tag) => YamlEvent::SequenceStart { tag: tag.map(|t| (t.handle, t.suffix)) },
            Event::SequenceEnd => YamlEvent::SequenceEnd,
            Event::MappingStart(..) => YamlEvent::MappingStart,
            Event::MappingEnd => YamlEvent::MappingEnd,
            Event::Alias(_) => YamlEvent::Alias,
            _ => YamlEvent::Boundary,
        });
    }
}

/// Whether a scalar is at most at the given column.
pub open spec fn column_within(event: EventModel, limit: nat) -> bool {
    event matches EventModel::Scalar { col, .. } ==> col <= limit
}

/// The events that `yaml_rust2::parser::Parser::load` reports for a text, all
/// documents of it, up to the end or to the first error.
pub uninterp spec fn yaml_events(text: Seq<char>) -> Seq<EventModel>;

/// Calls `yaml_rust2::parser::Parser::load` on the whole text, with an
/// `EventLog` as the receiver. The events are those that the parser reports
/// for this text; an error only ends them. The parser calls itself once per
/// level of nesting: how deep a text may nest is left to the stack.
///
/// Columns are bounded by the text: the scanner adds one for each character
/// that it consumes on a line, or the bytes of the character inside a block
/// scalar, and a character has at most four bytes.
#[verifier::external_body]
pub(crate) fn load_events(text: &str) -> (events: Vec<YamlEvent>)
    ensures
        events_view(events@) == yaml_events(text@),
        forall|i: int|
            0 <= i < events@.len() ==> column_within(#[trigger] events@[i]@, 4 * text@.len()),
{
    let mut log = EventLog { events: Vec::new() };
    let _ = Parser::new_from_str(text).load(&mut log, true);
    log.events
}

// ---------------------------------------------------------------------------
// Documents
// ---------------------------------------------------------------------------

/// A loaded YAML value, as far as the library looks at it.
#[derive(Debug)]
pub enum YamlNode {
    Null,
    Text(String),
    Mapping(Vec<(YamlNode, YamlNode)>),
    /// A value that its tag does not fit, or that does not exist.
    Bad,
    /// A number, a boolean, a sequence or an alias.
    Other,
}

/// What a loaded YAML value is.
pub enum YamlModel {
    Null,
    Text(Seq<char>),
    Mapping(Seq<(YamlModel, YamlModel)>),
    Bad,
    Other,
}

impl YamlNode {
    pub open spec fn view(&self) -> YamlModel
        decreases *self,
    {
        match *self {
            YamlNode::Null => YamlModel::Null,
            YamlNode::Text(s) => YamlModel::Text(s@),
            YamlNode::Mapping(entries) => YamlModel::Mapping(
                Seq::new(
                    entries@.len(),
                    |i: int|
                        if 0 <= i < entries@.len() {
                            (entries@[i].0.view(), entries@[i].1.view())
                        } else {
                            arbitrary()
                        },
                ),
            ),
            YamlNode::Bad => YamlModel::Bad,
            YamlNode::Other => YamlModel::Other,
        }
    }
}

pub open spec fn nodes_view(nodes: Seq<YamlNode>) -> Seq<YamlModel> {
    nodes.map_values(|node: YamlNode| node@)
}

/// The result of loading a text: its documents, or nothing when it is not YAML.
pub open spec fn docs_view(docs: Option<Vec<YamlNode>>) -> Option<Seq<YamlModel>> {
    match docs {
        Some(docs) => Some(nodes_view(docs@)),
        None => None,
    }
}

/// `yaml_rust2::Yaml`.
#[verifier::external_type_specification]
#[verifier::external_body]
pub struct ExYaml(yaml_rust2::Yaml);

/// What a `yaml_rust2::Yaml` holds: a mapping holds its entries in the order
/// in which they were inserted, each key once.
pub uninterp spec fn yaml_model(value: Yaml) -> YamlModel;

/// The outermost layer of a `yaml_rust2::Yaml`.
pub enum YamlLayer {
    Null,
    Text(String),
    Mapping(Vec<(Yaml, Yaml)>),
    Bad,
    Other,
}

/// The layer that `open_yaml` finds in a value.
pub open spec fn layer_of(layer: YamlLayer, value: YamlModel) -> bool {
    match layer {
        YamlLayer::Null => value is Null,
        YamlLayer::Text(s) => value == YamlModel::Text(s@),
        YamlLayer::Mapping(entries) => {
            &&& value is Mapping
            &&& value->Mapping_0.len() == entries@.len()
            &&& forall|i: int|
                #![trigger entries@[i]]
                #![trigger value->Mapping_0[i]]
                0 <= i < entries@.len() ==> value->Mapping_0[i] == (
                    yaml_model(entries@[i].0),
                    yaml_model(entries@[i].1),
                )
        },
        YamlLayer::Bad => value is Bad,
        YamlLayer::Other => value is Other,
    }
}

/// Tells the variants of `yaml_rust2::Yaml` apart and takes the value out of
/// the ones that the library looks at. A `Yaml::Hash` gives its entries in the
/// order in which `hashlink::LinkedHashMap` walks them.
#[verifier::external_body]
pub(crate) fn open_yaml(value: Yaml) -> (layer: YamlLayer)
    ensures
        layer_of(layer, yaml_model(value)),
{
    match value {
        Yaml::Null => YamlLayer::Null,
        Yaml::String(s) => YamlLayer::Text(s),
        Yaml::Hash(entries) => YamlLayer::Mapping(entries.into_iter().collect()),
        Yaml::BadValue => YamlLayer::Bad,
        Yaml::Real(_) => YamlLayer::Other,
        Yaml::Integer(_) => YamlLayer::Other,
        Yaml::Boolean(_) => YamlLayer::Other,
        Yaml::Array(_) => YamlLayer::Other,
        Yaml::Alias(_) => YamlLayer::Other,
    }
}

/// The documents that `yaml_rust2::YamlLoader::load_from_str` loads from a
/// text; nothing when it reports an error.
pub uninterp spec fn yaml_documents(text: Seq<char>) -> Option<Seq<YamlModel>>;

/// Calls `yaml_rust2::YamlLoader::load_from_str`. The result is what it loads
/// from this text, or nothing when it reports an error. As in `load_events`,
/// how deep a text may nest is left to the stack.
#[verifier::external_body]
pub(crate) fn load_yaml(text: &str) -> (docs: Option<Vec<Yaml>>)
    ensures
        yaml_documents(text@) == (match docs {
            Some(docs) => Some(docs@.map_values(|doc: Yaml| yaml_model(doc))),
            None => None,
        }),
{
    YamlLoader::load_from_str(text).ok()
}

/// A loaded value as plain data.
fn node_of(value: Yaml) -> (r: YamlNode)
    ensures
        r@ == yaml_model(value),
    decreases yaml_model(value),
{
    let ghost model = yaml_model(value);
    match open_yaml(value) {
        YamlLayer::Null => YamlNode::Null,
        YamlLayer::Text(s) => YamlNode::Text(s),
        YamlLayer::Mapping(entries) => {
            let mut rest = entries;
            let mut out: Vec<(YamlNode, YamlNode)> = Vec::new();
            let ghost all = rest@;
            while rest.len() > 0
                invariant
                    model == yaml_model(value),
                    model is Mapping,
                    model->Mapping_0.len() == all.len(),
                    forall|i: int|
                        #![trigger all[i]]
                        0 <= i < all.len() ==> model->Mapping_0[i] == (
                            yaml_model(all[i].0),
                            yaml_model(all[i].1),
                        ),
                    out@.len() + rest@.len() == all.len(),
                    rest@ == all.skip(out@.len() as int),
                    forall|i: int|
                        0 <= i < out@.len() ==> ((#[trigger] out@[i]).0@, out@[i].1@)
                            == model->Mapping_0[i],
                decreases rest@.len(),
            {
                let ghost at = out@.len() as int;
                let (first, second) = rest.remove(0);
                proof {
                    assert(all[at] == (first, second));
                    assert(model->Mapping_0[at] == (yaml_model(first), yaml_model(second)));
                    assert(decreases_to!(model => model->Mapping_0));
                    assert(decreases_to!(model->Mapping_0 => model->Mapping_0[at]));
                    assert(decreases_to!(model->Mapping_0[at] => model->Mapping_0[at].0));
                    assert(decreases_to!(model->Mapping_0[at] => model->Mapping_0[at].1));
                }
                let key = node_of(first);
                let item = node_of(second);
                out.push((key, item));
                assert(rest@ =~= all.skip(out@.len() as int));
            }
            proof {
                let r = YamlNode::Mapping(out);
                assert(r@->Mapping_0 =~= model->Mapping_0);
            }
            YamlNode::Mapping(out)
        },
        YamlLayer::Bad => YamlNode::Bad,
        YamlLayer::Other => YamlNode::Other,
    }
}

/// The documents of a text, or nothing when it is not YAML.
pub fn load_documents(text: &str) -> (r: Option<Vec<YamlNode>>)
    ensures
        docs_view(r) == yaml_documents(text@),
{
    match load_yaml(text) {
        None => None,
        Some(docs) => {
            let mut rest = docs;
            let mut out: Vec<YamlNode> = Vec::new();
            let ghost all = rest@;
            while rest.len() > 0
                invariant
                    out@.len() + rest@.len() == all.len(),
                    rest@ == all.skip(out@.len() as int),
                    forall|i: int|
                        0 <= i < out@.len() ==> (#[trigger] out@[i])@ == yaml_model(all[i]),
                decreases rest@.len(),
            {
                let doc = rest.remove(0);
                out.push(node_of(doc));
                assert(rest@ =~= all.skip(out@.len() as int));
            }
            assert(nodes_view(out@) =~= all.map_values(|doc: Yaml| yaml_model(doc)));
            Some(out)
        },
    }
}


pub open spec fn has_text_key(key: Seq<char>) -> spec_fn((YamlModel, YamlModel)) -> bool {
    |entry: (YamlModel, YamlModel)| entry.0 == YamlModel::Text(key)
}

/// The value of the string `key` in a mapping; a bad value when there is none.
pub open spec fn yaml_at(value: YamlModel, key: Seq<char>) -> YamlModel {
    match value {
        YamlModel::Mapping(entries) => match first_index(entries, has_text_key(key)) {
            Some(i) => entries[i].1,
            None => YamlModel::Bad,
        },
        _ => YamlModel::Bad,
    }
}

impl YamlNode {
    /// The value of the string `key` in a mapping; a bad value when there is none.
    pub fn at(&self, key: &str) -> (r: &YamlNode)
        ensures
            r@ == yaml_at(self@, key@),
    {
        match self {
            YamlNode::Mapping(entries) => {
                let ghost models = self@->Mapping_0;
                let mut i: usize = 0;
                while i < entries.len()
                    invariant
                        i <= entries@.len() == models.len(),
                        self@ == YamlModel::Mapping(models),
                        forall|k: int|
                            0 <= k < models.len() ==> #[trigger] models[k] == (
                                entries@[k].0@,
                                entries@[k].1@,
                            ),
                        forall|k: int|
                            0 <= k < i ==> !has_text_key(key@)(#[trigger] models[k]),
                    decreases entries@.len() - i,
                {
                    let ghost entry = models[i as int];
                    if let YamlNode::Text(text) = &entries[i].0 {
                        if same_text(text.as_str(), key) {
                            proof {
                                lemma_first_from_is(models, has_text_key(key@), 0, i as int);
                            }
                            return &entries[i].1;
                        }
                    }
                    i = i + 1;
                }
                proof {
                    lemma_first_from(models, has_text_key(key@), 0);
                }
                &YamlNode::Bad
            },
            _ => &YamlNode::Bad,
        }
    }

    /// A copy of the value.
    pub fn duplicate(&self) -> (r: YamlNode)
        ensures
            r@ == self@,
        decreases self,
    {
        match self {
            YamlNode::Null => YamlNode::Null,
            YamlNode::Text(text) => YamlNode::Text(text.clone()),
            YamlNode::Mapping(entries) => {
                let mut copy: Vec<(YamlNode, YamlNode)> = Vec::new();
                let mut i: usize = 0;
                while i < entries.len()
                    invariant
                        i <= entries@.len(),
                        *self == YamlNode::Mapping(*entries),
                        copy@.len() == i,
                        forall|k: int|
                            #![trigger copy@[k]]
                            #![trigger entries@[k]]
                            0 <= k < i ==> copy@[k].0@ == entries@[k].0@ && copy@[k].1@
                                == entries@[k].1@,
                    decreases entries@.len() - i,
                {
                    proof {
                        assert(decreases_to!(*self => (*self)->Mapping_0));
                        assert(decreases_to!((*self)->Mapping_0 => (*self)->Mapping_0@));
                        assert(decreases_to!(entries@ => entries@[i as int]));
                        assert(decreases_to!(entries@[i as int] => entries@[i as int].0));
                        assert(decreases_to!(entries@[i as int] => entries@[i as int].1));
                    }
                    let key = entries[i].0.duplicate();
                    let value = entries[i].1.duplicate();
                    copy.push((key, value));
                    i = i + 1;
                }
                let r = YamlNode::Mapping(copy);
                assert(r@->Mapping_0 =~= self@->Mapping_0);
                r
            },
            YamlNode::Bad => YamlNode::Bad,
            YamlNode::Other => YamlNode::Other,
        }
    }

    pub fn is_mapping(&self) -> (r: bool)
        ensures
            r == (self@ is Mapping),
    {
        match self {
            YamlNode::Mapping(_) => true,
            _ => false,
        }
    }

    pub fn is_null(&self) -> (r: bool)
        ensures
            r == (self@ is Null),
    {
        match self {
            YamlNode::Null => true,
            _ => false,
        }
    }

    pub fn is_bad(&self) -> (r: bool)
        ensures
            r == (self@ is Bad),
    {
        match self {
            YamlNode::Bad => true,
            _ => false,
        }
    }
}

/// A key leads to the value of the first entry that has it as its text; without
/// such an entry, and outside of mappings, there is a bad value.
pub proof fn law_yaml_keys_lead_to_their_values(
    value: YamlModel,
    entries: Seq<(YamlModel, YamlModel)>,
    key: Seq<char>,
    i: int,
)
    ensures
        value == YamlModel::Mapping(entries) && 0 <= i < entries.len() && entries[i].0
            == YamlModel::Text(key) && (forall|k: int|
            0 <= k < i ==> (#[trigger] entries[k]).0 != YamlModel::Text(key)) ==> yaml_at(
            value,
            key,
        ) == entries[i].1,
        value == YamlModel::Mapping(entries) && (forall|k: int|
            0 <= k < entries.len() ==> (#[trigger] entries[k]).0 != YamlModel::Text(key))
            ==> yaml_at(value, key) is Bad,
        !(value is Mapping) ==> yaml_at(value, key) is Bad,
{
    lemma_first_from(entries, has_text_key(key), 0);
    if let Some(found) = first_index(entries, has_text_key(key)) {
        assert(has_text_key(key)(entries[found]));
    }
    if 0 <= i < entries.len() && entries[i].0 == YamlModel::Text(key) && (forall|k: int|
        0 <= k < i ==> (#[trigger] entries[k]).0 != YamlModel::Text(key)) {
        assert(has_text_key(key)(entries[i]));
        lemma_first_from_is(entries, has_text_key(key), 0, i);
    }
}

} // verus!
