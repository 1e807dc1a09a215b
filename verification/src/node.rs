//! The node tree of a YAML file, built from the parser's events.

use vstd::prelude::*;

use crate::seqs::{first_from, first_index};
use crate::text::same_text;
use crate::yaml::{tag_view, EventModel, ScalarStyle, YamlEvent};

verus! {

// ---------------------------------------------------------------------------
// Marks
// ---------------------------------------------------------------------------

/// Whether a column leaves room for the columns of the content behind it.
pub open spec fn column_fits(col: int) -> bool {
    col < isize::MAX - 1
}

/// Whether a scalar's mark is at a column that a line can have.
pub open spec fn event_fits(event: EventModel) -> bool {
    event matches EventModel::Scalar { col, .. } ==> column_fits(col)
}

/// Where the parser found a scalar: a line, counted from one, and a column.
#[derive(Clone, Copy, Debug)]
pub struct Mark {
    line: usize,
    col: usize,
}

impl Mark {
    #[verifier::type_invariant]
    spec fn in_range(self) -> bool {
        column_fits(self.col as int)
    }

    pub closed spec fn line_no(self) -> int {
        self.line as int
    }

    pub closed spec fn column_no(self) -> int {
        self.col as int
    }

    pub fn new(line: usize, col: usize) -> (r: Self)
        requires
            column_fits(col as int),
        ensures
            r.line_no() == line,
            r.column_no() == col,
    {
        Mark { line, col }
    }

    pub fn line(&self) -> (r: usize)
        ensures
            r == self.line_no(),
    {
        self.line
    }

    pub fn col(&self) -> (r: usize)
        ensures
            r == self.column_no(),
            column_fits(r as int),
    {
        proof {
            use_type_invariant(self);
        }
        self.col
    }
}

// ---------------------------------------------------------------------------
// Nodes
// ---------------------------------------------------------------------------

/// A YAML node. `reference` tells that the node has a `!reference` tag.
#[derive(Debug)]
pub enum Node {
    Scalar { value: String, style: ScalarStyle, mark: Mark, reference: bool },
    Sequence { items: Vec<Node>, reference: bool },
    Mapping(Vec<(Node, Node)>),
    Alias,
}

/// What a YAML node is.
pub enum NodeModel {
    Scalar { value: Seq<char>, style: ScalarStyle, line: int, col: int, reference: bool },
    Sequence { items: Seq<NodeModel>, reference: bool },
    Mapping(Seq<(NodeModel, NodeModel)>),
    Alias,
}

impl Node {
    pub open spec fn view(&self) -> NodeModel
        decreases *self,
    {
        match *self {
            Node::Scalar { value, style, mark, reference } => NodeModel::Scalar {
                value: value@,
                style,
                line: mark.line_no(),
                col: mark.column_no(),
                reference,
            },
            Node::Sequence { items, reference } => NodeModel::Sequence {
                items: Seq::new(
                    items@.len(),
                    |i: int|
                        if 0 <= i < items@.len() {
                            items@[i].view()
                        } else {
                            arbitrary()
                        },
                ),
                reference,
            },
            Node::Mapping(entries) => NodeModel::Mapping(
                Seq::new(
                    entries@.len(),
                    |i: int|
                        if 0 <= i < entries@.len() {
                            (entries@[i].0.view(), entries@[i].1.view())
                        } else {
                            arbitrary()
                        },
                ),
            ),
            Node::Alias => NodeModel::Alias,
        }
    }

    /// The text of a scalar.
    pub fn as_str(&self) -> (r: Option<&str>)
        ensures
            match r {
                Some(s) => node_text(self@) == Some(s@),
                None => node_text(self@) is None,
            },
    {
        match self {
            Node::Scalar { value, .. } => Some(value.as_str()),
            _ => None,
        }
    }

    /// The value of the first entry of a mapping whose key is the scalar `key`.
    pub fn get(&self, key: &str) -> (r: Option<&Node>)
        ensures
            match r {
                Some(node) => node_get(self@, key@) == Some(node@),
                None => node_get(self@, key@) is None,
            },
    {
        match self {
            Node::Mapping(entries) => {
                let ghost model = self@->Mapping_0;
                let mut i: usize = 0;
                while i < entries.len()
                    invariant
                        i <= entries@.len() == model.len(),
                        self@ == NodeModel::Mapping(model),
                        forall|k: int|
                            0 <= k < entries@.len() ==> #[trigger] model[k] == (
                                entries@[k].0@,
                                entries@[k].1@,
                            ),
                        first_from(model, has_key(key@), i as int) == first_index(
                            model,
                            has_key(key@),
                        ),
                    decreases entries@.len() - i,
                {
                    if let Some(text) = entries[i].0.as_str() {
                        if same_text(text, key) {
                            assert(has_key(key@)(model[i as int]));
                            return Some(&entries[i].1);
                        }
                    }
                    assert(!has_key(key@)(model[i as int]));
                    i = i + 1;
                }
                None
            },
            _ => None,
        }
    }
}

pub open spec fn nodes_model(nodes: Seq<Node>) -> Seq<NodeModel> {
    nodes.map_values(|node: Node| node@)
}

pub open spec fn entries_model(entries: Seq<(Node, Node)>) -> Seq<(NodeModel, NodeModel)> {
    entries.map_values(|entry: (Node, Node)| (entry.0@, entry.1@))
}

/// The text of a scalar.
pub open spec fn node_text(node: NodeModel) -> Option<Seq<char>> {
    match node {
        NodeModel::Scalar { value, .. } => Some(value),
        _ => None,
    }
}

pub open spec fn has_key(key: Seq<char>) -> spec_fn((NodeModel, NodeModel)) -> bool {
    |entry: (NodeModel, NodeModel)| node_text(entry.0) == Some(key)
}

/// The value of the first entry of a mapping whose key is the scalar `key`.
pub open spec fn node_get(node: NodeModel, key: Seq<char>) -> Option<NodeModel> {
    match node {
        NodeModel::Mapping(entries) => match first_index(entries, has_key(key)) {
            Some(i) => Some(entries[i].1),
            None => None,
        },
        _ => None,
    }
}

// ---------------------------------------------------------------------------
// Building the tree
// ---------------------------------------------------------------------------

/// A collection that is still open.
#[derive(Debug)]
pub enum Frame {
    Sequence { items: Vec<Node>, reference: bool },
    Mapping { entries: Vec<(Node, Node)>, key: Option<Node> },
}

pub enum FrameModel {
    Sequence { items: Seq<NodeModel>, reference: bool },
    Mapping { entries: Seq<(NodeModel, NodeModel)>, key: Option<NodeModel> },
}

impl Frame {
    pub open spec fn view(&self) -> FrameModel {
        match *self {
            Frame::Sequence { items, reference } => FrameModel::Sequence {
                items: nodes_model(items@),
                reference,
            },
            Frame::Mapping { entries, key } => FrameModel::Mapping {
                entries: entries_model(entries@),
                key: match key {
                    Some(node) => Some(node@),
                    None => None,
                },
            },
        }
    }
}

/// The collections that are open, outermost first, and the finished documents.
pub struct BuilderModel {
    pub stack: Seq<FrameModel>,
    pub documents: Seq<NodeModel>,
}

/// A finished node goes into the innermost open collection. In a mapping it is
/// a key, or the value of the key before it. Outside of all collections it is
/// a document.
pub open spec fn with_node(b: BuilderModel, node: NodeModel) -> BuilderModel {
    if b.stack.len() == 0 {
        BuilderModel { stack: b.stack, documents: b.documents.push(node) }
    } else {
        let top = match b.stack.last() {
            FrameModel::Sequence { items, reference } => FrameModel::Sequence {
                items: items.push(node),
                reference,
            },
            FrameModel::Mapping { entries, key } => match key {
                Some(key) => FrameModel::Mapping { entries: entries.push((key, node)), key: None },
                None => FrameModel::Mapping { entries, key: Some(node) },
            },
        };
        BuilderModel { stack: b.stack.drop_last().push(top), documents: b.documents }
    }
}

/// The innermost open collection becomes a node. A key without a value is dropped.
pub open spec fn with_closed(b: BuilderModel) -> BuilderModel {
    if b.stack.len() == 0 {
        b
    } else {
        let node = match b.stack.last() {
            FrameModel::Sequence { items, reference } => NodeModel::Sequence { items, reference },
            FrameModel::Mapping { entries, .. } => NodeModel::Mapping(entries),
        };
        with_node(BuilderModel { stack: b.stack.drop_last(), documents: b.documents }, node)
    }
}

/// Whether a tag is `!reference`.
pub open spec fn is_reference_tag(tag: Option<(Seq<char>, Seq<char>)>) -> bool {
    tag matches Some((handle, suffix)) && handle == "!"@ && suffix == "reference"@
}

pub open spec fn with_event(b: BuilderModel, event: EventModel) -> BuilderModel {
    match event {
        EventModel::Scalar { value, style, line, col, tag } => with_node(
            b,
            NodeModel::Scalar { value, style, line, col, reference: is_reference_tag(tag) },
        ),
        EventModel::SequenceStart { tag } => BuilderModel {
            stack: b.stack.push(
                FrameModel::Sequence { items: Seq::empty(), reference: is_reference_tag(tag) },
            ),
            documents: b.documents,
        },
        EventModel::MappingStart => BuilderModel {
            stack: b.stack.push(FrameModel::Mapping { entries: Seq::empty(), key: None }),
            documents: b.documents,
        },
        EventModel::SequenceEnd => with_closed(b),
        EventModel::MappingEnd => with_closed(b),
        EventModel::Alias => with_node(b, NodeModel::Alias),
        EventModel::Boundary => b,
    }
}

/// What has been built after some events.
pub open spec fn built(events: Seq<EventModel>) -> BuilderModel
    decreases events.len(),
{
    if events.len() == 0 {
        BuilderModel { stack: Seq::empty(), documents: Seq::empty() }
    } else {
        with_event(built(events.drop_last()), events.last())
    }
}

/// The documents once all open collections are closed, innermost first.
pub open spec fn closed_documents(b: BuilderModel) -> Seq<NodeModel>
    decreases b.stack.len(),
{
    if b.stack.len() == 0 {
        b.documents
    } else {
        closed_documents(with_closed(b))
    }
}

/// The documents that the events describe. When the events end early, what is
/// open at that point counts as complete.
pub open spec fn documents_of(events: Seq<EventModel>) -> Seq<NodeModel> {
    closed_documents(built(events))
}

/// Builds the node tree from the parser's events.
#[derive(Debug)]
pub struct Builder {
    pub stack: Vec<Frame>,
    pub documents: Vec<Node>,
}

pub open spec fn frames_model(frames: Seq<Frame>) -> Seq<FrameModel> {
    frames.map_values(|frame: Frame| frame@)
}

impl Builder {
    pub open spec fn view(&self) -> BuilderModel {
        BuilderModel {
            stack: frames_model(self.stack@),
            documents: nodes_model(self.documents@),
        }
    }

    pub fn new() -> (r: Self)
        ensures
            r@ == built(Seq::empty()),
    {
        let r = Builder { stack: Vec::new(), documents: Vec::new() };
        assert(r@.stack =~= Seq::<FrameModel>::empty());
        assert(r@.documents =~= Seq::<NodeModel>::empty());
        r
    }

    pub fn push(&mut self, node: Node)
        ensures
            final(self)@ == with_node(old(self)@, node@),
    {
        let ghost before = self@;
        let ghost stack = self.stack@;
        match self.stack.pop() {
            None => {
                let ghost documents = self.documents@;
                self.documents.push(node);
                assert(self@.stack =~= before.stack);
                assert(self@.documents =~= before.documents.push(node@));
            },
            Some(frame) => {
                let top = match frame {
                    Frame::Sequence { mut items, reference } => {
                        let ghost items_before = items@;
                        items.push(node);
                        assert(nodes_model(items@) =~= nodes_model(items_before).push(node@));
                        Frame::Sequence { items, reference }
                    },
                    Frame::Mapping { mut entries, key } => match key {
                        Some(key) => {
                            let ghost entries_before = entries@;
                            let ghost pair = (key@, node@);
                            entries.push((key, node));
                            assert(entries_model(entries@) =~= entries_model(entries_before).push(
                                pair,
                            ));
                            Frame::Mapping { entries, key: None }
                        },
                        None => Frame::Mapping { entries, key: Some(node) },
                    },
                };
                let ghost rest = self.stack@;
                self.stack.push(top);
                proof {
                    assert(before.stack.drop_last() =~= frames_model(rest));
                    assert(before.stack.last() == frame@);
                    assert(self@.stack =~= before.stack.drop_last().push(top@));
                }
            },
        }
    }

    pub fn close(&mut self)
        ensures
            final(self)@ == with_closed(old(self)@),
    {
        let ghost before = self@;
        match self.stack.pop() {
            None => {},
            Some(frame) => {
                proof {
                    assert(before.stack.drop_last() =~= frames_model(self.stack@));
                    assert(before.stack.last() == frame@);
                }
                let node = match frame {
                    Frame::Sequence { items, reference } => {
                        let node = Node::Sequence { items, reference };
                        assert(node@->items =~= nodes_model(items@));
                        node
                    },
                    Frame::Mapping { entries, .. } => {
                        let node = Node::Mapping(entries);
                        assert(node@->Mapping_0 =~= entries_model(entries@));
                        node
                    },
                };
                self.push(node);
            },
        }
    }

    pub fn on_event(&mut self, event: YamlEvent)
        requires
            event_fits(event@),
        ensures
            final(self)@ == with_event(old(self)@, event@),
    {
        let ghost before = self@;
        match event {
            YamlEvent::Scalar { value, style, line, col, tag } => {
                let reference = is_reference(&tag);
                self.push(Node::Scalar { value, style, mark: Mark::new(line, col), reference });
            },
            YamlEvent::SequenceStart { tag } => {
                let frame = Frame::Sequence { items: Vec::new(), reference: is_reference(&tag) };
                assert(frame@->items =~= Seq::<NodeModel>::empty());
                self.stack.push(frame);
                assert(self@.stack =~= before.stack.push(frame@));
            },
            YamlEvent::MappingStart => {
                let frame = Frame::Mapping { entries: Vec::new(), key: None };
                assert(frame@->entries =~= Seq::<(NodeModel, NodeModel)>::empty());
                self.stack.push(frame);
                assert(self@.stack =~= before.stack.push(frame@));
            },
            YamlEvent::SequenceEnd => self.close(),
            YamlEvent::MappingEnd => self.close(),
            YamlEvent::Alias => self.push(Node::Alias),
            YamlEvent::Boundary => {},
        }
    }

    /// Closes everything that is still open and returns the documents.
    pub fn finish(self) -> (r: Vec<Node>)
        ensures
            nodes_model(r@) == closed_documents(self@),
    {
        let mut builder = self;
        while builder.stack.len() > 0
            invariant
                closed_documents(builder@) == closed_documents(self@),
            decreases builder.stack@.len(),
        {
            builder.close();
        }
        builder.documents
    }
}

/// Whether a tag is `!reference`.
pub fn is_reference(tag: &Option<(String, String)>) -> (r: bool)
    ensures
        r == is_reference_tag(tag_view(*tag)),
{
    match tag {
        Some((handle, suffix)) => same_text(handle.as_str(), "!") && same_text(
            suffix.as_str(),
            "reference",
        ),
        None => false,
    }
}


// ---------------------------------------------------------------------------
// Laws
// ---------------------------------------------------------------------------

/// What is built when more events come.
pub open spec fn built_on(b: BuilderModel, events: Seq<EventModel>) -> BuilderModel
    decreases events.len(),
{
    if events.len() == 0 {
        b
    } else {
        with_event(built_on(b, events.drop_last()), events.last())
    }
}

/// Building goes on from where it stopped.
pub proof fn lemma_built_on(before: Seq<EventModel>, more: Seq<EventModel>)
    ensures
        built(before + more) == built_on(built(before), more),
    decreases more.len(),
{
    if more.len() == 0 {
        assert(before + more =~= before);
    } else {
        lemma_built_on(before, more.drop_last());
        assert((before + more).drop_last() =~= before + more.drop_last());
    }
}

proof fn lemma_built_on_parts(b: BuilderModel, first: Seq<EventModel>, more: Seq<EventModel>)
    ensures
        built_on(b, first + more) == built_on(built_on(b, first), more),
    decreases more.len(),
{
    if more.len() == 0 {
        assert(first + more =~= first);
    } else {
        lemma_built_on_parts(b, first, more.drop_last());
        assert((first + more).drop_last() =~= first + more.drop_last());
    }
}

pub open spec fn tag_of(reference: bool) -> Option<(Seq<char>, Seq<char>)> {
    if reference {
        Some(("!"@, "reference"@))
    } else {
        None
    }
}

/// The events that describe a node.
pub open spec fn events_of(node: NodeModel) -> Seq<EventModel>
    decreases node,
{
    match node {
        NodeModel::Scalar { value, style, line, col, reference } => seq![
            EventModel::Scalar { value, style, line, col, tag: tag_of(reference) },
        ],
        NodeModel::Sequence { items, reference } => seq![
            EventModel::SequenceStart { tag: tag_of(reference) },
        ] + events_of_items(items) + seq![EventModel::SequenceEnd],
        NodeModel::Mapping(entries) => seq![EventModel::MappingStart] + events_of_entries(entries)
            + seq![EventModel::MappingEnd],
        NodeModel::Alias => seq![EventModel::Alias],
    }
}

pub open spec fn events_of_items(items: Seq<NodeModel>) -> Seq<EventModel>
    decreases items,
{
    if items.len() == 0 {
        Seq::empty()
    } else {
        events_of_items(items.subrange(0, items.len() - 1)) + events_of(items[items.len() - 1])
    }
}

pub open spec fn events_of_entries(entries: Seq<(NodeModel, NodeModel)>) -> Seq<EventModel>
    decreases entries,
{
    if entries.len() == 0 {
        Seq::empty()
    } else {
        events_of_entries(entries.subrange(0, entries.len() - 1)) + events_of(
            entries[entries.len() - 1].0,
        ) + events_of(entries[entries.len() - 1].1)
    }
}

/// The events of a node add exactly that node, whatever is open when they come.
pub proof fn law_events_give_the_node_back(b: BuilderModel, node: NodeModel)
    ensures
        built_on(b, events_of(node)) == with_node(b, node),
    decreases node,
{
    match node {
        NodeModel::Scalar { value, style, line, col, reference } => {
            lemma_one_event(b, EventModel::Scalar { value, style, line, col, tag: tag_of(reference) });
        },
        NodeModel::Sequence { items, reference } => {
            let start = EventModel::SequenceStart { tag: tag_of(reference) };
            let inner = events_of_items(items);
            let opened = with_event(b, start);
            lemma_one_event(b, start);
            lemma_items_built(opened, items);
            lemma_built_on_parts(b, seq![start], inner);
            lemma_built_on_parts(b, seq![start] + inner, seq![EventModel::SequenceEnd]);
            let filled = built_on(b, seq![start] + inner);
            lemma_one_event(filled, EventModel::SequenceEnd);
            assert(Seq::<NodeModel>::empty() + items =~= items);
            assert(filled.stack.drop_last() =~= b.stack);
        },
        NodeModel::Mapping(entries) => {
            let start = EventModel::MappingStart;
            let inner = events_of_entries(entries);
            let opened = with_event(b, start);
            lemma_one_event(b, start);
            lemma_entries_built(opened, entries);
            lemma_built_on_parts(b, seq![start], inner);
            lemma_built_on_parts(b, seq![start] + inner, seq![EventModel::MappingEnd]);
            let filled = built_on(b, seq![start] + inner);
            lemma_one_event(filled, EventModel::MappingEnd);
            assert(Seq::<(NodeModel, NodeModel)>::empty() + entries =~= entries);
            assert(filled.stack.drop_last() =~= b.stack);
        },
        NodeModel::Alias => {
            lemma_one_event(b, EventModel::Alias);
        },
    }
}

proof fn lemma_one_event(b: BuilderModel, event: EventModel)
    ensures
        built_on(b, seq![event]) == with_event(b, event),
{
    assert(seq![event].drop_last() =~= Seq::<EventModel>::empty());
    reveal_with_fuel(built_on, 2);
}

proof fn lemma_items_built(b: BuilderModel, items: Seq<NodeModel>)
    requires
        b.stack.len() > 0,
        b.stack.last() is Sequence,
    ensures
        built_on(b, events_of_items(items)) == (BuilderModel {
            stack: b.stack.drop_last().push(
                FrameModel::Sequence {
                    items: b.stack.last()->items + items,
                    reference: b.stack.last()->reference,
                },
            ),
            documents: b.documents,
        }),
    decreases items,
{
    let before = b.stack.last()->items;
    if items.len() == 0 {
        assert(before + items =~= before);
        assert(b.stack.drop_last().push(b.stack.last()) =~= b.stack);
    } else {
        let head = items.subrange(0, items.len() - 1);
        let last = items[items.len() - 1];
        lemma_items_built(b, head);
        let mid = built_on(b, events_of_items(head));
        law_events_give_the_node_back(mid, last);
        lemma_built_on_parts(b, events_of_items(head), events_of(last));
        assert((before + head).push(last) =~= before + items);
        assert(mid.stack.drop_last() =~= b.stack.drop_last());
    }
}

proof fn lemma_entries_built(b: BuilderModel, entries: Seq<(NodeModel, NodeModel)>)
    requires
        b.stack.len() > 0,
        b.stack.last() is Mapping,
        b.stack.last()->key is None,
    ensures
        built_on(b, events_of_entries(entries)) == (BuilderModel {
            stack: b.stack.drop_last().push(
                FrameModel::Mapping { entries: b.stack.last()->entries + entries, key: None },
            ),
            documents: b.documents,
        }),
    decreases entries,
{
    let before = b.stack.last()->entries;
    if entries.len() == 0 {
        assert(before + entries =~= before);
        assert(b.stack.drop_last().push(b.stack.last()) =~= b.stack);
    } else {
        let head = entries.subrange(0, entries.len() - 1);
        let last = entries[entries.len() - 1];
        assert(decreases_to!(entries => entries[entries.len() - 1]));
        lemma_entries_built(b, head);
        let mid = built_on(b, events_of_entries(head));
        law_events_give_the_node_back(mid, last.0);
        let with_key = with_node(mid, last.0);
        law_events_give_the_node_back(with_key, last.1);
        lemma_built_on_parts(b, events_of_entries(head), events_of(last.0));
        lemma_built_on_parts(
            b,
            events_of_entries(head) + events_of(last.0),
            events_of(last.1),
        );
        assert((before + head).push(last) =~= before + entries);
        assert(mid.stack.drop_last() =~= b.stack.drop_last());
        assert(with_key.stack.drop_last() =~= b.stack.drop_last());
    }
}

/// A key of a mapping leads to the value of the first entry that has it as a
/// scalar, however the scalar is written.
pub proof fn law_keys_lead_to_their_values(
    entries: Seq<(NodeModel, NodeModel)>,
    key: Seq<char>,
    i: int,
)
    ensures
        0 <= i < entries.len() && (entries[i].0 matches NodeModel::Scalar { value, .. } && value
            == key) && (forall|k: int|
            0 <= k < i ==> !((#[trigger] entries[k]).0 matches NodeModel::Scalar { value, .. }
                && value == key)) ==> node_get(NodeModel::Mapping(entries), key) == Some(
            entries[i].1,
        ),
        (forall|k: int|
            0 <= k < entries.len() ==> !((#[trigger] entries[k]).0 matches NodeModel::Scalar {
                value,
                ..
            } && value == key)) ==> node_get(NodeModel::Mapping(entries), key) is None,
{
    crate::seqs::lemma_first_from(entries, has_key(key), 0);
    if let Some(found) = first_index(entries, has_key(key)) {
        assert(has_key(key)(entries[found]));
        assert(entries[found].0 is Scalar);
    }
    if 0 <= i < entries.len() && (entries[i].0 matches NodeModel::Scalar { value, .. } && value
        == key) && (forall|k: int|
        0 <= k < i ==> !((#[trigger] entries[k]).0 matches NodeModel::Scalar { value, .. } && value
            == key)) {
        assert(has_key(key)(entries[i]));
        crate::seqs::lemma_first_from_is(entries, has_key(key), 0, i);
    }
}

/// Only mappings have keys.
pub proof fn law_only_mappings_have_keys(node: NodeModel, key: Seq<char>)
    requires
        !(node is Mapping),
    ensures
        node_get(node, key) is None,
{
}

/// The events of documents, each between two boundaries.
pub open spec fn events_of_documents(documents: Seq<NodeModel>) -> Seq<EventModel>
    decreases documents.len(),
{
    if documents.len() == 0 {
        Seq::empty()
    } else {
        events_of_documents(documents.drop_last()) + seq![EventModel::Boundary] + events_of(
            documents.last(),
        ) + seq![EventModel::Boundary]
    }
}

/// The events of a file give back its documents, all of them and in order.
pub proof fn law_events_give_the_documents_back(documents: Seq<NodeModel>)
    ensures
        documents_of(events_of_documents(documents)) == documents,
{
    lemma_documents_built(documents);
}

proof fn lemma_documents_built(documents: Seq<NodeModel>)
    ensures
        built(events_of_documents(documents)) == (BuilderModel {
            stack: Seq::empty(),
            documents,
        }),
    decreases documents.len(),
{
    if documents.len() == 0 {
        assert(documents =~= Seq::<NodeModel>::empty());
    } else {
        let before = events_of_documents(documents.drop_last());
        let own = events_of(documents.last());
        let boundary = seq![EventModel::Boundary];
        let b = BuilderModel { stack: Seq::empty(), documents: documents.drop_last() };
        lemma_documents_built(documents.drop_last());
        lemma_built_on(before, boundary);
        lemma_one_event(b, EventModel::Boundary);
        lemma_built_on(before + boundary, own);
        law_events_give_the_node_back(b, documents.last());
        let all = BuilderModel { stack: Seq::empty(), documents };
        assert(documents.drop_last().push(documents.last()) =~= documents);
        assert(with_node(b, documents.last()) == all);
        lemma_built_on(before + boundary + own, boundary);
        lemma_one_event(all, EventModel::Boundary);
    }
}

/// Where the events stop, what is open counts as complete: the end of a
/// collection that is still open changes nothing.
pub proof fn law_open_collections_count_as_complete(events: Seq<EventModel>)
    requires
        built(events).stack.len() > 0,
    ensures
        documents_of(events) == documents_of(events.push(EventModel::SequenceEnd)),
        documents_of(events) == documents_of(events.push(EventModel::MappingEnd)),
{
    assert(events.push(EventModel::SequenceEnd).drop_last() =~= events);
    assert(events.push(EventModel::MappingEnd).drop_last() =~= events);
}

/// A value is a reference exactly when its tag is `!reference`.
pub proof fn law_only_reference_tags_make_references(
    b: BuilderModel,
    tag: Option<(Seq<char>, Seq<char>)>,
    value: Seq<char>,
    style: ScalarStyle,
    line: int,
    col: int,
)
    requires
        b.stack.len() == 0,
    ensures
        ({
            let scalar = with_event(b, EventModel::Scalar { value, style, line, col, tag });
            let opened = with_event(b, EventModel::SequenceStart { tag });
            let reference = tag == Some(("!"@, "reference"@));
            &&& scalar.documents == b.documents.push(
                NodeModel::Scalar { value, style, line, col, reference },
            )
            &&& opened.stack == seq![FrameModel::Sequence { items: Seq::empty(), reference }]
        }),
{
    assert(b.stack =~= Seq::<FrameModel>::empty());
    let opened = with_event(b, EventModel::SequenceStart { tag });
    assert(opened.stack =~= seq![opened.stack[0]]);
}

} // verus!
