//! Moves what bash-language-server answers about a virtual document into the
//! coordinates of the YAML file.

use vstd::prelude::*;

use crate::completion::{
    position_json, position_model, range_json, range_model, YAML_ITEM_MARKER,
};
use crate::json::{
    field, field_copy, field_or_null, index_of, items_view, with_default, with_field,
    without_field, Json, JsonModel,
};
use crate::script::{
    law_position_round_trip, lemma_position_bounds, offset_at, position_at, range_of, Script,
    ScriptModel,
};
use crate::source::{line_at, units_at, Pos, Source};
use crate::text::{lemma_utf16_len_bounds, utf16_len};

verus! {

/// A script and the lines of the file that it comes from.
pub struct OriginModel {
    pub script: ScriptModel,
    pub lines: Seq<Seq<char>>,
}

/// A script and the file that it comes from.
#[derive(Clone, Copy)]
pub struct Origin<'a> {
    pub script: &'a Script,
    pub source: &'a Source,
}

impl<'a> Origin<'a> {
    pub open spec fn view(&self) -> OriginModel {
        OriginModel { script: self.script@, lines: self.source@ }
    }
}

pub open spec fn origin_view(origin: Option<Origin>) -> Option<OriginModel> {
    match origin {
        Some(origin) => Some(origin@),
        None => None,
    }
}

// ---------------------------------------------------------------------------
// Ranges
// ---------------------------------------------------------------------------

/// The script offset of an LSP position.
pub open spec fn script_offset(text: Seq<char>, position: JsonModel) -> Option<int> {
    match (
        index_of(field_or_null(position, "line"@)),
        index_of(field_or_null(position, "character"@)),
    ) {
        (Some(line), Some(character)) => Some(offset_at(text, line, character)),
        _ => None,
    }
}

/// The LSP position of a place in the YAML file.
pub open spec fn lsp_position(lines: Seq<Seq<char>>, pos: Pos) -> JsonModel {
    position_model(pos.line as int, units_at(line_at(lines, pos.line as int), pos.col as int))
}

/// The YAML range of a range in a script.
pub open spec fn mapped_range(range: JsonModel, origin: OriginModel) -> Option<JsonModel> {
    match (
        script_offset(origin.script.text, field_or_null(range, "start"@)),
        script_offset(origin.script.text, field_or_null(range, "end"@)),
    ) {
        (Some(start), Some(end)) => match range_of(origin.script.map, start, end) {
            Some((from, to)) => Some(
                range_model(lsp_position(origin.lines, from), lsp_position(origin.lines, to)),
            ),
            None => None,
        },
        _ => None,
    }
}

fn offset_of_position(script: &Script, position: &Json) -> (r: Option<usize>)
    ensures
        match r {
            Some(offset) => script_offset(script@.text, position@) == Some(offset as int),
            None => script_offset(script@.text, position@) is None,
        },
{
    let line = match position.at("line").as_index() {
        Some(line) => line,
        None => return None,
    };
    let character = match position.at("character").as_index() {
        Some(character) => character,
        None => return None,
    };
    Some(script.offset(line, character))
}

fn position_of(source: &Source, pos: Pos) -> (r: Json)
    requires
        pos.col <= isize::MAX,
    ensures
        r@ == lsp_position(source@, pos),
{
    let line = source.line(pos.line);
    proof {
        lemma_utf16_len_bounds(line@);
        if pos.col <= line@.len() {
            lemma_utf16_len_bounds(line@.take(pos.col as int));
        }
    }
    position_json(pos.line, source.utf16_col(pos))
}

/// The YAML range of a range in a script.
pub fn map_range(range: &Json, script: &Script, source: &Source) -> (r: Option<Json>)
    ensures
        json_view(r) == mapped_range(
            range@,
            (OriginModel { script: script@, lines: source@ }),
        ),
{
    let start = match offset_of_position(script, range.at("start")) {
        Some(start) => start,
        None => return None,
    };
    let end = match offset_of_position(script, range.at("end")) {
        Some(end) => end,
        None => return None,
    };
    match script.source_range(start, end) {
        Some((from, to)) => Some(range_json(position_of(source, from), position_of(source, to))),
        None => None,
    }
}

pub open spec fn json_view(value: Option<Json>) -> Option<JsonModel> {
    match value {
        Some(value) => Some(value@),
        None => None,
    }
}

fn map_in(range: &Json, origin: &Option<Origin>) -> (r: Option<Json>)
    ensures
        json_view(r) == mapped_in(range@, origin_view(*origin)),
{
    match origin {
        Some(origin) => map_range(range, origin.script, origin.source),
        None => None,
    }
}

/// The YAML range of a range in a script that may be gone.
pub open spec fn mapped_in(range: JsonModel, origin: Option<OriginModel>) -> Option<JsonModel> {
    match origin {
        Some(origin) => mapped_range(range, origin),
        None => None,
    }
}

// ---------------------------------------------------------------------------
// Diagnostics
// ---------------------------------------------------------------------------

/// A diagnostic of a script in YAML coordinates; nothing when it has no place
/// there. Related information speaks of the script and is dropped.
pub open spec fn mapped_diagnostic(diagnostic: JsonModel, origin: OriginModel) -> Option<
    JsonModel,
> {
    match mapped_range(field_or_null(diagnostic, "range"@), origin) {
        Some(range) => Some(
            without_field(with_field(diagnostic, "range"@, range), "relatedInformation"@),
        ),
        None => None,
    }
}

/// The diagnostics that have a place in the YAML file.
pub open spec fn mapped_diagnostics(diagnostics: Seq<JsonModel>, origin: OriginModel) -> Seq<
    JsonModel,
>
    decreases diagnostics.len(),
{
    if diagnostics.len() == 0 {
        Seq::empty()
    } else {
        let before = mapped_diagnostics(diagnostics.drop_last(), origin);
        match mapped_diagnostic(diagnostics.last(), origin) {
            Some(diagnostic) => before.push(diagnostic),
            None => before,
        }
    }
}

/// Appends the diagnostics of a script, in YAML coordinates.
pub fn map_diagnostics(
    out: &mut Vec<Json>,
    diagnostics: &Vec<Json>,
    script: &Script,
    source: &Source,
)
    ensures
        items_view(final(out)@) == items_view(old(out)@) + mapped_diagnostics(
            items_view(diagnostics@),
            (OriginModel { script: script@, lines: source@ }),
        ),
{
    let ghost before = items_view(out@);
    let ghost all = items_view(diagnostics@);
    let ghost origin = OriginModel { script: script@, lines: source@ };
    let mut i: usize = 0;
    proof {
        assert(all.take(0) =~= Seq::<JsonModel>::empty());
        assert(before + Seq::<JsonModel>::empty() =~= before);
    }
    while i < diagnostics.len()
        invariant
            i <= diagnostics@.len(),
            all == items_view(diagnostics@),
            origin == (OriginModel { script: script@, lines: source@ }),
            items_view(out@) == before + mapped_diagnostics(all.take(i as int), origin),
        decreases diagnostics@.len() - i,
    {
        let ghost done = items_view(out@);
        proof {
            assert(all.take(i + 1).drop_last() =~= all.take(i as int));
            assert(all.take(i + 1).last() == diagnostics@[i as int]@);
        }
        if let Some(range) = map_range(diagnostics[i].at("range"), script, source) {
            let diagnostic = diagnostics[i].duplicate().with("range", range).without(
                "relatedInformation",
            );
            out.push(diagnostic);
            proof {
                assert(items_view(out@) =~= done.push(diagnostic@));
                assert(items_view(out@) =~= before + mapped_diagnostics(all.take(i + 1), origin));
            }
        }
        i = i + 1;
    }
    assert(all.take(i as int) =~= all);
}

// ---------------------------------------------------------------------------
// Hovers
// ---------------------------------------------------------------------------

/// A hover with its range in YAML coordinates. A range that has no place there
/// is dropped.
pub open spec fn mapped_hover(hover: JsonModel, origin: Option<OriginModel>) -> JsonModel {
    let rest = without_field(hover, "range"@);
    match field(hover, "range"@) {
        Some(range) => match mapped_in(range, origin) {
            Some(range) => with_field(rest, "range"@, range),
            None => rest,
        },
        None => rest,
    }
}

/// A hover with its range in YAML coordinates.
pub fn map_hover(hover: Json, origin: &Option<Origin>) -> (r: Json)
    ensures
        r@ == mapped_hover(hover@, origin_view(*origin)),
{
    let range = match hover.get("range") {
        Some(range) => map_in(range, origin),
        None => None,
    };
    let rest = hover.without("range");
    match range {
        Some(range) => rest.with("range", range),
        None => rest,
    }
}

// ---------------------------------------------------------------------------
// Completion items
// ---------------------------------------------------------------------------

/// A completion edit in YAML coordinates: one range, or one to insert at and
/// one to replace.
pub open spec fn mapped_edit(edit: JsonModel, origin: Option<OriginModel>) -> Option<JsonModel> {
    let new_text = field_or_null(edit, "newText"@);
    match field(edit, "range"@) {
        Some(range) => match mapped_in(range, origin) {
            Some(range) => Some(
                JsonModel::Object(map!["range"@ => range, "newText"@ => new_text]),
            ),
            None => None,
        },
        None => match (field(edit, "insert"@), field(edit, "replace"@)) {
            (Some(insert), Some(replace)) => match (
                mapped_in(insert, origin),
                mapped_in(replace, origin),
            ) {
                (Some(insert), Some(replace)) => Some(
                    JsonModel::Object(
                        map!["insert"@ => insert, "replace"@ => replace, "newText"@ => new_text],
                    ),
                ),
                _ => None,
            },
            _ => None,
        },
    }
}

/// A completion item with its edit in YAML coordinates. Edits that cannot be
/// mapped fall back to plain insert text; extra edits elsewhere in the script
/// are dropped.
pub open spec fn mapped_item(item: JsonModel, origin: Option<OriginModel>) -> JsonModel {
    let item = without_field(item, "additionalTextEdits"@);
    match field(item, "textEdit"@) {
        Some(edit) => {
            let rest = without_field(item, "textEdit"@);
            match mapped_edit(edit, origin) {
                Some(edit) => with_field(rest, "textEdit"@, edit),
                None => with_default(rest, "insertText"@, field_or_null(edit, "newText"@)),
            }
        },
        None => item,
    }
}

/// A completion item marked as one of yaml-language-server, unless it carries
/// data that cannot be marked.
pub open spec fn marked_item(item: JsonModel) -> JsonModel {
    let item = with_default(item, "data"@, JsonModel::Object(Map::empty()));
    match field(item, "data"@) {
        Some(JsonModel::Object(data)) => with_field(
            item,
            "data"@,
            JsonModel::Object(data.insert(YAML_ITEM_MARKER@, JsonModel::Bool(true))),
        ),
        _ => item,
    }
}

/// Where completion items come from.
pub enum TargetModel {
    /// A script, which may be gone by now.
    Script(Option<OriginModel>),
    Yaml,
}

pub enum ItemTarget<'a> {
    Script(Option<Origin<'a>>),
    Yaml,
}

impl<'a> ItemTarget<'a> {
    pub open spec fn view(&self) -> TargetModel {
        match *self {
            ItemTarget::Script(origin) => TargetModel::Script(origin_view(origin)),
            ItemTarget::Yaml => TargetModel::Yaml,
        }
    }
}

pub open spec fn item_for(item: JsonModel, target: TargetModel) -> JsonModel {
    match target {
        TargetModel::Script(origin) => mapped_item(item, origin),
        TargetModel::Yaml => marked_item(item),
    }
}

pub open spec fn items_for(items: Seq<JsonModel>, target: TargetModel) -> Seq<JsonModel> {
    items.map_values(|item: JsonModel| item_for(item, target))
}

/// A completion result, an array of items or a list, for the client.
pub open spec fn mapped_completion(completion: JsonModel, target: TargetModel) -> JsonModel {
    match completion {
        JsonModel::Array(items) => JsonModel::Array(items_for(items, target)),
        JsonModel::Object(_) => match field(completion, "items"@) {
            Some(JsonModel::Array(items)) => with_field(
                completion,
                "items"@,
                JsonModel::Array(items_for(items, target)),
            ),
            _ => completion,
        },
        _ => completion,
    }
}

fn map_edit(edit: &Json, origin: &Option<Origin>) -> (r: Option<Json>)
    ensures
        json_view(r) == mapped_edit(edit@, origin_view(*origin)),
{
    let new_text = field_copy(edit, "newText");
    match edit.get("range") {
        Some(range) => match map_in(range, origin) {
            Some(range) => Some(Json::object().with("range", range).with("newText", new_text)),
            None => None,
        },
        None => match (edit.get("insert"), edit.get("replace")) {
            (Some(insert), Some(replace)) => match (
                map_in(insert, origin),
                map_in(replace, origin),
            ) {
                (Some(insert), Some(replace)) => Some(
                    Json::object().with("insert", insert).with("replace", replace).with(
                        "newText",
                        new_text,
                    ),
                ),
                _ => None,
            },
            _ => None,
        },
    }
}

/// Moves a completion edit into YAML coordinates.
pub fn map_completion_item(item: Json, origin: &Option<Origin>) -> (r: Json)
    ensures
        r@ == mapped_item(item@, origin_view(*origin)),
{
    let item = item.without("additionalTextEdits");
    let (mapped, new_text) = match item.get("textEdit") {
        Some(edit) => (map_edit(edit, origin), field_copy(edit, "newText")),
        None => return item,
    };
    let rest = item.without("textEdit");
    match mapped {
        Some(edit) => rest.with("textEdit", edit),
        None => rest.with_missing("insertText", new_text),
    }
}

fn mark_item(item: Json) -> (r: Json)
    ensures
        r@ == marked_item(item@),
{
    let item = item.with_missing("data", Json::object());
    let data = match item.get("data") {
        Some(data) => if data.is_object() {
            data.duplicate().with(YAML_ITEM_MARKER, Json::Bool(true))
        } else {
            return item;
        },
        None => return item,
    };
    item.with("data", data)
}

fn map_items(items: &Vec<Json>, target: &ItemTarget) -> (r: Vec<Json>)
    ensures
        items_view(r@) == items_for(items_view(items@), target@),
{
    let ghost all = items_view(items@);
    let mut out: Vec<Json> = Vec::new();
    let mut i: usize = 0;
    while i < items.len()
        invariant
            i <= items@.len(),
            all == items_view(items@),
            items_view(out@) == items_for(all, target@).take(i as int),
        decreases items@.len() - i,
    {
        let ghost done = items_view(out@);
        let item = items[i].duplicate();
        let item = match target {
            ItemTarget::Script(origin) => map_completion_item(item, origin),
            ItemTarget::Yaml => mark_item(item),
        };
        out.push(item);
        proof {
            assert(items_view(out@) =~= done.push(item@));
            assert(done.push(item@) =~= items_for(all, target@).take(i + 1));
        }
        i = i + 1;
    }
    assert(items_for(all, target@).take(i as int) =~= items_for(all, target@));
    out
}

/// A completion result for the client.
pub fn map_completion(completion: Json, target: &ItemTarget) -> (r: Json)
    ensures
        r@ == mapped_completion(completion@, target@),
{
    if let Some(items) = completion.as_array() {
        return Json::array(map_items(items, target));
    }
    let items = match completion.get("items") {
        Some(found) => match found.as_array() {
            Some(items) => map_items(items, target),
            None => return completion,
        },
        None => return completion,
    };
    completion.with("items", Json::array(items))
}


// ---------------------------------------------------------------------------
// Laws
// ---------------------------------------------------------------------------

/// A diagnostic for the client has its range in the YAML file and says nothing
/// about other places in the script; all else of it is kept.
pub proof fn law_diagnostics_speak_of_the_file(
    diagnostic: Map<Seq<char>, JsonModel>,
    origin: OriginModel,
    key: Seq<char>,
)
    requires
        key != "range"@,
        key != "relatedInformation"@,
    ensures
        mapped_diagnostic(JsonModel::Object(diagnostic), origin) matches Some(mapped) ==> field(
            mapped,
            "range"@,
        ) == mapped_range(field_or_null(JsonModel::Object(diagnostic), "range"@), origin) && field(
            mapped,
            "relatedInformation"@,
        ) is None && field(mapped, key) == field(JsonModel::Object(diagnostic), key),
{
    reveal_strlit("range");
    reveal_strlit("relatedInformation");
    assert("range"@.len() != "relatedInformation"@.len());
}

/// No edit in script coordinates reaches the client: extra edits are dropped,
/// and the main edit is mapped, or gives way to plain insert text.
pub proof fn law_completion_edits_speak_of_the_file(
    item: Map<Seq<char>, JsonModel>,
    origin: Option<OriginModel>,
    edit: JsonModel,
)
    requires
        field(JsonModel::Object(item), "textEdit"@) == Some(edit),
    ensures
        ({
            let mapped = mapped_item(JsonModel::Object(item), origin);
            &&& field(mapped, "additionalTextEdits"@) is None
            &&& field(mapped, "textEdit"@) == mapped_edit(edit, origin)
            &&& mapped_edit(edit, origin) is None ==> field(mapped, "insertText"@) is Some
        }),
{
    reveal_strlit("additionalTextEdits");
    reveal_strlit("textEdit");
    reveal_strlit("insertText");
    assert("additionalTextEdits"@.len() != "textEdit"@.len());
    assert("additionalTextEdits"@.len() != "insertText"@.len());
    assert("textEdit"@.len() != "insertText"@.len());
}

/// Edits in a script that is gone cannot be mapped.
pub proof fn law_edits_of_gone_scripts_are_not_mapped(edit: JsonModel)
    ensures
        mapped_edit(edit, None) is None,
{
}

/// Items of yaml-language-server carry the marker.
pub proof fn law_yaml_items_are_marked(item: Map<Seq<char>, JsonModel>)
    requires
        field(JsonModel::Object(item), "data"@) matches Some(data) ==> data is Object,
    ensures
        field(marked_item(JsonModel::Object(item)), "data"@) matches Some(data) && field(
            data,
            YAML_ITEM_MARKER@,
        ) == Some(JsonModel::Bool(true)),
{
    let with_data = with_default(
        JsonModel::Object(item),
        "data"@,
        JsonModel::Object(Map::empty()),
    );
    assert(field(with_data, "data"@) matches Some(JsonModel::Object(_)));
}

/// A hover keeps all but its range, which is in the YAML file or not there.
pub proof fn law_hovers_speak_of_the_file(
    hover: Map<Seq<char>, JsonModel>,
    origin: Option<OriginModel>,
    key: Seq<char>,
)
    requires
        key != "range"@,
    ensures
        field(mapped_hover(JsonModel::Object(hover), origin), key) == field(
            JsonModel::Object(hover),
            key,
        ),
        field(mapped_hover(JsonModel::Object(hover), origin), "range"@) == (match field(
            JsonModel::Object(hover),
            "range"@,
        ) {
            Some(range) => mapped_in(range, origin),
            None => None,
        }),
{
}

proof fn lemma_position_parts(line: int, character: int, start: JsonModel, end: JsonModel)
    ensures
        field(position_model(line, character), "line"@) == Some(JsonModel::Integer(line)),
        field(position_model(line, character), "character"@) == Some(JsonModel::Integer(character)),
        field(range_model(start, end), "start"@) == Some(start),
        field(range_model(start, end), "end"@) == Some(end),
{
    reveal_strlit("line");
    reveal_strlit("character");
    reveal_strlit("start");
    reveal_strlit("end");
    assert("line"@.len() != "character"@.len());
    assert("start"@.len() != "end"@.len());
}

/// A place in the file is told by its line and by the UTF-16 code units before
/// it in that line.
pub proof fn law_places_are_told_in_utf16(lines: Seq<Seq<char>>, pos: Pos)
    requires
        pos.line < lines.len(),
        pos.col <= lines[pos.line as int].len(),
    ensures
        field(lsp_position(lines, pos), "line"@) == Some(JsonModel::Integer(pos.line as int)),
        field(lsp_position(lines, pos), "character"@) == Some(
            JsonModel::Integer(utf16_len(lines[pos.line as int].take(pos.col as int)) as int),
        ),
{
    let line = line_at(lines, pos.line as int);
    lemma_position_parts(
        pos.line as int,
        units_at(line, pos.col as int),
        JsonModel::Null,
        JsonModel::Null,
    );
}

/// A range between two places of a script is moved to what the script's map
/// says of the characters between them.
pub proof fn law_script_ranges_become_file_ranges(origin: OriginModel, start: int, end: int)
    requires
        0 <= start <= origin.script.text.len(),
        0 <= end <= origin.script.text.len(),
        2 * origin.script.text.len() <= usize::MAX,
    ensures
        ({
            let text = origin.script.text;
            let (line, units) = position_at(text, start);
            let (end_line, end_units) = position_at(text, end);
            let range = range_model(
                position_model(line, units),
                position_model(end_line, end_units),
            );
            match range_of(origin.script.map, start, end) {
                Some((from, to)) => mapped_range(range, origin) matches Some(mapped) && field(
                    mapped,
                    "start"@,
                ) == Some(lsp_position(origin.lines, from)) && field(mapped, "end"@) == Some(
                    lsp_position(origin.lines, to),
                ),
                None => mapped_range(range, origin) is None,
            }
        }),
{
    let text = origin.script.text;
    let (line, units) = position_at(text, start);
    let (end_line, end_units) = position_at(text, end);
    law_position_round_trip(text, start);
    law_position_round_trip(text, end);
    lemma_position_bounds(text, start);
    lemma_position_bounds(text, end);
    lemma_position_parts(
        line,
        units,
        position_model(line, units),
        position_model(end_line, end_units),
    );
    lemma_position_parts(end_line, end_units, JsonModel::Null, JsonModel::Null);
    assert(script_offset(text, position_model(line, units)) == Some(start));
    assert(script_offset(text, position_model(end_line, end_units)) == Some(end));
    if let Some((from, to)) = range_of(origin.script.map, start, end) {
        lemma_position_parts(0, 0, lsp_position(origin.lines, from), lsp_position(origin.lines, to));
    }
}

/// Something without a start or an end, or with one that is no position, is no
/// range.
pub proof fn law_only_ranges_are_moved(range: JsonModel, origin: OriginModel, key: Seq<char>)
    requires
        key == "start"@ || key == "end"@,
        index_of(field_or_null(field_or_null(range, key), "line"@)) is None || index_of(
            field_or_null(field_or_null(range, key), "character"@),
        ) is None,
    ensures
        mapped_range(range, origin) is None,
        mapped_in(range, Some(origin)) is None,
{
}

/// The diagnostics of a script stay in their order, and one is dropped if and
/// only if its range has no place in the file.
pub proof fn law_diagnostics_stay_in_order(
    diagnostics: Seq<JsonModel>,
    diagnostic: JsonModel,
    origin: OriginModel,
)
    ensures
        mapped_diagnostics(Seq::empty(), origin) == Seq::<JsonModel>::empty(),
        mapped_range(field_or_null(diagnostic, "range"@), origin) is None ==> mapped_diagnostics(
            diagnostics.push(diagnostic),
            origin,
        ) == mapped_diagnostics(diagnostics, origin),
        mapped_range(field_or_null(diagnostic, "range"@), origin) is Some ==> ({
            let all = mapped_diagnostics(diagnostics.push(diagnostic), origin);
            &&& all.len() == mapped_diagnostics(diagnostics, origin).len() + 1
            &&& all.drop_last() == mapped_diagnostics(diagnostics, origin)
            &&& Some(all.last()) == mapped_diagnostic(diagnostic, origin)
        }),
{
    let all = diagnostics.push(diagnostic);
    assert(all.drop_last() =~= diagnostics);
    assert(all.last() == diagnostic);
    let before = mapped_diagnostics(diagnostics, origin);
    if let Some(mapped) = mapped_diagnostic(diagnostic, origin) {
        assert(before.push(mapped).drop_last() =~= before);
    }
}

/// A hover that is no object, such as null, stays as it is.
pub proof fn law_empty_hovers_stay(hover: JsonModel, origin: Option<OriginModel>)
    requires
        !(hover is Object),
    ensures
        mapped_hover(hover, origin) == hover,
{
}

/// The keys of completion items and edits are different texts.
proof fn lemma_item_keys()
    ensures
        "additionalTextEdits"@ != "textEdit"@,
        "additionalTextEdits"@ != "insertText"@,
        "textEdit"@ != "insertText"@,
        "range"@ != "newText"@,
        "insert"@ != "newText"@,
        "replace"@ != "newText"@,
        "insert"@ != "replace"@,
{
    reveal_strlit("additionalTextEdits");
    reveal_strlit("textEdit");
    reveal_strlit("insertText");
    reveal_strlit("range");
    reveal_strlit("insert");
    reveal_strlit("replace");
    reveal_strlit("newText");
    assert("additionalTextEdits"@.len() == 19);
    assert("textEdit"@.len() == 8);
    assert("insertText"@.len() == 10);
    assert("range"@.len() == 5);
    assert("insert"@.len() == 6);
    assert("replace"@.len() == 7);
    assert("newText"@.len() == 7);
    assert("replace"@[0] != "newText"@[0]);
}

/// A completion item of bash-language-server keeps everything but its edits.
/// Where the main edit has no place in the file, its text is what is inserted,
/// unless the item says already what that is.
pub proof fn law_script_items_keep_the_rest(
    item: Map<Seq<char>, JsonModel>,
    origin: Option<OriginModel>,
    key: Seq<char>,
)
    ensures
        ({
            let value = JsonModel::Object(item);
            let mapped = mapped_item(value, origin);
            let unplaced = field(value, "textEdit"@) matches Some(edit) && mapped_edit(
                edit,
                origin,
            ) is None;
            &&& key != "textEdit"@ && key != "additionalTextEdits"@ && key != "insertText"@
                ==> field(mapped, key) == field(value, key)
            &&& field(mapped, "additionalTextEdits"@) is None
            &&& field(value, "textEdit"@) is None ==> field(mapped, "textEdit"@) is None
            &&& !unplaced || field(value, "insertText"@) is Some ==> field(mapped, "insertText"@)
                == field(value, "insertText"@)
            &&& unplaced && field(value, "insertText"@) is None ==> field(mapped, "insertText"@)
                == Some(field_or_null(field(value, "textEdit"@)->Some_0, "newText"@))
        }),
{
    lemma_item_keys();
}

/// An edit with one range has a place in the file if the range has one, and an
/// edit with two if both have one. It keeps its text.
pub proof fn law_edits_are_moved(
    edit: JsonModel,
    origin: Option<OriginModel>,
    range: JsonModel,
    insert: JsonModel,
    replace: JsonModel,
)
    ensures
        field(edit, "range"@) == Some(range) ==> match mapped_in(range, origin) {
            Some(there) => mapped_edit(edit, origin) matches Some(moved) && field(moved, "range"@)
                == Some(there) && field(moved, "newText"@) == Some(
                field_or_null(edit, "newText"@),
            ),
            None => mapped_edit(edit, origin) is None,
        },
        field(edit, "range"@) is None && field(edit, "insert"@) == Some(insert) && field(
            edit,
            "replace"@,
        ) == Some(replace) ==> match (mapped_in(insert, origin), mapped_in(replace, origin)) {
            (Some(here), Some(there)) => mapped_edit(edit, origin) matches Some(moved) && field(
                moved,
                "insert"@,
            ) == Some(here) && field(moved, "replace"@) == Some(there) && field(moved, "newText"@)
                == Some(field_or_null(edit, "newText"@)),
            _ => mapped_edit(edit, origin) is None,
        },
        field(edit, "range"@) is None && (field(edit, "insert"@) is None || field(
            edit,
            "replace"@,
        ) is None) ==> mapped_edit(edit, origin) is None,
{
    lemma_item_keys();
}

/// Nothing has a place in the file of a script that is gone; in one that is
/// open, the script's map tells.
pub proof fn law_gone_scripts_have_no_places(range: JsonModel, origin: OriginModel)
    ensures
        mapped_in(range, None) is None,
        mapped_in(range, Some(origin)) == mapped_range(range, origin),
{
}

/// An item of yaml-language-server is marked in its data, and all else of the
/// item and of its data is kept. Data that is no object stays as it is.
pub proof fn law_marks_change_nothing_else(
    item: Map<Seq<char>, JsonModel>,
    key: Seq<char>,
)
    ensures
        ({
            let value = JsonModel::Object(item);
            let marked = marked_item(value);
            &&& key != "data"@ ==> field(marked, key) == field(value, key)
            &&& match field(value, "data"@) {
                None => field(marked, "data"@) == Some(
                    JsonModel::Object(map!["gitlabCiYaml"@ => JsonModel::Bool(true)]),
                ),
                Some(JsonModel::Object(data)) => field(marked, "data"@) == Some(
                    JsonModel::Object(data.insert("gitlabCiYaml"@, JsonModel::Bool(true))),
                ),
                Some(data) => field(marked, "data"@) == Some(data),
            }
        }),
{
    assert(Map::<Seq<char>, JsonModel>::empty().insert("gitlabCiYaml"@, JsonModel::Bool(true))
        =~= map!["gitlabCiYaml"@ => JsonModel::Bool(true)]);
}

/// Every item of a completion is moved or marked in its place, in an array as
/// in a list, and all else of a list is kept. Every other result stays as it
/// is.
pub proof fn law_all_items_are_moved_or_marked(
    completion: JsonModel,
    origin: Option<OriginModel>,
    items: Seq<JsonModel>,
    i: int,
    key: Seq<char>,
)
    requires
        0 <= i < items.len(),
    ensures
        completion == JsonModel::Array(items) ==> {
            &&& mapped_completion(completion, TargetModel::Yaml) matches JsonModel::Array(marked)
                && marked.len() == items.len() && marked[i] == marked_item(items[i])
            &&& mapped_completion(completion, TargetModel::Script(origin)) matches JsonModel::Array(
                moved,
            ) && moved.len() == items.len() && moved[i] == mapped_item(items[i], origin)
        },
        field(completion, "items"@) == Some(JsonModel::Array(items)) ==> {
            let marked = mapped_completion(completion, TargetModel::Yaml);
            let moved = mapped_completion(completion, TargetModel::Script(origin));
            &&& key != "items"@ ==> field(marked, key) == field(completion, key) && field(
                moved,
                key,
            ) == field(completion, key)
            &&& field(marked, "items"@) matches Some(JsonModel::Array(marked)) && marked.len()
                == items.len() && marked[i] == marked_item(items[i])
            &&& field(moved, "items"@) matches Some(JsonModel::Array(moved)) && moved.len()
                == items.len() && moved[i] == mapped_item(items[i], origin)
        },
{
}

/// A result that is no array and no list of items stays as it is.
pub proof fn law_other_completions_stay(completion: JsonModel, target: TargetModel)
    requires
        !(completion is Array),
        !(field(completion, "items"@) matches Some(JsonModel::Array(_))),
    ensures
        mapped_completion(completion, target) == completion,
{
}

/// Items that are no objects stay as they are.
pub proof fn law_other_items_stay(item: JsonModel, origin: Option<OriginModel>)
    requires
        !(item is Object),
    ensures
        mapped_item(item, origin) == item,
        marked_item(item) == item,
{
}

} // verus!
