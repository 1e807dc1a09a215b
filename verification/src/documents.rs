//! The open YAML files and the virtual documents made from their scripts.

use vstd::prelude::*;

use crate::completion::{position_json, position_model, range_model};
use crate::json::{duplicates, field_or_null, items_view, Json, JsonModel};
use crate::mapping::{
    lsp_position, map_diagnostics, mapped_diagnostics, mapped_range, origin_view, script_offset,
    Origin, OriginModel,
};
use crate::script::{
    ends_at, law_position_round_trip, law_source_round_trip, lemma_position_bounds, offset_of,
    position_at, prepended, starts_at, Script, ScriptModel,
};
use crate::seqs::{first_index, lemma_first_from, lemma_first_from_is};
use crate::source::{column_at, law_column_round_trip, line_at, units_at, Pos, Source};
use crate::text::{lemma_walk_units_least, same_text};
use crate::uri::virtual_uri_of;

verus! {

/// A script as bash-language-server sees it.
#[derive(Debug)]
pub struct VirtualDocument {
    pub uri: String,
    pub version: i64,
    pub script: Script,
    /// Last diagnostics from bash-language-server, in script coordinates.
    pub diagnostics: Vec<Json>,
}

pub struct VirtualModel {
    pub uri: Seq<char>,
    pub version: int,
    pub script: ScriptModel,
    pub diagnostics: Seq<JsonModel>,
}

/// An open YAML file.
pub struct Document {
    pub uri: String,
    pub text: String,
    pub source: Source,
    pub scripts: Vec<VirtualDocument>,
    pub yaml_diagnostics: Vec<Json>,
}

pub struct DocumentModel {
    pub uri: Seq<char>,
    pub text: Seq<char>,
    pub lines: Seq<Seq<char>>,
    pub scripts: Seq<VirtualModel>,
    pub yaml_diagnostics: Seq<JsonModel>,
}

impl VirtualDocument {
    pub open spec fn view(&self) -> VirtualModel {
        VirtualModel {
            uri: self.uri@,
            version: self.version as int,
            script: self.script@,
            diagnostics: items_view(self.diagnostics@),
        }
    }
}

pub open spec fn virtuals_view(scripts: Seq<VirtualDocument>) -> Seq<VirtualModel> {
    scripts.map_values(|script: VirtualDocument| script@)
}

impl Document {
    pub open spec fn view(&self) -> DocumentModel {
        DocumentModel {
            uri: self.uri@,
            text: self.text@,
            lines: self.source@,
            scripts: virtuals_view(self.scripts@),
            yaml_diagnostics: items_view(self.yaml_diagnostics@),
        }
    }
}

pub open spec fn documents_view(documents: Seq<Document>) -> Seq<DocumentModel> {
    documents.map_values(|document: Document| document@)
}

// ---------------------------------------------------------------------------
// Finding
// ---------------------------------------------------------------------------

pub open spec fn is_document(uri: Seq<char>) -> spec_fn(DocumentModel) -> bool {
    |document: DocumentModel| document.uri == uri
}

/// The open file with the given URI.
pub open spec fn document_at(documents: Seq<DocumentModel>, uri: Seq<char>) -> Option<int> {
    first_index(documents, is_document(uri))
}

pub open spec fn is_virtual(uri: Seq<char>) -> spec_fn(VirtualModel) -> bool {
    |script: VirtualModel| script.uri == uri
}

/// The virtual document with the given URI.
pub open spec fn virtual_at(scripts: Seq<VirtualModel>, uri: Seq<char>) -> Option<int> {
    first_index(scripts, is_virtual(uri))
}

pub open spec fn holds_virtual(uri: Seq<char>) -> spec_fn(DocumentModel) -> bool {
    |document: DocumentModel| virtual_at(document.scripts, uri) is Some
}

/// The file and the script of the virtual document with the given URI.
pub open spec fn owner_of(documents: Seq<DocumentModel>, uri: Seq<char>) -> Option<(int, int)> {
    match first_index(documents, holds_virtual(uri)) {
        Some(i) => Some((i, virtual_at(documents[i].scripts, uri)->Some_0)),
        None => None,
    }
}

/// Where a virtual document comes from, while it is open.
pub open spec fn origin_of(documents: Seq<DocumentModel>, uri: Seq<char>) -> Option<OriginModel> {
    match owner_of(documents, uri) {
        Some((i, k)) => Some(
            OriginModel { script: documents[i].scripts[k].script, lines: documents[i].lines },
        ),
        None => None,
    }
}

pub fn find_document(documents: &Vec<Document>, uri: &str) -> (r: Option<usize>)
    ensures
        match r {
            Some(i) => i < documents@.len() && document_at(documents_view(documents@), uri@)
                == Some(i as int),
            None => document_at(documents_view(documents@), uri@) is None,
        },
{
    let ghost models = documents_view(documents@);
    let mut i: usize = 0;
    while i < documents.len()
        invariant
            i <= documents@.len(),
            models == documents_view(documents@),
            forall|k: int| 0 <= k < i ==> !is_document(uri@)(#[trigger] models[k]),
        decreases documents@.len() - i,
    {
        assert(models[i as int] == documents@[i as int]@);
        if same_text(documents[i].uri.as_str(), uri) {
            proof {
                lemma_first_from_is(models, is_document(uri@), 0, i as int);
            }
            return Some(i);
        }
        i = i + 1;
    }
    proof {
        lemma_first_from(models, is_document(uri@), 0);
    }
    None
}

pub fn find_virtual(scripts: &Vec<VirtualDocument>, uri: &str) -> (r: Option<usize>)
    ensures
        match r {
            Some(i) => i < scripts@.len() && virtual_at(virtuals_view(scripts@), uri@) == Some(
                i as int,
            ),
            None => virtual_at(virtuals_view(scripts@), uri@) is None,
        },
{
    let ghost models = virtuals_view(scripts@);
    let mut i: usize = 0;
    while i < scripts.len()
        invariant
            i <= scripts@.len(),
            models == virtuals_view(scripts@),
            forall|k: int| 0 <= k < i ==> !is_virtual(uri@)(#[trigger] models[k]),
        decreases scripts@.len() - i,
    {
        assert(models[i as int] == scripts@[i as int]@);
        if same_text(scripts[i].uri.as_str(), uri) {
            proof {
                lemma_first_from_is(models, is_virtual(uri@), 0, i as int);
            }
            return Some(i);
        }
        i = i + 1;
    }
    proof {
        lemma_first_from(models, is_virtual(uri@), 0);
    }
    None
}

/// The file and the script of the virtual document with the given URI.
pub fn find_owner(documents: &Vec<Document>, uri: &str) -> (r: Option<(usize, usize)>)
    ensures
        match r {
            Some((i, k)) => {
                &&& i < documents@.len()
                &&& k < documents@[i as int].scripts@.len()
                &&& owner_of(documents_view(documents@), uri@) == Some((i as int, k as int))
            },
            None => owner_of(documents_view(documents@), uri@) is None,
        },
{
    let ghost models = documents_view(documents@);
    let mut i: usize = 0;
    while i < documents.len()
        invariant
            i <= documents@.len(),
            models == documents_view(documents@),
            forall|k: int| 0 <= k < i ==> !holds_virtual(uri@)(#[trigger] models[k]),
        decreases documents@.len() - i,
    {
        assert(models[i as int] == documents@[i as int]@);
        if let Some(k) = find_virtual(&documents[i].scripts, uri) {
            proof {
                lemma_first_from_is(models, holds_virtual(uri@), 0, i as int);
            }
            return Some((i, k));
        }
        i = i + 1;
    }
    proof {
        lemma_first_from(models, holds_virtual(uri@), 0);
    }
    None
}

/// Where a virtual document comes from, while it is open.
pub fn find_script<'a>(documents: &'a Vec<Document>, uri: &str) -> (r: Option<Origin<'a>>)
    ensures
        origin_view(r) == origin_of(documents_view(documents@), uri@),
{
    match find_owner(documents, uri) {
        Some((i, k)) => {
            assert(documents_view(documents@)[i as int] == documents@[i as int]@);
            assert(documents@[i as int]@.scripts[k as int] == documents@[i as int].scripts@[k as int]@);
            Some(
                Origin {
                    script: &documents[i].scripts[k].script,
                    source: &documents[i].source,
                },
            )
        },
        None => None,
    }
}

// ---------------------------------------------------------------------------
// Positions
// ---------------------------------------------------------------------------

pub open spec fn covers(pos: Pos) -> spec_fn(VirtualModel) -> bool {
    |script: VirtualModel| offset_of(script.script.map, pos) is Some
}

/// The virtual document and the position in it for a position in a file.
pub open spec fn located(document: DocumentModel, line: int, character: int) -> Option<
    (Seq<char>, JsonModel),
> {
    let pos = Pos {
        line: line as usize,
        col: column_at(line_at(document.lines, line), character) as usize,
    };
    match first_index(document.scripts, covers(pos)) {
        Some(i) => {
            let script = document.scripts[i];
            let (line, units) = position_at(
                script.script.text,
                offset_of(script.script.map, pos)->Some_0,
            );
            Some((script.uri, position_model(line, units)))
        },
        None => None,
    }
}

pub open spec fn located_view(located: Option<(String, Json)>) -> Option<(Seq<char>, JsonModel)> {
    match located {
        Some((uri, position)) => Some((uri@, position@)),
        None => None,
    }
}

impl Document {
    /// The virtual document and the position in it for a position in the file.
    pub fn locate(&self, line: usize, character: usize) -> (r: Option<(String, Json)>)
        ensures
            located_view(r) == located(self@, line as int, character as int),
    {
        let pos = self.source.pos(line, character);
        let ghost models = self@.scripts;
        let mut i: usize = 0;
        while i < self.scripts.len()
            invariant
                i <= self.scripts@.len(),
                models == virtuals_view(self.scripts@),
                self@.scripts == models,
                pos == (Pos {
                    line: line,
                    col: column_at(
                        line_at(self@.lines, line as int),
                        character as int,
                    ) as usize,
                }),
                forall|k: int| 0 <= k < i ==> !covers(pos)(#[trigger] models[k]),
            decreases self.scripts@.len() - i,
        {
            assert(models[i as int] == self.scripts@[i as int]@);
            if let Some(offset) = self.scripts[i].script.offset_of_source(pos) {
                proof {
                    lemma_first_from_is(models, covers(pos), 0, i as int);
                }
                let (line, character) = self.scripts[i].script.position(offset);
                return Some((self.scripts[i].uri.clone(), position_json(line, character)));
            }
            i = i + 1;
        }
        proof {
            lemma_first_from(models, covers(pos), 0);
        }
        None
    }
}

// ---------------------------------------------------------------------------
// Diagnostics
// ---------------------------------------------------------------------------

/// The diagnostics of scripts, in YAML coordinates.
pub open spec fn script_diagnostics(scripts: Seq<VirtualModel>, lines: Seq<Seq<char>>) -> Seq<
    JsonModel,
>
    decreases scripts.len(),
{
    if scripts.len() == 0 {
        Seq::empty()
    } else {
        script_diagnostics(scripts.drop_last(), lines) + mapped_diagnostics(
            scripts.last().diagnostics,
            OriginModel { script: scripts.last().script, lines },
        )
    }
}

/// The YAML diagnostics plus the mapped script diagnostics.
pub open spec fn all_diagnostics(document: DocumentModel) -> Seq<JsonModel> {
    document.yaml_diagnostics + script_diagnostics(document.scripts, document.lines)
}

impl Document {
    /// The YAML diagnostics plus the mapped script diagnostics.
    pub fn diagnostics(&self) -> (r: Vec<Json>)
        ensures
            items_view(r@) == all_diagnostics(self@),
    {
        let mut out = duplicates(&self.yaml_diagnostics);
        let ghost models = self@.scripts;
        let ghost own = self@.yaml_diagnostics;
        let mut i: usize = 0;
        proof {
            assert(models.take(0) =~= Seq::<VirtualModel>::empty());
            assert(own + Seq::<JsonModel>::empty() =~= own);
        }
        while i < self.scripts.len()
            invariant
                i <= self.scripts@.len(),
                models == virtuals_view(self.scripts@),
                items_view(out@) == own + script_diagnostics(
                    models.take(i as int),
                    self.source@,
                ),
            decreases self.scripts@.len() - i,
        {
            proof {
                assert(models.take(i + 1).drop_last() =~= models.take(i as int));
                assert(models.take(i + 1).last() == self.scripts@[i as int]@);
            }
            map_diagnostics(
                &mut out,
                &self.scripts[i].diagnostics,
                &self.scripts[i].script,
                &self.source,
            );
            assert(items_view(out@) =~= own + script_diagnostics(
                models.take(i + 1),
                self.source@,
            ));
            i = i + 1;
        }
        assert(models.take(i as int) =~= models);
        out
    }
}

// ---------------------------------------------------------------------------
// Updating
// ---------------------------------------------------------------------------

/// A script with the directive that sets ShellCheck's dialect.
pub open spec fn with_shell(script: ScriptModel, shell: Option<Seq<char>>) -> ScriptModel {
    match shell {
        Some(shell) => prepended(script, "# shellcheck shell="@ + shell),
        None => script,
    }
}

/// The virtual document that held the script with the given URI before.
pub open spec fn previous_of(previous: Seq<VirtualModel>, uri: Seq<char>) -> Option<VirtualModel> {
    match virtual_at(previous, uri) {
        Some(i) => Some(previous[i]),
        None => None,
    }
}

/// The virtual document for a script. Diagnostics refer to a text: they go
/// when the text changes, and its version grows.
pub open spec fn updated(
    previous: Option<VirtualModel>,
    uri: Seq<char>,
    script: ScriptModel,
) -> VirtualModel {
    match previous {
        Some(previous) => if previous.script.text != script.text {
            VirtualModel {
                uri,
                version: previous.version + 1,
                script,
                diagnostics: Seq::empty(),
            }
        } else {
            VirtualModel {
                uri,
                version: previous.version,
                script,
                diagnostics: previous.diagnostics,
            }
        },
        None => VirtualModel { uri, version: 1, script, diagnostics: Seq::empty() },
    }
}

/// The virtual documents of a file whose scripts are given.
pub open spec fn current_scripts(
    uri: Seq<char>,
    previous: Seq<VirtualModel>,
    scripts: Seq<ScriptModel>,
    shell: Option<Seq<char>>,
) -> Seq<VirtualModel> {
    Seq::new(
        scripts.len(),
        |i: int|
            {
                let virtual_uri = virtual_uri_of(uri, i as nat, scripts[i].name);
                updated(
                    previous_of(previous, virtual_uri),
                    virtual_uri,
                    with_shell(scripts[i], shell),
                )
            },
    )
}

/// Whether no virtual document has the URI any more.
pub open spec fn is_gone(current: Seq<VirtualModel>, uri: Seq<char>) -> bool {
    virtual_at(current, uri) is None
}


// ---------------------------------------------------------------------------
// Laws
// ---------------------------------------------------------------------------

/// A request at the place of a script character goes to that character, and a
/// range of the answer that starts and ends there comes back to the same place.
pub proof fn law_requests_and_answers_agree(document: DocumentModel, k: int, o: int)
    requires
        0 <= k < document.scripts.len(),
        document.scripts[k].script.text.len() == document.scripts[k].script.map.len(),
        2 * document.scripts[k].script.text.len() <= usize::MAX,
        0 <= o < document.scripts[k].script.map.len(),
        document.scripts[k].script.map[o] matches Some(span) && {
            &&& span.start.col <= line_at(document.lines, span.start.line as int).len()
            &&& forall|j: int|
                0 <= j < k ==> offset_of(
                    (#[trigger] document.scripts[j]).script.map,
                    span.start,
                ) is None
            &&& forall|i: int|
                0 <= i < o && (#[trigger] document.scripts[k].script.map[i]) is Some
                    ==> document.scripts[k].script.map[i]->0.start != span.start
        },
    ensures
        ({
            let script = document.scripts[k].script;
            let start = script.map[o]->0.start;
            let line = line_at(document.lines, start.line as int);
            let (row, units) = position_at(script.text, o);
            let there = position_model(row, units);
            let here = lsp_position(document.lines, start);
            &&& located(document, start.line as int, units_at(line, start.col as int)) == Some(
                (document.scripts[k].uri, there),
            )
            &&& mapped_range(
                range_model(there, there),
                OriginModel { script, lines: document.lines },
            ) == Some(range_model(here, here))
        }),
{
    let script = document.scripts[k].script;
    let start = script.map[o]->0.start;
    let line = line_at(document.lines, start.line as int);
    law_column_round_trip(line, start.col as int);
    law_source_round_trip(script.map, o);
    assert forall|j: int| 0 <= j < k implies !covers(start)(#[trigger] document.scripts[j]) by {}
    lemma_first_from_is(document.scripts, covers(start), 0, k);
    law_position_round_trip(script.text, o);
    lemma_position_bounds(script.text, o);
    let (row, units) = position_at(script.text, o);
    let there = position_model(row, units);
    reveal_strlit("line");
    reveal_strlit("character");
    reveal_strlit("start");
    reveal_strlit("end");
    assert("line"@.len() != "character"@.len());
    assert("start"@.len() != "end"@.len());
    assert(field_or_null(there, "line"@) == JsonModel::Integer(row));
    assert(field_or_null(there, "character"@) == JsonModel::Integer(units));
    assert(field_or_null(range_model(there, there), "start"@) == there);
    assert(field_or_null(range_model(there, there), "end"@) == there);
    assert(script_offset(script.text, there) == Some(o));
}

/// A position in a file is inside the first script with a character that starts
/// there, or else ends there: before the first character that starts there, or
/// behind the first one that ends there if none starts there.
pub proof fn law_positions_are_in_the_first_script_that_reaches_them(
    document: DocumentModel,
    line: int,
    character: int,
    k: int,
    o: int,
)
    requires
        0 <= line <= usize::MAX,
        line_at(document.lines, line).len() <= usize::MAX,
        0 <= k < document.scripts.len(),
        0 <= o < document.scripts[k].script.map.len(),
        ({
            let col = column_at(line_at(document.lines, line), character);
            let map = document.scripts[k].script.map;
            let here = |pos: Pos| pos.line == line && pos.col == col;
            &&& forall|j: int, i: int|
                0 <= j < k && 0 <= i < document.scripts[j].script.map.len() && (
                #[trigger] document.scripts[j].script.map[i]) is Some
                    ==> !here(document.scripts[j].script.map[i]->0.start) && !here(
                    document.scripts[j].script.map[i]->0.end,
                )
            &&& map[o] matches Some(span) && (here(span.start) || here(span.end))
            &&& forall|i: int|
                0 <= i < o && (#[trigger] map[i]) is Some ==> !here(map[i]->0.start)
            &&& here(map[o]->0.start) || forall|i: int|
                0 <= i < map.len() && (#[trigger] map[i]) is Some ==> !here(map[i]->0.start) && (
                i < o ==> !here(map[i]->0.end))
        }),
    ensures
        ({
            let col = column_at(line_at(document.lines, line), character);
            let script = document.scripts[k].script;
            let start = script.map[o]->0.start;
            let offset = if start.line == line && start.col == col {
                o
            } else {
                o + 1
            };
            let (row, units) = position_at(script.text, offset);
            located(document, line, character) == Some(
                (document.scripts[k].uri, position_model(row, units)),
            )
        }),
{
    let whole = line_at(document.lines, line);
    lemma_walk_units_least(whole, 0, whole.len() as int, character);
    let col = column_at(whole, character);
    let pos = Pos { line: line as usize, col: col as usize };
    let map = document.scripts[k].script.map;
    assert forall|j: int| 0 <= j < k implies !covers(pos)(#[trigger] document.scripts[j]) by {
        let other = document.scripts[j].script.map;
        lemma_first_from(other, starts_at(pos), 0);
        lemma_first_from(other, ends_at(pos), 0);
    }
    lemma_first_from(map, starts_at(pos), 0);
    lemma_first_from(map, ends_at(pos), 0);
    let start = map[o]->0.start;
    if start.line == line && start.col == col {
        assert(start == pos);
        lemma_first_from_is(map, starts_at(pos), 0, o);
    } else {
        assert(map[o]->0.end == pos);
        lemma_first_from_is(map, ends_at(pos), 0, o);
    }
    lemma_first_from_is(document.scripts, covers(pos), 0, k);
}

/// A position that no character of a script starts or ends at is in no script.
pub proof fn law_other_positions_are_in_no_script(
    document: DocumentModel,
    line: int,
    character: int,
)
    requires
        0 <= line <= usize::MAX,
        line_at(document.lines, line).len() <= usize::MAX,
        forall|j: int, i: int|
            0 <= j < document.scripts.len() && 0 <= i < document.scripts[j].script.map.len() && (
            #[trigger] document.scripts[j].script.map[i]) is Some ==> {
                let col = column_at(line_at(document.lines, line), character);
                let span = document.scripts[j].script.map[i]->0;
                &&& !(span.start.line == line && span.start.col == col)
                &&& !(span.end.line == line && span.end.col == col)
            },
    ensures
        located(document, line, character) is None,
{
    let whole = line_at(document.lines, line);
    lemma_walk_units_least(whole, 0, whole.len() as int, character);
    let col = column_at(whole, character);
    let pos = Pos { line: line as usize, col: col as usize };
    lemma_first_from(document.scripts, covers(pos), 0);
    if let Some(j) = first_index(document.scripts, covers(pos)) {
        let other = document.scripts[j].script.map;
        lemma_first_from(other, starts_at(pos), 0);
        lemma_first_from(other, ends_at(pos), 0);
    }
}

/// The diagnostics of a file are those of yaml-language-server, and behind them
/// those of each script, one after the other, in YAML coordinates.
pub proof fn law_diagnostics_of_a_file(document: DocumentModel)
    ensures
        document.scripts.len() == 0 ==> all_diagnostics(document) == document.yaml_diagnostics,
        document.scripts.len() > 0 ==> all_diagnostics(document) == all_diagnostics(
            DocumentModel { scripts: document.scripts.drop_last(), ..document },
        ) + mapped_diagnostics(
            document.scripts.last().diagnostics,
            OriginModel { script: document.scripts.last().script, lines: document.lines },
        ),
{
    if document.scripts.len() == 0 {
        assert(all_diagnostics(document) =~= document.yaml_diagnostics);
    } else {
        let fewer = DocumentModel { scripts: document.scripts.drop_last(), ..document };
        assert(all_diagnostics(document) =~= all_diagnostics(fewer) + mapped_diagnostics(
            document.scripts.last().diagnostics,
            OriginModel { script: document.scripts.last().script, lines: document.lines },
        ));
    }
}

/// A virtual document comes from the script that has its name, and from the
/// lines of that script's file. One that is not open comes from nowhere.
pub proof fn law_origins(documents: Seq<DocumentModel>, uri: Seq<char>, i: int, k: int)
    ensures
        owner_of(documents, uri) == Some((i, k)) ==> origin_of(documents, uri) == Some(
            OriginModel { script: documents[i].scripts[k].script, lines: documents[i].lines },
        ),
        (forall|d: int, s: int|
            0 <= d < documents.len() && 0 <= s < documents[d].scripts.len() ==> (
            #[trigger] documents[d].scripts[s]).uri != uri) ==> origin_of(documents, uri) is None,
{
    lemma_first_from(documents, holds_virtual(uri), 0);
    if let Some(d) = first_index(documents, holds_virtual(uri)) {
        lemma_first_from(documents[d].scripts, is_virtual(uri), 0);
    }
}

} // verus!
