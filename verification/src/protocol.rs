//! The JSON-RPC messages that the proxy sends.

use vstd::prelude::*;

use crate::backend::{Backend, NAME, VERSION};
use crate::json::{
    field, field_copy, field_or_null, items_view, with_field, Json, JsonModel,
};

verus! {

pub const METHOD_NOT_FOUND: i64 = -32601;

// ---------------------------------------------------------------------------
// Frames
// ---------------------------------------------------------------------------

pub open spec fn notification(method: Seq<char>, params: JsonModel) -> JsonModel {
    JsonModel::Object(
        map![
            "jsonrpc"@ => JsonModel::Text("2.0"@),
            "method"@ => JsonModel::Text(method),
            "params"@ => params,
        ],
    )
}

pub open spec fn request_message(id: int, method: Seq<char>, params: JsonModel) -> JsonModel {
    JsonModel::Object(
        map![
            "jsonrpc"@ => JsonModel::Text("2.0"@),
            "id"@ => JsonModel::Integer(id),
            "method"@ => JsonModel::Text(method),
            "params"@ => params,
        ],
    )
}

pub open spec fn response(id: JsonModel, result: JsonModel) -> JsonModel {
    JsonModel::Object(
        map!["jsonrpc"@ => JsonModel::Text("2.0"@), "id"@ => id, "result"@ => result],
    )
}

pub open spec fn error_response(id: JsonModel, error: JsonModel) -> JsonModel {
    JsonModel::Object(
        map!["jsonrpc"@ => JsonModel::Text("2.0"@), "id"@ => id, "error"@ => error],
    )
}

/// The notification without parameters that ends a server.
pub open spec fn exit_message() -> JsonModel {
    JsonModel::Object(
        map!["jsonrpc"@ => JsonModel::Text("2.0"@), "method"@ => JsonModel::Text("exit"@)],
    )
}

pub fn notification_json(method: &str, params: Json) -> (r: Json)
    ensures
        r@ == notification(method@, params@),
{
    Json::object().with("jsonrpc", Json::string("2.0")).with("method", Json::string(method)).with(
        "params",
        params,
    )
}

pub fn request_json(id: i64, method: &str, params: Json) -> (r: Json)
    ensures
        r@ == request_message(id as int, method@, params@),
{
    Json::object().with("jsonrpc", Json::string("2.0")).with("id", Json::Int(id)).with(
        "method",
        Json::string(method),
    ).with("params", params)
}

pub fn response_json(id: Json, result: Json) -> (r: Json)
    ensures
        r@ == response(id@, result@),
{
    Json::object().with("jsonrpc", Json::string("2.0")).with("id", id).with("result", result)
}

pub fn error_response_json(id: Json, error: Json) -> (r: Json)
    ensures
        r@ == error_response(id@, error@),
{
    Json::object().with("jsonrpc", Json::string("2.0")).with("id", id).with("error", error)
}

pub fn exit_json() -> (r: Json)
    ensures
        r@ == exit_message(),
{
    Json::object().with("jsonrpc", Json::string("2.0")).with("method", Json::string("exit"))
}

// ---------------------------------------------------------------------------
// Parameters
// ---------------------------------------------------------------------------

/// An object with one field.
pub open spec fn single(key: Seq<char>, value: JsonModel) -> JsonModel {
    JsonModel::Object(map![key => value])
}

pub fn single_json(key: &str, value: Json) -> (r: Json)
    ensures
        r@ == single(key@, value@),
{
    Json::object().with(key, value)
}

/// The parameters that name a document.
pub open spec fn document_params(uri: Seq<char>) -> JsonModel {
    single("textDocument"@, single("uri"@, JsonModel::Text(uri)))
}

pub fn document_params_json(uri: &str) -> (r: Json)
    ensures
        r@ == document_params(uri@),
{
    single_json("textDocument", single_json("uri", Json::string(uri)))
}

pub open spec fn open_params(uri: Seq<char>, text: Seq<char>) -> JsonModel {
    single(
        "textDocument"@,
        JsonModel::Object(
            map![
                "uri"@ => JsonModel::Text(uri),
                "languageId"@ => JsonModel::Text("shellscript"@),
                "version"@ => JsonModel::Integer(1),
                "text"@ => JsonModel::Text(text),
            ],
        ),
    )
}

pub fn open_params_json(uri: &str, text: &str) -> (r: Json)
    ensures
        r@ == open_params(uri@, text@),
{
    single_json(
        "textDocument",
        Json::object().with("uri", Json::string(uri)).with(
            "languageId",
            Json::string("shellscript"),
        ).with("version", Json::Uint(1)).with("text", Json::string(text)),
    )
}

pub open spec fn change_params(uri: Seq<char>, version: int, text: Seq<char>) -> JsonModel {
    JsonModel::Object(
        map![
            "textDocument"@ => JsonModel::Object(
                map![
                    "uri"@ => JsonModel::Text(uri),
                    "version"@ => JsonModel::Integer(version),
                ],
            ),
            "contentChanges"@ => JsonModel::Array(
                seq![single("text"@, JsonModel::Text(text))],
            ),
        ],
    )
}

pub fn change_params_json(uri: &str, version: i64, text: &str) -> (r: Json)
    ensures
        r@ == change_params(uri@, version as int, text@),
{
    let changes = vec![single_json("text", Json::string(text))];
    assert(items_view(changes@) =~= seq![single("text"@, JsonModel::Text(text@))]);
    Json::object().with(
        "textDocument",
        Json::object().with("uri", Json::string(uri)).with("version", Json::Int(version)),
    ).with("contentChanges", Json::array(changes))
}

pub open spec fn diagnostics_params(uri: Seq<char>, diagnostics: Seq<JsonModel>) -> JsonModel {
    JsonModel::Object(
        map![
            "uri"@ => JsonModel::Text(uri),
            "diagnostics"@ => JsonModel::Array(diagnostics),
        ],
    )
}

pub fn diagnostics_params_json(uri: &str, diagnostics: Vec<Json>) -> (r: Json)
    ensures
        r@ == diagnostics_params(uri@, items_view(diagnostics@)),
{
    Json::object().with("uri", Json::string(uri)).with("diagnostics", Json::array(diagnostics))
}

/// Parameters with settings of a backend in them.
pub open spec fn settings_params(section: Seq<char>, settings: JsonModel) -> JsonModel {
    single("settings"@, single(section, settings))
}

pub fn settings_params_json(section: &str, settings: Json) -> (r: Json)
    ensures
        r@ == settings_params(section@, settings@),
{
    single_json("settings", single_json(section, settings))
}

/// `kind`: 1 = error, 2 = warning (LSP `MessageType`).
pub open spec fn message_params(kind: int, message: Seq<char>) -> JsonModel {
    JsonModel::Object(
        map!["type"@ => JsonModel::Integer(kind), "message"@ => JsonModel::Text(message)],
    )
}

pub fn message_params_json(kind: u8, message: &str) -> (r: Json)
    ensures
        r@ == message_params(kind as int, message@),
{
    Json::object().with("type", Json::Uint(kind as u64)).with("message", Json::string(message))
}

pub open spec fn error_object(code: int, message: Seq<char>) -> JsonModel {
    JsonModel::Object(
        map!["code"@ => JsonModel::Integer(code), "message"@ => JsonModel::Text(message)],
    )
}

pub fn error_object_json(code: i64, message: &str) -> (r: Json)
    ensures
        r@ == error_object(code as int, message@),
{
    Json::object().with("code", Json::Int(code)).with("message", Json::string(message))
}

// ---------------------------------------------------------------------------
// Initialization
// ---------------------------------------------------------------------------

pub open spec fn name_and_version() -> JsonModel {
    JsonModel::Object(
        map!["name"@ => JsonModel::Text(NAME@), "version"@ => JsonModel::Text(VERSION@)],
    )
}

fn name_and_version_json() -> (r: Json)
    ensures
        r@ == name_and_version(),
{
    Json::object().with("name", Json::string(NAME)).with("version", Json::string(VERSION))
}

/// What the proxy answers to `initialize`. It triggers on `$` and `{` only:
/// bash-language-server also triggers on `-`, which starts every YAML list item.
pub open spec fn initialize_result_model() -> JsonModel {
    JsonModel::Object(
        map![
            "capabilities"@ => JsonModel::Object(
                map![
                    "textDocumentSync"@ => JsonModel::Object(
                        map![
                            "openClose"@ => JsonModel::Bool(true),
                            "change"@ => JsonModel::Integer(1),
                        ],
                    ),
                    "hoverProvider"@ => JsonModel::Bool(true),
                    "completionProvider"@ => JsonModel::Object(
                        map![
                            "triggerCharacters"@ => JsonModel::Array(
                                seq![JsonModel::Text("$"@), JsonModel::Text("{"@)],
                            ),
                            "resolveProvider"@ => JsonModel::Bool(true),
                        ],
                    ),
                ],
            ),
            "serverInfo"@ => name_and_version(),
        ],
    )
}

pub fn initialize_result() -> (r: Json)
    ensures
        r@ == initialize_result_model(),
{
    let triggers = vec![Json::string("$"), Json::string("{")];
    assert(items_view(triggers@) =~= seq![JsonModel::Text("$"@), JsonModel::Text("{"@)]);
    let sync = Json::object().with("openClose", Json::Bool(true)).with("change", Json::Uint(1));
    let completion = Json::object().with("triggerCharacters", Json::array(triggers)).with(
        "resolveProvider",
        Json::Bool(true),
    );
    let capabilities = Json::object().with("textDocumentSync", sync).with(
        "hoverProvider",
        Json::Bool(true),
    ).with("completionProvider", completion);
    Json::object().with("capabilities", capabilities).with("serverInfo", name_and_version_json())
}

/// The value at `capabilities: textDocument: completion:` of the client.
pub open spec fn completion_capability(params: JsonModel) -> Option<JsonModel> {
    match field(params, "capabilities"@) {
        Some(capabilities) => match field(capabilities, "textDocument"@) {
            Some(document) => field(document, "completion"@),
            None => None,
        },
        None => None,
    }
}

/// Whether the client supports snippets.
pub open spec fn supports_snippets(params: JsonModel) -> bool {
    match completion_capability(params) {
        Some(completion) => match field(completion, "completionItem"@) {
            Some(item) => field(item, "snippetSupport"@) == Some(JsonModel::Bool(true)),
            None => false,
        },
        None => false,
    }
}

fn completion_capability_of(params: &Json) -> (r: Option<&Json>)
    ensures
        crate::json::opt_view(r) == completion_capability(params@),
{
    match params.get("capabilities") {
        Some(capabilities) => match capabilities.get("textDocument") {
            Some(document) => document.get("completion"),
            None => None,
        },
        None => None,
    }
}

pub fn snippet_support(params: &Json) -> (r: bool)
    ensures
        r == supports_snippets(params@),
{
    match completion_capability_of(params) {
        Some(completion) => match completion.get("completionItem") {
            Some(item) => match item.get("snippetSupport") {
                Some(Json::Bool(on)) => *on,
                _ => false,
            },
            None => false,
        },
        None => false,
    }
}

pub open spec fn not_dynamic() -> JsonModel {
    single("dynamicRegistration"@, JsonModel::Bool(false))
}

pub open spec fn document_capabilities() -> JsonModel {
    JsonModel::Object(
        map![
            "synchronization"@ => not_dynamic(),
            "publishDiagnostics"@ => single("versionSupport"@, JsonModel::Bool(true)),
            "hover"@ => single(
                "contentFormat"@,
                JsonModel::Array(
                    seq![JsonModel::Text("markdown"@), JsonModel::Text("plaintext"@)],
                ),
            ),
        ],
    )
}

/// The capabilities that the proxy has towards a backend: its own, and those
/// of the client for completion. Settings are pushed with
/// `initializationOptions` and `didChangeConfiguration` only; with
/// `workspace.configuration` bash-language-server would await a request while
/// documents are opened.
pub open spec fn backend_capabilities(params: JsonModel) -> JsonModel {
    JsonModel::Object(
        map![
            "workspace"@ => single("didChangeConfiguration"@, not_dynamic()),
            "textDocument"@ => (match completion_capability(params) {
                Some(completion) => with_field(
                    document_capabilities(),
                    "completion"@,
                    completion,
                ),
                None => document_capabilities(),
            }),
        ],
    )
}

/// The parameters with which a backend is initialized.
pub open spec fn server_params_model(
    backend: Backend,
    params: JsonModel,
    bash_ide: JsonModel,
    process_id: int,
) -> JsonModel {
    JsonModel::Object(
        map![
            "processId"@ => JsonModel::Integer(process_id),
            "clientInfo"@ => name_and_version(),
            "rootUri"@ => field_or_null(params, "rootUri"@),
            "rootPath"@ => field_or_null(params, "rootPath"@),
            "workspaceFolders"@ => field_or_null(params, "workspaceFolders"@),
            "capabilities"@ => backend_capabilities(params),
            "initializationOptions"@ => (match backend {
                Backend::Bash => bash_ide,
                Backend::Yaml => JsonModel::Null,
            }),
        ],
    )
}

fn not_dynamic_json() -> (r: Json)
    ensures
        r@ == not_dynamic(),
{
    single_json("dynamicRegistration", Json::Bool(false))
}

fn backend_capabilities_json(params: &Json) -> (r: Json)
    ensures
        r@ == backend_capabilities(params@),
{
    let formats = vec![Json::string("markdown"), Json::string("plaintext")];
    assert(items_view(formats@) =~= seq![
        JsonModel::Text("markdown"@),
        JsonModel::Text("plaintext"@),
    ]);
    let document = Json::object().with("synchronization", not_dynamic_json()).with(
        "publishDiagnostics",
        single_json("versionSupport", Json::Bool(true)),
    ).with("hover", single_json("contentFormat", Json::array(formats)));
    let document = match completion_capability_of(params) {
        Some(completion) => document.with("completion", completion.duplicate()),
        None => document,
    };
    Json::object().with(
        "workspace",
        single_json("didChangeConfiguration", not_dynamic_json()),
    ).with("textDocument", document)
}

/// The parameters with which a backend is initialized.
pub fn server_params(backend: Backend, params: &Json, bash_ide: &Json, process_id: u32) -> (r: Json)
    ensures
        r@ == server_params_model(backend, params@, bash_ide@, process_id as int),
{
    let options = match backend {
        Backend::Bash => bash_ide.duplicate(),
        Backend::Yaml => Json::Null,
    };
    Json::object().with("processId", Json::Uint(process_id as u64)).with(
        "clientInfo",
        name_and_version_json(),
    ).with("rootUri", field_copy(params, "rootUri")).with(
        "rootPath",
        field_copy(params, "rootPath"),
    ).with("workspaceFolders", field_copy(params, "workspaceFolders")).with(
        "capabilities",
        backend_capabilities_json(params),
    ).with("initializationOptions", options)
}

// ---------------------------------------------------------------------------
// Laws
// ---------------------------------------------------------------------------

/// The value under some keys, one below the other.
pub open spec fn under(value: JsonModel, keys: Seq<Seq<char>>) -> Option<JsonModel>
    decreases keys.len(),
{
    if keys.len() == 0 {
        Some(value)
    } else {
        match under(value, keys.drop_last()) {
            Some(above) => field(above, keys.last()),
            None => None,
        }
    }
}

proof fn lemma_under(value: JsonModel, a: Seq<char>, b: Seq<char>, c: Seq<char>, d: Seq<char>)
    ensures
        under(value, seq![a]) == field(value, a),
        under(value, seq![a, b]) == (match field(value, a) {
            Some(above) => field(above, b),
            None => None,
        }),
        under(value, seq![a, b, c]) == (match under(value, seq![a, b]) {
            Some(above) => field(above, c),
            None => None,
        }),
        under(value, seq![a, b, c, d]) == (match under(value, seq![a, b, c]) {
            Some(above) => field(above, d),
            None => None,
        }),
{
    reveal_with_fuel(under, 5);
    assert(seq![a].drop_last() =~= Seq::empty());
    assert(seq![a, b].drop_last() =~= seq![a]);
    assert(seq![a, b, c].drop_last() =~= seq![a, b]);
    assert(seq![a, b, c, d].drop_last() =~= seq![a, b, c]);
    assert(seq![a].last() == a);
    assert(seq![a, b].last() == b);
    assert(seq![a, b, c].last() == c);
    assert(seq![a, b, c, d].last() == d);
}

/// Whether a value is an object with these keys and no others.
pub open spec fn has_just(value: JsonModel, keys: Set<Seq<char>>) -> bool {
    value matches JsonModel::Object(map) && map.dom() == keys
}

/// The keys of the frames are different texts.
proof fn lemma_frame_keys()
    ensures
        "jsonrpc"@ != "id"@,
        "jsonrpc"@ != "method"@,
        "jsonrpc"@ != "params"@,
        "jsonrpc"@ != "result"@,
        "jsonrpc"@ != "error"@,
        "id"@ != "method"@,
        "id"@ != "params"@,
        "id"@ != "result"@,
        "id"@ != "error"@,
        "method"@ != "params"@,
{
    reveal_strlit("jsonrpc");
    reveal_strlit("id");
    reveal_strlit("method");
    reveal_strlit("params");
    reveal_strlit("result");
    reveal_strlit("error");
    assert("jsonrpc"@.len() == 7);
    assert("id"@.len() == 2);
    assert("method"@.len() == 6);
    assert("params"@.len() == 6);
    assert("result"@.len() == 6);
    assert("error"@.len() == 5);
    assert("method"@[0] != "params"@[0]);
}

/// Every message is a JSON-RPC 2.0 message. A notification has a method and
/// parameters, a request has a number as well, and a response has the number of
/// its request and either a result or an error.
pub proof fn law_messages_have_the_form_of_their_kind(
    number: int,
    id: JsonModel,
    method: Seq<char>,
    value: JsonModel,
)
    ensures
        has_just(notification(method, value), set!["jsonrpc"@, "method"@, "params"@]),
        field(notification(method, value), "jsonrpc"@) == Some(JsonModel::Text("2.0"@)),
        field(notification(method, value), "method"@) == Some(JsonModel::Text(method)),
        field(notification(method, value), "params"@) == Some(value),
        has_just(
            request_message(number, method, value),
            set!["jsonrpc"@, "id"@, "method"@, "params"@],
        ),
        field(request_message(number, method, value), "jsonrpc"@) == Some(JsonModel::Text("2.0"@)),
        field(request_message(number, method, value), "id"@) == Some(JsonModel::Integer(number)),
        field(request_message(number, method, value), "method"@) == Some(JsonModel::Text(method)),
        field(request_message(number, method, value), "params"@) == Some(value),
        has_just(response(id, value), set!["jsonrpc"@, "id"@, "result"@]),
        field(response(id, value), "jsonrpc"@) == Some(JsonModel::Text("2.0"@)),
        field(response(id, value), "id"@) == Some(id),
        field(response(id, value), "result"@) == Some(value),
        has_just(error_response(id, value), set!["jsonrpc"@, "id"@, "error"@]),
        field(error_response(id, value), "jsonrpc"@) == Some(JsonModel::Text("2.0"@)),
        field(error_response(id, value), "id"@) == Some(id),
        field(error_response(id, value), "error"@) == Some(value),
        has_just(exit_message(), set!["jsonrpc"@, "method"@]),
        field(exit_message(), "jsonrpc"@) == Some(JsonModel::Text("2.0"@)),
        field(exit_message(), "method"@) == Some(JsonModel::Text("exit"@)),
{
    lemma_frame_keys();
    assert(notification(method, value)->Object_0.dom() =~= set![
        "jsonrpc"@,
        "method"@,
        "params"@,
    ]);
    assert(request_message(number, method, value)->Object_0.dom() =~= set![
        "jsonrpc"@,
        "id"@,
        "method"@,
        "params"@,
    ]);
    assert(response(id, value)->Object_0.dom() =~= set!["jsonrpc"@, "id"@, "result"@]);
    assert(error_response(id, value)->Object_0.dom() =~= set!["jsonrpc"@, "id"@, "error"@]);
    assert(exit_message()->Object_0.dom() =~= set!["jsonrpc"@, "method"@]);
}

/// The keys of parameters are different texts.
proof fn lemma_parameter_keys()
    ensures
        "uri"@ != "languageId"@,
        "uri"@ != "version"@,
        "uri"@ != "text"@,
        "uri"@ != "diagnostics"@,
        "languageId"@ != "version"@,
        "languageId"@ != "text"@,
        "version"@ != "text"@,
        "textDocument"@ != "contentChanges"@,
        "type"@ != "message"@,
        "code"@ != "message"@,
        "name"@ != "version"@,
{
    reveal_strlit("uri");
    reveal_strlit("languageId");
    reveal_strlit("version");
    reveal_strlit("text");
    reveal_strlit("diagnostics");
    reveal_strlit("textDocument");
    reveal_strlit("contentChanges");
    reveal_strlit("type");
    reveal_strlit("code");
    reveal_strlit("message");
    reveal_strlit("name");
    assert("uri"@.len() == 3);
    assert("languageId"@.len() == 10);
    assert("version"@.len() == 7);
    assert("text"@.len() == 4);
    assert("diagnostics"@.len() == 11);
    assert("textDocument"@.len() == 12);
    assert("contentChanges"@.len() == 14);
    assert("type"@.len() == 4);
    assert("code"@.len() == 4);
    assert("message"@.len() == 7);
    assert("name"@.len() == 4);
}

/// A virtual document is opened as a shell script with version 1, changed as a
/// whole with its version, and closed by its name.
pub proof fn law_documents_are_named_by_their_uri(uri: Seq<char>, version: int, text: Seq<char>)
    ensures
        under(document_params(uri), seq!["textDocument"@, "uri"@]) == Some(JsonModel::Text(uri)),
        under(open_params(uri, text), seq!["textDocument"@, "uri"@]) == Some(JsonModel::Text(uri)),
        under(open_params(uri, text), seq!["textDocument"@, "languageId"@]) == Some(
            JsonModel::Text("shellscript"@),
        ),
        under(open_params(uri, text), seq!["textDocument"@, "version"@]) == Some(
            JsonModel::Integer(1),
        ),
        under(open_params(uri, text), seq!["textDocument"@, "text"@]) == Some(
            JsonModel::Text(text),
        ),
        under(change_params(uri, version, text), seq!["textDocument"@, "uri"@]) == Some(
            JsonModel::Text(uri),
        ),
        under(change_params(uri, version, text), seq!["textDocument"@, "version"@]) == Some(
            JsonModel::Integer(version),
        ),
        field(change_params(uri, version, text), "contentChanges"@) matches Some(
            JsonModel::Array(changes),
        ) && changes.len() == 1 && has_just(changes[0], set!["text"@]) && field(
            changes[0],
            "text"@,
        ) == Some(JsonModel::Text(text)),
{
    lemma_parameter_keys();
    let none = Seq::<char>::empty();
    lemma_under(document_params(uri), "textDocument"@, "uri"@, none, none);
    lemma_under(open_params(uri, text), "textDocument"@, "uri"@, none, none);
    lemma_under(open_params(uri, text), "textDocument"@, "languageId"@, none, none);
    lemma_under(open_params(uri, text), "textDocument"@, "version"@, none, none);
    lemma_under(open_params(uri, text), "textDocument"@, "text"@, none, none);
    lemma_under(change_params(uri, version, text), "textDocument"@, "uri"@, none, none);
    lemma_under(change_params(uri, version, text), "textDocument"@, "version"@, none, none);
    assert(single("text"@, JsonModel::Text(text))->Object_0.dom() =~= set!["text"@]);
}

/// Diagnostics, settings, messages and errors are put under the keys that their
/// readers look for.
pub proof fn law_parameters_hold_what_they_are_about(
    uri: Seq<char>,
    diagnostics: Seq<JsonModel>,
    section: Seq<char>,
    settings: JsonModel,
    number: int,
    text: Seq<char>,
)
    ensures
        has_just(diagnostics_params(uri, diagnostics), set!["uri"@, "diagnostics"@]),
        field(diagnostics_params(uri, diagnostics), "uri"@) == Some(JsonModel::Text(uri)),
        field(diagnostics_params(uri, diagnostics), "diagnostics"@) == Some(
            JsonModel::Array(diagnostics),
        ),
        under(settings_params(section, settings), seq!["settings"@, section]) == Some(settings),
        has_just(message_params(number, text), set!["type"@, "message"@]),
        field(message_params(number, text), "type"@) == Some(JsonModel::Integer(number)),
        field(message_params(number, text), "message"@) == Some(JsonModel::Text(text)),
        has_just(error_object(number, text), set!["code"@, "message"@]),
        field(error_object(number, text), "code"@) == Some(JsonModel::Integer(number)),
        field(error_object(number, text), "message"@) == Some(JsonModel::Text(text)),
{
    lemma_parameter_keys();
    let none = Seq::<char>::empty();
    lemma_under(settings_params(section, settings), "settings"@, section, none, none);
    reveal_strlit("type");
    reveal_strlit("message");
    assert(diagnostics_params(uri, diagnostics)->Object_0.dom() =~= set![
        "uri"@,
        "diagnostics"@,
    ]);
    assert(message_params(number, text)->Object_0.dom() =~= set!["type"@, "message"@]);
    assert(error_object(number, text)->Object_0.dom() =~= set!["code"@, "message"@]);
}

/// The keys of the answer to `initialize` are different texts.
proof fn lemma_capability_keys()
    ensures
        "capabilities"@ != "serverInfo"@,
        "textDocumentSync"@ != "hoverProvider"@,
        "textDocumentSync"@ != "completionProvider"@,
        "hoverProvider"@ != "completionProvider"@,
        "openClose"@ != "change"@,
        "triggerCharacters"@ != "resolveProvider"@,
        "name"@ != "version"@,
{
    lemma_parameter_keys();
    reveal_strlit("capabilities");
    reveal_strlit("serverInfo");
    reveal_strlit("textDocumentSync");
    reveal_strlit("hoverProvider");
    reveal_strlit("completionProvider");
    reveal_strlit("openClose");
    reveal_strlit("change");
    reveal_strlit("triggerCharacters");
    reveal_strlit("resolveProvider");
    assert("capabilities"@.len() == 12);
    assert("serverInfo"@.len() == 10);
    assert("textDocumentSync"@.len() == 16);
    assert("hoverProvider"@.len() == 13);
    assert("completionProvider"@.len() == 18);
    assert("openClose"@.len() == 9);
    assert("change"@.len() == 6);
    assert("triggerCharacters"@.len() == 17);
    assert("resolveProvider"@.len() == 15);
}

/// The proxy offers full synchronisation, hovers, and completion on `$` and `{`
/// with resolving, and nothing else. It says its name and version.
pub proof fn law_offered_capabilities()
    ensures
        ({
            let result = initialize_result_model();
            let capabilities = field_or_null(result, "capabilities"@);
            let sync = field_or_null(capabilities, "textDocumentSync"@);
            let completion = field_or_null(capabilities, "completionProvider"@);
            let info = field_or_null(result, "serverInfo"@);
            &&& has_just(result, set!["capabilities"@, "serverInfo"@])
            &&& has_just(
                capabilities,
                set!["textDocumentSync"@, "hoverProvider"@, "completionProvider"@],
            )
            &&& has_just(sync, set!["openClose"@, "change"@])
            &&& field(sync, "openClose"@) == Some(JsonModel::Bool(true))
            &&& field(sync, "change"@) == Some(JsonModel::Integer(1))
            &&& field(capabilities, "hoverProvider"@) == Some(JsonModel::Bool(true))
            &&& has_just(completion, set!["triggerCharacters"@, "resolveProvider"@])
            &&& field(completion, "triggerCharacters"@) == Some(
                JsonModel::Array(seq![JsonModel::Text("$"@), JsonModel::Text("{"@)]),
            )
            &&& field(completion, "resolveProvider"@) == Some(JsonModel::Bool(true))
            &&& has_just(info, set!["name"@, "version"@])
            &&& field(info, "name"@) == Some(JsonModel::Text("gitlab-ci-bash-ls"@))
            &&& field(info, "version"@) == Some(JsonModel::Text("2.0.0"@))
        }),
{
    lemma_capability_keys();
    let result = initialize_result_model();
    let capabilities = field_or_null(result, "capabilities"@);
    let sync = field_or_null(capabilities, "textDocumentSync"@);
    let completion = field_or_null(capabilities, "completionProvider"@);
    assert(result->Object_0.dom() =~= set!["capabilities"@, "serverInfo"@]);
    assert(capabilities->Object_0.dom() =~= set![
        "textDocumentSync"@,
        "hoverProvider"@,
        "completionProvider"@,
    ]);
    assert(sync->Object_0.dom() =~= set!["openClose"@, "change"@]);
    assert(completion->Object_0.dom() =~= set!["triggerCharacters"@, "resolveProvider"@]);
    assert(name_and_version()->Object_0.dom() =~= set!["name"@, "version"@]);
}

/// Snippets are supported if and only if the client says so where it describes
/// its completion items.
pub proof fn law_snippets_are_used_if_supported(params: JsonModel)
    ensures
        supports_snippets(params) <==> under(
            params,
            seq![
                "capabilities"@,
                "textDocument"@,
                "completion"@,
                "completionItem"@,
                "snippetSupport"@,
            ],
        ) == Some(JsonModel::Bool(true)),
{
    let keys = seq![
        "capabilities"@,
        "textDocument"@,
        "completion"@,
        "completionItem"@,
        "snippetSupport"@,
    ];
    lemma_under(params, keys[0], keys[1], keys[2], keys[3]);
    assert(keys.drop_last() =~= seq![keys[0], keys[1], keys[2], keys[3]]);
    assert(keys.last() == keys[4]);
}

/// The keys of what a backend is initialized with are different texts.
proof fn lemma_server_keys()
    ensures
        ({
            let keys = seq![
                "processId"@,
                "clientInfo"@,
                "rootUri"@,
                "rootPath"@,
                "workspaceFolders"@,
                "capabilities"@,
                "initializationOptions"@,
            ];
            forall|i: int, j: int|
                0 <= i < j < keys.len() ==> #[trigger] keys[i] != #[trigger] keys[j]
        }),
        "workspace"@ != "textDocument"@,
        "synchronization"@ != "publishDiagnostics"@,
        "synchronization"@ != "hover"@,
        "synchronization"@ != "completion"@,
        "publishDiagnostics"@ != "hover"@,
        "publishDiagnostics"@ != "completion"@,
        "hover"@ != "completion"@,
{
    reveal_strlit("processId");
    reveal_strlit("clientInfo");
    reveal_strlit("rootUri");
    reveal_strlit("rootPath");
    reveal_strlit("workspaceFolders");
    reveal_strlit("capabilities");
    reveal_strlit("initializationOptions");
    reveal_strlit("workspace");
    reveal_strlit("textDocument");
    reveal_strlit("synchronization");
    reveal_strlit("publishDiagnostics");
    reveal_strlit("hover");
    reveal_strlit("completion");
    assert("processId"@.len() == 9);
    assert("clientInfo"@.len() == 10);
    assert("rootUri"@.len() == 7);
    assert("rootPath"@.len() == 8);
    assert("workspaceFolders"@.len() == 16);
    assert("capabilities"@.len() == 12);
    assert("initializationOptions"@.len() == 21);
    assert("workspace"@.len() == 9);
    assert("textDocument"@.len() == 12);
    assert("synchronization"@.len() == 15);
    assert("publishDiagnostics"@.len() == 18);
    assert("hover"@.len() == 5);
    assert("completion"@.len() == 10);
}

/// A backend is initialized for the client's workspace by the proxy, which says
/// its own name and process. bash-language-server gets its settings then;
/// yaml-language-server gets none.
pub proof fn law_backends_are_initialized_for_the_workspace(
    backend: Backend,
    params: JsonModel,
    bash_ide: JsonModel,
    process_id: int,
)
    ensures
        ({
            let sent = server_params_model(backend, params, bash_ide, process_id);
            &&& has_just(
                sent,
                set![
                    "processId"@,
                    "clientInfo"@,
                    "rootUri"@,
                    "rootPath"@,
                    "workspaceFolders"@,
                    "capabilities"@,
                    "initializationOptions"@,
                ],
            )
            &&& field(sent, "processId"@) == Some(JsonModel::Integer(process_id))
            &&& field(sent, "clientInfo"@) == field(initialize_result_model(), "serverInfo"@)
            &&& field(sent, "rootUri"@) == Some(field_or_null(params, "rootUri"@))
            &&& field(sent, "rootPath"@) == Some(field_or_null(params, "rootPath"@))
            &&& field(sent, "workspaceFolders"@) == Some(field_or_null(params, "workspaceFolders"@))
            &&& field(sent, "capabilities"@) == Some(backend_capabilities(params))
            &&& field(sent, "initializationOptions"@) == Some(
                if backend == Backend::Bash {
                    bash_ide
                } else {
                    JsonModel::Null
                },
            )
        }),
{
    lemma_server_keys();
    lemma_capability_keys();
    let keys = seq![
        "processId"@,
        "clientInfo"@,
        "rootUri"@,
        "rootPath"@,
        "workspaceFolders"@,
        "capabilities"@,
        "initializationOptions"@,
    ];
    assert(keys[0] != keys[1] && keys[0] != keys[2] && keys[0] != keys[3] && keys[0] != keys[4]
        && keys[0] != keys[5] && keys[0] != keys[6]);
    assert(keys[1] != keys[2] && keys[1] != keys[3] && keys[1] != keys[4] && keys[1] != keys[5]
        && keys[1] != keys[6]);
    assert(keys[2] != keys[3] && keys[2] != keys[4] && keys[2] != keys[5] && keys[2] != keys[6]);
    assert(keys[3] != keys[4] && keys[3] != keys[5] && keys[3] != keys[6]);
    assert(keys[4] != keys[5] && keys[4] != keys[6] && keys[5] != keys[6]);
    let sent = server_params_model(backend, params, bash_ide, process_id);
    assert(sent->Object_0.dom() =~= set![
        "processId"@,
        "clientInfo"@,
        "rootUri"@,
        "rootPath"@,
        "workspaceFolders"@,
        "capabilities"@,
        "initializationOptions"@,
    ]);
}

/// Towards a backend the proxy registers nothing dynamically, asks for the
/// versions of diagnostics, reads hovers as Markdown or plain text, and can do
/// with completions what the client can.
pub proof fn law_capabilities_towards_a_backend(params: JsonModel)
    ensures
        ({
            let capabilities = backend_capabilities(params);
            let documents = field_or_null(capabilities, "textDocument"@);
            let no = JsonModel::Bool(false);
            &&& has_just(capabilities, set!["workspace"@, "textDocument"@])
            &&& has_just(
                field_or_null(capabilities, "workspace"@),
                set!["didChangeConfiguration"@],
            )
            &&& under(
                capabilities,
                seq!["workspace"@, "didChangeConfiguration"@, "dynamicRegistration"@],
            ) == Some(no)
            &&& under(documents, seq!["synchronization"@, "dynamicRegistration"@]) == Some(no)
            &&& under(documents, seq!["publishDiagnostics"@, "versionSupport"@]) == Some(
                JsonModel::Bool(true),
            )
            &&& under(documents, seq!["hover"@, "contentFormat"@]) == Some(
                JsonModel::Array(
                    seq![JsonModel::Text("markdown"@), JsonModel::Text("plaintext"@)],
                ),
            )
            &&& field(documents, "completion"@) == under(
                params,
                seq!["capabilities"@, "textDocument"@, "completion"@],
            )
        }),
{
    lemma_server_keys();
    let capabilities = backend_capabilities(params);
    let documents = field_or_null(capabilities, "textDocument"@);
    let none = Seq::<char>::empty();
    assert(capabilities->Object_0.dom() =~= set!["workspace"@, "textDocument"@]);
    assert(field_or_null(capabilities, "workspace"@)->Object_0.dom() =~= set![
        "didChangeConfiguration"@,
    ]);
    lemma_under(
        capabilities,
        "workspace"@,
        "didChangeConfiguration"@,
        "dynamicRegistration"@,
        none,
    );
    lemma_under(documents, "synchronization"@, "dynamicRegistration"@, none, none);
    lemma_under(documents, "publishDiagnostics"@, "versionSupport"@, none, none);
    lemma_under(documents, "hover"@, "contentFormat"@, none, none);
    lemma_under(params, "capabilities"@, "textDocument"@, "completion"@, none);
}

} // verus!
