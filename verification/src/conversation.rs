//! What each message to the proxy leads to.

use vstd::prelude::*;

use crate::backend::{program_of, purpose_of, Backend};
use crate::completion::{merged_items, script_items_of};
use crate::documents::{
    all_diagnostics, current_scripts, document_at, holds_virtual, is_document, is_virtual, located,
    origin_of, virtual_at, DocumentModel, VirtualModel,
};
use crate::extract::scripts_of;
use crate::json::{
    field, field_or_null, i64_of, index_of, items_or_none, same_json, JsonModel,
};
use crate::laws::{consistent, law_virtual_documents_are_found, lemma_resynced_consistent};
use crate::mapping::{
    item_for, mapped_completion, mapped_hover, mapped_item, marked_item, TargetModel,
};
use crate::protocol::{
    change_params, diagnostics_params, document_params, error_response, initialize_result_model,
    message_params, notification, open_params, response, server_params_model, settings_params,
    supports_snippets,
};
use crate::proxy::{
    announced_all, client_message, closed_all, closed_gone, completed, completed_all,
    configuration_item, documents_without, has_id, initial, lemma_synced_keeps, notify_server, resynced,
    scripts_before, sent_to, server, server_closed, server_message, server_not_started,
    server_started, serves, show_message, stop_server, text_changed, yaml_diagnostics_before,
    ActionModel, PendingModel, ProxyModel, RequestModel, Server, StartingModel, TargetUri,
};
use crate::script::ScriptModel;
use crate::seqs::{first_index, lemma_first_from, lemma_first_from_is};
use crate::settings::settings_of;
use crate::source::source_lines;
use crate::uri::virtual_uri_of;
use crate::value::json_text;
use crate::yaml::yaml_events;

verus! {

// ---------------------------------------------------------------------------
// Answers of the backends
// ---------------------------------------------------------------------------

/// Whether a message of a backend is the answer to the `i`th request that waits
/// for one.
pub open spec fn answers(message: JsonModel, p: ProxyModel, i: int) -> bool {
    &&& 0 <= i < p.pending.len()
    &&& i64::MIN <= p.pending[i].id <= i64::MAX
    &&& field(message, "id"@) == Some(JsonModel::Integer(p.pending[i].id))
    &&& !(field(message, "method"@) matches Some(JsonModel::Text(_)))
}

/// The proxy after a request was answered: it no longer waits, and one message
/// went to the client.
pub open spec fn told_client(p: ProxyModel, i: int, message: JsonModel) -> ProxyModel {
    ProxyModel {
        pending: p.pending.remove(i),
        out: p.out.push(ActionModel::ToClient(message)),
        ..p
    }
}

proof fn lemma_answer(p: ProxyModel, backend: Backend, message: JsonModel, i: int)
    requires
        consistent(p),
        answers(message, p, i),
    ensures
        server_message(p, backend, message) == completed(
            ProxyModel { pending: p.pending.remove(i), ..p },
            p.pending[i].backend,
            p.pending[i].pending,
            Some(message),
        ),
{
    let number = p.pending[i].id;
    assert forall|k: int| 0 <= k < i implies !has_id(number)(#[trigger] p.pending[k]) by {
        assert(p.pending[k].id < p.pending[i].id);
    }
    lemma_first_from_is(p.pending, has_id(number), 0, i);
}

/// When yaml-language-server answers a hover request that was passed on to it,
/// the client gets the result as it is, under its own number. Nothing else
/// changes. An answer without a result is null.
pub proof fn law_yaml_hovers_come_back_as_they_are(
    p: ProxyModel,
    backend: Backend,
    message: JsonModel,
    i: int,
    id: JsonModel,
    result: JsonModel,
)
    requires
        consistent(p),
        answers(message, p, i),
        p.pending[i].pending == PendingModel::Hover(id, TargetUri::Yaml),
        field(message, "error"@) is None,
        field(message, "result"@) == Some(result) || (field(message, "result"@) is None && result
            == JsonModel::Null),
    ensures
        server_message(p, backend, message) == told_client(
            p,
            i,
            JsonModel::Object(
                map!["jsonrpc"@ => JsonModel::Text("2.0"@), "id"@ => id, "result"@ => result],
            ),
        ),
{
    lemma_answer(p, backend, message, i);
}

/// When bash-language-server answers a hover request, the client gets the
/// result with its range in the YAML file, under its own number.
pub proof fn law_script_hovers_come_back_mapped(
    p: ProxyModel,
    backend: Backend,
    message: JsonModel,
    i: int,
    id: JsonModel,
    uri: Seq<char>,
    result: JsonModel,
)
    requires
        consistent(p),
        answers(message, p, i),
        p.pending[i].pending == PendingModel::Hover(id, TargetUri::Script(uri)),
        field(message, "error"@) is None,
        field(message, "result"@) == Some(result) || (field(message, "result"@) is None && result
            == JsonModel::Null),
    ensures
        server_message(p, backend, message) == told_client(
            p,
            i,
            response(id, mapped_hover(result, origin_of(p.documents, uri))),
        ),
{
    lemma_answer(p, backend, message, i);
}

/// When yaml-language-server answers a completion request, the client gets its
/// items, marked, together with the items of the proxy.
pub proof fn law_yaml_completions_come_back_with_own_items(
    p: ProxyModel,
    backend: Backend,
    message: JsonModel,
    i: int,
    id: JsonModel,
    extra: Seq<JsonModel>,
    items: Seq<JsonModel>,
)
    requires
        consistent(p),
        answers(message, p, i),
        p.pending[i].pending == PendingModel::Completion(id, TargetUri::Yaml, extra),
        field(message, "error"@) is None,
    ensures
        server_message(p, backend, message) == told_client(
            p,
            i,
            response(
                id,
                merged_items(
                    mapped_completion(field_or_null(message, "result"@), TargetModel::Yaml),
                    extra,
                ),
            ),
        ),
        extra.len() == 0 && field(message, "result"@) == Some(JsonModel::Array(items))
            ==> server_message(
            p,
            backend,
            message,
        ) == told_client(
            p,
            i,
            response(
                id,
                JsonModel::Array(
                    Seq::new(items.len(), |k: int| marked_item(items[k])),
                ),
            ),
        ),
{
    lemma_answer(p, backend, message, i);
    assert(items.map_values(
        |item: JsonModel| item_for(item, TargetModel::Yaml),
    ) =~= Seq::new(items.len(), |k: int| marked_item(items[k])));
}

/// When bash-language-server answers a completion request, the client gets its
/// items with their edits in the YAML file. The proxy adds none inside scripts.
pub proof fn law_script_completions_come_back_mapped(
    p: ProxyModel,
    backend: Backend,
    message: JsonModel,
    i: int,
    id: JsonModel,
    uri: Seq<char>,
    extra: Seq<JsonModel>,
    items: Seq<JsonModel>,
)
    requires
        consistent(p),
        answers(message, p, i),
        p.pending[i].pending == PendingModel::Completion(id, TargetUri::Script(uri), extra),
        field(message, "error"@) is None,
    ensures
        server_message(p, backend, message) == told_client(
            p,
            i,
            response(
                id,
                mapped_completion(
                    field_or_null(message, "result"@),
                    TargetModel::Script(origin_of(p.documents, uri)),
                ),
            ),
        ),
        field(message, "result"@) == Some(JsonModel::Array(items)) ==> server_message(
            p,
            backend,
            message,
        ) == told_client(
            p,
            i,
            response(
                id,
                JsonModel::Array(
                    Seq::new(
                        items.len(),
                        |k: int|
                            mapped_item(items[k], origin_of(p.documents, uri)),
                    ),
                ),
            ),
        ),
{
    lemma_answer(p, backend, message, i);
    let origin = origin_of(p.documents, uri);
    assert(items.map_values(
        |item: JsonModel| item_for(item, TargetModel::Script(origin)),
    ) =~= Seq::new(items.len(), |k: int| mapped_item(items[k], origin)));
}

/// A resolved item comes back as it is.
pub proof fn law_resolved_items_come_back_as_they_are(
    p: ProxyModel,
    backend: Backend,
    message: JsonModel,
    i: int,
    id: JsonModel,
    result: JsonModel,
)
    requires
        consistent(p),
        answers(message, p, i),
        p.pending[i].pending == PendingModel::Resolve(id),
        field(message, "error"@) is None,
        field(message, "result"@) == Some(result) || (field(message, "result"@) is None && result
            == JsonModel::Null),
    ensures
        server_message(p, backend, message) == told_client(p, i, response(id, result)),
{
    lemma_answer(p, backend, message, i);
}

/// An error of a backend is the answer to the client.
pub proof fn law_errors_come_back_as_they_are(
    p: ProxyModel,
    backend: Backend,
    message: JsonModel,
    i: int,
    id: JsonModel,
    error: JsonModel,
)
    requires
        consistent(p),
        answers(message, p, i),
        match p.pending[i].pending {
            PendingModel::Hover(client, _) => client == id,
            PendingModel::Completion(client, _, _) => client == id,
            PendingModel::Resolve(client) => client == id,
            _ => false,
        },
        field(message, "error"@) == Some(error),
    ensures
        server_message(p, backend, message) == told_client(p, i, error_response(id, error)),
{
    lemma_answer(p, backend, message, i);
}

/// A message with a number that no request has changes nothing.
pub proof fn law_unknown_answers_are_ignored(
    p: ProxyModel,
    backend: Backend,
    message: JsonModel,
    id: JsonModel,
)
    requires
        field(message, "id"@) == Some(id),
        !(field(message, "method"@) matches Some(JsonModel::Text(_))),
        forall|i: int|
            0 <= i < p.pending.len() ==> id != JsonModel::Integer((#[trigger] p.pending[i]).id),
    ensures
        server_message(p, backend, message) == p,
{
    if let JsonModel::Integer(number) = id {
        lemma_first_from(p.pending, has_id(number), 0);
    }
}

/// What a client request that waits for backends leads to when one more of them
/// is done: nothing while others are left, and an answer in the end.
pub open spec fn one_less(waiting: Option<(JsonModel, int)>) -> Option<(JsonModel, int)> {
    match waiting {
        Some((id, count)) => if count > 1 {
            Some((id, count - 1))
        } else {
            None
        },
        None => None,
    }
}

/// The answer when no backend is left to wait for.
pub open spec fn answer_in_the_end(
    waiting: Option<(JsonModel, int)>,
    result: JsonModel,
) -> Seq<ActionModel> {
    match waiting {
        Some((id, count)) => if count > 1 {
            Seq::empty()
        } else {
            seq![ActionModel::ToClient(response(id, result))]
        },
        None => Seq::empty(),
    }
}

/// A backend that answers `initialize` is ready and is told so. yaml-language-server
/// gets its settings then. The client is answered when all backends are done.
pub proof fn law_initialized_backends_are_ready(
    p: ProxyModel,
    backend: Backend,
    message: JsonModel,
    i: int,
)
    requires
        consistent(p),
        answers(message, p, i),
        p.pending[i].pending == PendingModel::Initialize,
        server(p, p.pending[i].backend).running,
        field(message, "error"@) is None,
    ensures
        ({
            let q = server_message(p, backend, message);
            let end = answer_in_the_end(p.initializing, initialize_result_model());
            let ready = Server { running: true, ready: true };
            let initialized = notification("initialized"@, JsonModel::Object(Map::empty()));
            let waiting = ProxyModel {
                pending: p.pending.remove(i),
                initializing: one_less(p.initializing),
                ..p
            };
            match p.pending[i].backend {
                Backend::Bash => q == (ProxyModel {
                    bash: ready,
                    out: p.out + seq![ActionModel::ToServer(Backend::Bash, initialized)] + end,
                    ..waiting
                }),
                Backend::Yaml => q == (ProxyModel {
                    yaml: ready,
                    out: p.out + seq![
                        ActionModel::ToServer(Backend::Yaml, initialized),
                        ActionModel::ToServer(
                            Backend::Yaml,
                            notification(
                                "workspace/didChangeConfiguration"@,
                                JsonModel::Object(
                                    map![
                                        "settings"@ => JsonModel::Object(
                                            map!["yaml"@ => p.settings.yaml],
                                        ),
                                    ],
                                ),
                            ),
                        ),
                    ] + end,
                    ..waiting
                }),
            }
        }),
{
    lemma_answer(p, backend, message, i);
    let q = server_message(p, backend, message);
    let end = answer_in_the_end(p.initializing, initialize_result_model());
    let initialized = notification("initialized"@, JsonModel::Object(Map::empty()));
    match p.pending[i].backend {
        Backend::Bash => {
            assert(q.out =~= p.out + seq![ActionModel::ToServer(Backend::Bash, initialized)] + end);
        },
        Backend::Yaml => {
            assert(q.out =~= p.out + seq![
                ActionModel::ToServer(Backend::Yaml, initialized),
                ActionModel::ToServer(
                    Backend::Yaml,
                    notification(
                        "workspace/didChangeConfiguration"@,
                        JsonModel::Object(
                            map![
                                "settings"@ => JsonModel::Object(map!["yaml"@ => p.settings.yaml]),
                            ],
                        ),
                    ),
                ),
            ] + end);
        },
    }
}

/// A backend that answers `initialize` with an error is stopped, and the user
/// is told. The client is still answered when all backends are done.
pub proof fn law_backends_that_fail_to_initialize_are_stopped(
    p: ProxyModel,
    backend: Backend,
    message: JsonModel,
    i: int,
    error: JsonModel,
)
    requires
        consistent(p),
        answers(message, p, i),
        p.pending[i].pending == PendingModel::Initialize,
        field(message, "error"@) == Some(error),
    ensures
        ({
            let q = server_message(p, backend, message);
            let failed = p.pending[i].backend;
            let text = "gitlab-ci-bash-ls"@ + ": "@ + program_of(failed)
                + " failed to initialize: "@ + json_text(error);
            let stopped = Server { running: false, ready: false };
            let waiting = ProxyModel {
                pending: p.pending.remove(i),
                initializing: one_less(p.initializing),
                out: p.out + seq![
                    ActionModel::Log(text),
                    ActionModel::ToClient(
                        notification("window/showMessage"@, message_params(2, text)),
                    ),
                    ActionModel::Stop(failed),
                ] + answer_in_the_end(p.initializing, initialize_result_model()),
                ..p
            };
            match failed {
                Backend::Bash => q == (ProxyModel { bash: stopped, ..waiting }),
                Backend::Yaml => q == (ProxyModel { yaml: stopped, ..waiting }),
            }
        }),
{
    lemma_answer(p, backend, message, i);
    let q = server_message(p, backend, message);
    let failed = p.pending[i].backend;
    let text = "gitlab-ci-bash-ls"@ + ": "@ + program_of(failed) + " failed to initialize: "@
        + json_text(error);
    assert(q.out =~= p.out + seq![
        ActionModel::Log(text),
        ActionModel::ToClient(notification("window/showMessage"@, message_params(2, text))),
        ActionModel::Stop(failed),
    ] + answer_in_the_end(p.initializing, initialize_result_model()));
}

/// An answer to `shutdown`, with an error or not, counts for the client's
/// request, which is answered with null in the end.
pub proof fn law_shut_down_backends_count(
    p: ProxyModel,
    backend: Backend,
    message: JsonModel,
    i: int,
)
    requires
        consistent(p),
        answers(message, p, i),
        p.pending[i].pending == PendingModel::Shutdown,
    ensures
        server_message(p, backend, message) == (ProxyModel {
            pending: p.pending.remove(i),
            shutting_down: one_less(p.shutting_down),
            out: p.out + answer_in_the_end(p.shutting_down, JsonModel::Null),
            ..p
        }),
{
    lemma_answer(p, backend, message, i);
    assert(server_message(p, backend, message).out =~= p.out + answer_in_the_end(
        p.shutting_down,
        JsonModel::Null,
    ));
}

// ---------------------------------------------------------------------------
// Requests and notifications of the backends
// ---------------------------------------------------------------------------

/// A backend that asks for configuration gets its own settings for its own
/// section, and null for every other item, in the order of the items.
pub proof fn law_backends_get_their_settings(
    p: ProxyModel,
    backend: Backend,
    message: JsonModel,
    id: JsonModel,
    items: Seq<JsonModel>,
)
    requires
        server(p, backend).running,
        field(message, "method"@) == Some(JsonModel::Text("workspace/configuration"@)),
        field(message, "id"@) == Some(id),
        items == items_or_none(field_or_null(field_or_null(message, "params"@), "items"@)),
    ensures
        server_message(p, backend, message) == (ProxyModel {
            out: p.out.push(
                ActionModel::ToServer(
                    backend,
                    response(
                        id,
                        JsonModel::Array(
                            Seq::new(
                                items.len(),
                                |k: int|
                                    if backend == Backend::Bash && field(items[k], "section"@)
                                        == Some(JsonModel::Text("bashIde"@)) {
                                        p.settings.bash_ide
                                    } else if backend == Backend::Yaml && field(
                                        items[k],
                                        "section"@,
                                    ) == Some(JsonModel::Text("yaml"@)) {
                                        p.settings.yaml
                                    } else {
                                        JsonModel::Null
                                    },
                            ),
                        ),
                    ),
                ),
            ),
            ..p
        }),
{
    let answers = items.map_values(
        |item: JsonModel| configuration_item(p.settings, backend, item),
    );
    assert(answers =~= Seq::new(
        items.len(),
        |k: int|
            if backend == Backend::Bash && field(items[k], "section"@) == Some(
                JsonModel::Text("bashIde"@),
            ) {
                p.settings.bash_ide
            } else if backend == Backend::Yaml && field(items[k], "section"@) == Some(
                JsonModel::Text("yaml"@),
            ) {
                p.settings.yaml
            } else {
                JsonModel::Null
            },
    ));
}

/// All other requests of a backend are answered with null.
pub proof fn law_other_backend_requests_get_null(
    p: ProxyModel,
    backend: Backend,
    message: JsonModel,
    method: Seq<char>,
    id: JsonModel,
)
    requires
        server(p, backend).running,
        field(message, "method"@) == Some(JsonModel::Text(method)),
        method != "workspace/configuration"@,
        field(message, "id"@) == Some(id),
    ensures
        server_message(p, backend, message) == (ProxyModel {
            out: p.out.push(ActionModel::ToServer(backend, response(id, JsonModel::Null))),
            ..p
        }),
{
}

/// Messages of a backend for the user or the log reach the client unchanged.
pub proof fn law_messages_for_the_user_are_passed_on(
    p: ProxyModel,
    backend: Backend,
    message: JsonModel,
)
    requires
        field(message, "method"@) == Some(JsonModel::Text("window/logMessage"@)) || field(
            message,
            "method"@,
        ) == Some(JsonModel::Text("window/showMessage"@)),
        field(message, "id"@) is None,
    ensures
        server_message(p, backend, message) == (ProxyModel {
            out: p.out.push(ActionModel::ToClient(message)),
            ..p
        }),
{
    reveal_strlit("window/logMessage");
    reveal_strlit("window/showMessage");
    reveal_strlit("textDocument/publishDiagnostics");
    assert("window/logMessage"@.len() != "textDocument/publishDiagnostics"@.len());
    assert("window/showMessage"@.len() != "textDocument/publishDiagnostics"@.len());
}

/// All other notifications of a backend, and messages that are neither
/// notifications nor answers, are ignored.
pub proof fn law_other_backend_notifications_are_ignored(
    p: ProxyModel,
    backend: Backend,
    message: JsonModel,
)
    requires
        field(message, "id"@) is None,
        field(message, "method"@) != Some(JsonModel::Text("window/logMessage"@)),
        field(message, "method"@) != Some(JsonModel::Text("window/showMessage"@)),
        field(message, "method"@) != Some(JsonModel::Text("textDocument/publishDiagnostics"@)),
    ensures
        server_message(p, backend, message) == p,
{
}

/// Diagnostics for the current text of a script are kept with it, and those of
/// its file are published again, under the file's name.
pub proof fn law_script_diagnostics_are_published(
    p: ProxyModel,
    message: JsonModel,
    params: JsonModel,
    i: int,
    k: int,
    diagnostics: Seq<JsonModel>,
)
    requires
        consistent(p),
        field(message, "method"@) == Some(JsonModel::Text("textDocument/publishDiagnostics"@)),
        field(message, "id"@) is None,
        field(message, "params"@) == Some(params),
        0 <= i < p.documents.len(),
        0 <= k < p.documents[i].scripts.len(),
        field(params, "uri"@) == Some(JsonModel::Text(p.documents[i].scripts[k].uri)),
        i64_of(field_or_null(params, "version"@)) matches Some(version) ==> version
            == p.documents[i].scripts[k].version,
        diagnostics == items_or_none(field_or_null(params, "diagnostics"@)),
    ensures
        ({
            let before = p.documents[i];
            let now = DocumentModel {
                scripts: before.scripts.update(
                    k,
                    VirtualModel { diagnostics, ..before.scripts[k] },
                ),
                ..before
            };
            server_message(p, Backend::Bash, message) == (ProxyModel {
                documents: p.documents.update(i, now),
                out: p.out.push(
                    ActionModel::ToClient(
                        notification(
                            "textDocument/publishDiagnostics"@,
                            diagnostics_params(before.uri, all_diagnostics(now)),
                        ),
                    ),
                ),
                ..p
            })
        }),
{
    law_virtual_documents_are_found(p.documents, i, k);
    let before = p.documents[i];
    let now = DocumentModel {
        scripts: before.scripts.update(k, VirtualModel { diagnostics, ..before.scripts[k] }),
        ..before
    };
    let documents = p.documents.update(i, now);
    assert forall|j: int| 0 <= j < i implies !is_document(before.uri)(#[trigger] documents[j]) by {
        assert(p.documents[j].uri != p.documents[i].uri);
    }
    lemma_first_from_is(documents, is_document(before.uri), 0, i);
}

/// Diagnostics for a script that is not open, or for a file that is not open,
/// are ignored.
pub proof fn law_diagnostics_for_unknown_documents_are_ignored(
    p: ProxyModel,
    backend: Backend,
    message: JsonModel,
    params: JsonModel,
)
    requires
        field(message, "method"@) == Some(JsonModel::Text("textDocument/publishDiagnostics"@)),
        field(message, "id"@) is None,
        params == field_or_null(message, "params"@),
        forall|i: int, k: int|
            0 <= i < p.documents.len() && 0 <= k < p.documents[i].scripts.len() && backend
                == Backend::Bash ==> field(params, "uri"@) != Some(
                JsonModel::Text((#[trigger] p.documents[i].scripts[k]).uri),
            ),
        forall|i: int|
            0 <= i < p.documents.len() && backend == Backend::Yaml ==> field(params, "uri"@)
                != Some(JsonModel::Text((#[trigger] p.documents[i]).uri)),
    ensures
        server_message(p, backend, message) == p,
{
    if let Some(JsonModel::Text(uri)) = field(params, "uri"@) {
        lemma_first_from(p.documents, is_document(uri), 0);
        lemma_first_from(p.documents, holds_virtual(uri), 0);
        if let Some(i) = first_index(p.documents, holds_virtual(uri)) {
            lemma_first_from(p.documents[i].scripts, is_virtual(uri), 0);
        }
    }
}

/// Diagnostics of yaml-language-server for an open file are kept with it, and
/// all diagnostics of the file are published.
pub proof fn law_yaml_diagnostics_are_published(
    p: ProxyModel,
    message: JsonModel,
    params: JsonModel,
    i: int,
    diagnostics: Seq<JsonModel>,
)
    requires
        consistent(p),
        field(message, "method"@) == Some(JsonModel::Text("textDocument/publishDiagnostics"@)),
        field(message, "id"@) is None,
        field(message, "params"@) == Some(params),
        0 <= i < p.documents.len(),
        field(params, "uri"@) == Some(JsonModel::Text(p.documents[i].uri)),
        diagnostics == items_or_none(field_or_null(params, "diagnostics"@)),
    ensures
        ({
            let before = p.documents[i];
            let now = DocumentModel { yaml_diagnostics: diagnostics, ..before };
            server_message(p, Backend::Yaml, message) == (ProxyModel {
                documents: p.documents.update(i, now),
                out: p.out.push(
                    ActionModel::ToClient(
                        notification(
                            "textDocument/publishDiagnostics"@,
                            diagnostics_params(before.uri, all_diagnostics(now)),
                        ),
                    ),
                ),
                ..p
            })
        }),
{
    let before = p.documents[i];
    let now = DocumentModel { yaml_diagnostics: diagnostics, ..before };
    let documents = p.documents.update(i, now);
    assert forall|j: int| 0 <= j < i implies !is_document(before.uri)(#[trigger] p.documents[j]) by {
        assert(p.documents[j].uri != p.documents[i].uri);
    }
    assert forall|j: int| 0 <= j < i implies !is_document(before.uri)(#[trigger] documents[j]) by {
        assert(p.documents[j].uri != p.documents[i].uri);
    }
    lemma_first_from_is(p.documents, is_document(before.uri), 0, i);
    lemma_first_from_is(documents, is_document(before.uri), 0, i);
}

// ---------------------------------------------------------------------------
// Requests of the client
// ---------------------------------------------------------------------------

/// Whether a message is a request of the client.
pub open spec fn asks(
    message: JsonModel,
    method: Seq<char>,
    id: JsonModel,
    params: JsonModel,
) -> bool {
    &&& field(message, "method"@) == Some(JsonModel::Text(method))
    &&& field(message, "id"@) == Some(id)
    &&& field(message, "params"@) == Some(params) || (field(message, "params"@) is None && params
        == JsonModel::Null)
}

/// The proxy after a request was passed on: it has a new number, and its answer
/// is waited for.
pub open spec fn passed_on(
    p: ProxyModel,
    backend: Backend,
    method: Seq<char>,
    params: JsonModel,
    pending: PendingModel,
) -> ProxyModel {
    ProxyModel {
        next_id: p.next_id + 1,
        pending: p.pending.push(RequestModel { id: p.next_id + 1, backend, pending }),
        out: p.out.push(
            ActionModel::ToServer(
                backend,
                JsonModel::Object(
                    map![
                        "jsonrpc"@ => JsonModel::Text("2.0"@),
                        "id"@ => JsonModel::Integer(p.next_id + 1),
                        "method"@ => JsonModel::Text(method),
                        "params"@ => params,
                    ],
                ),
            ),
        ),
        ..p
    }
}

/// The proxy after it answered a request itself.
pub open spec fn replied(p: ProxyModel, message: JsonModel) -> ProxyModel {
    ProxyModel { out: p.out.push(ActionModel::ToClient(message)), ..p }
}

/// The method names of the client are different texts.
proof fn lemma_request_names()
    ensures
        "initialize"@ != "shutdown"@,
        "initialize"@ != "textDocument/hover"@,
        "initialize"@ != "textDocument/completion"@,
        "initialize"@ != "completionItem/resolve"@,
        "shutdown"@ != "textDocument/hover"@,
        "shutdown"@ != "textDocument/completion"@,
        "shutdown"@ != "completionItem/resolve"@,
        "textDocument/hover"@ != "textDocument/completion"@,
        "textDocument/hover"@ != "completionItem/resolve"@,
        "textDocument/completion"@ != "completionItem/resolve"@,
{
    reveal_strlit("initialize");
    reveal_strlit("shutdown");
    reveal_strlit("textDocument/hover");
    reveal_strlit("textDocument/completion");
    reveal_strlit("completionItem/resolve");
    assert("initialize"@.len() == 10);
    assert("shutdown"@.len() == 8);
    assert("textDocument/hover"@.len() == 18);
    assert("textDocument/completion"@.len() == 23);
    assert("completionItem/resolve"@.len() == 22);
}

/// Where a request points: a file and a position in it.
pub open spec fn points_at(
    params: JsonModel,
    uri: Seq<char>,
    line: int,
    character: int,
) -> bool {
    &&& field(params, "textDocument"@) matches Some(document) && field(document, "uri"@) == Some(
        JsonModel::Text(uri),
    )
    &&& field(params, "position"@) matches Some(position) && index_of(
        field_or_null(position, "line"@),
    ) == Some(line) && index_of(field_or_null(position, "character"@)) == Some(character)
}

/// A hover request inside a script goes to bash-language-server: to the virtual
/// document of the script and the place in it, with all other parameters kept.
pub proof fn law_hovers_in_scripts_go_to_bash(
    p: ProxyModel,
    message: JsonModel,
    id: JsonModel,
    params: Map<Seq<char>, JsonModel>,
    i: int,
    line: int,
    character: int,
    uri: Seq<char>,
    position: JsonModel,
)
    requires
        consistent(p),
        asks(message, "textDocument/hover"@, id, JsonModel::Object(params)),
        0 <= i < p.documents.len(),
        points_at(JsonModel::Object(params), p.documents[i].uri, line, character),
        located(p.documents[i], line, character) == Some((uri, position)),
        p.bash.ready && p.bash.running,
    ensures
        client_message(p, message) == passed_on(
            p,
            Backend::Bash,
            "textDocument/hover"@,
            JsonModel::Object(
                params.insert(
                    "textDocument"@,
                    JsonModel::Object(map!["uri"@ => JsonModel::Text(uri)]),
                ).insert("position"@, position),
            ),
            PendingModel::Hover(id, TargetUri::Script(uri)),
        ),
{
    lemma_request_names();
    lemma_open_file(p, i);
}

proof fn lemma_open_file(p: ProxyModel, i: int)
    requires
        consistent(p),
        0 <= i < p.documents.len(),
    ensures
        document_at(p.documents, p.documents[i].uri) == Some(i),
{
    let uri = p.documents[i].uri;
    assert forall|j: int| 0 <= j < i implies !is_document(uri)(#[trigger] p.documents[j]) by {
        assert(p.documents[j].uri != p.documents[i].uri);
    }
    lemma_first_from_is(p.documents, is_document(uri), 0, i);
}

/// A completion request inside a script goes to bash-language-server in the
/// same way.
pub proof fn law_completions_in_scripts_go_to_bash(
    p: ProxyModel,
    message: JsonModel,
    id: JsonModel,
    params: Map<Seq<char>, JsonModel>,
    i: int,
    line: int,
    character: int,
    uri: Seq<char>,
    position: JsonModel,
)
    requires
        consistent(p),
        asks(message, "textDocument/completion"@, id, JsonModel::Object(params)),
        0 <= i < p.documents.len(),
        points_at(JsonModel::Object(params), p.documents[i].uri, line, character),
        located(p.documents[i], line, character) == Some((uri, position)),
        p.bash.ready && p.bash.running,
    ensures
        client_message(p, message) == passed_on(
            p,
            Backend::Bash,
            "textDocument/completion"@,
            JsonModel::Object(
                params.insert(
                    "textDocument"@,
                    JsonModel::Object(map!["uri"@ => JsonModel::Text(uri)]),
                ).insert("position"@, position),
            ),
            PendingModel::Completion(
                id,
                TargetUri::Script(uri),
                script_items_of(
                    p.documents[i].text,
                    field_or_null(JsonModel::Object(params), "position"@),
                    p.settings.yaml,
                    p.snippets,
                ),
            ),
        ),
{
    lemma_request_names();
    lemma_open_file(p, i);
}

/// Whether a request about a file points into none of its scripts. One without
/// a position points into none.
pub open spec fn points_elsewhere(params: JsonModel, document: DocumentModel) -> bool {
    let position = field_or_null(params, "position"@);
    &&& field(params, "textDocument"@) matches Some(named) && field(named, "uri"@) == Some(
        JsonModel::Text(document.uri),
    )
    &&& match (
        index_of(field_or_null(position, "line"@)),
        index_of(field_or_null(position, "character"@)),
    ) {
        (Some(line), Some(character)) => located(document, line, character) is None,
        _ => true,
    }
}

/// A hover request outside of all scripts goes to yaml-language-server as it
/// is.
pub proof fn law_other_hovers_go_to_yaml(
    p: ProxyModel,
    message: JsonModel,
    id: JsonModel,
    params: JsonModel,
    i: int,
)
    requires
        consistent(p),
        asks(message, "textDocument/hover"@, id, params),
        0 <= i < p.documents.len(),
        points_elsewhere(params, p.documents[i]),
        p.yaml.ready && p.yaml.running,
    ensures
        client_message(p, message) == passed_on(
            p,
            Backend::Yaml,
            "textDocument/hover"@,
            params,
            PendingModel::Hover(id, TargetUri::Yaml),
        ),
{
    lemma_request_names();
    lemma_open_file(p, i);
}

/// A completion request outside of all scripts goes to yaml-language-server as
/// it is, unless the user switched YAML completion off. The items of the proxy
/// wait for the answer.
pub proof fn law_other_completions_go_to_yaml(
    p: ProxyModel,
    message: JsonModel,
    id: JsonModel,
    params: JsonModel,
    i: int,
)
    requires
        consistent(p),
        asks(message, "textDocument/completion"@, id, params),
        0 <= i < p.documents.len(),
        points_elsewhere(params, p.documents[i]),
        p.yaml.ready && p.yaml.running,
    ensures
        field(p.settings.yaml, "completion"@) != Some(JsonModel::Bool(false)) ==> client_message(
            p,
            message,
        ) == passed_on(
            p,
            Backend::Yaml,
            "textDocument/completion"@,
            params,
            PendingModel::Completion(
                id,
                TargetUri::Yaml,
                script_items_of(
                    p.documents[i].text,
                    field_or_null(params, "position"@),
                    p.settings.yaml,
                    p.snippets,
                ),
            ),
        ),
        field(p.settings.yaml, "completion"@) == Some(JsonModel::Bool(false)) ==> client_message(
            p,
            message,
        ) == replied(p, response(id, JsonModel::Null)),
{
    lemma_request_names();
    lemma_open_file(p, i);
}

/// A request that belongs to a backend that is not ready is answered with null
/// at once.
pub proof fn law_nobody_to_ask(
    p: ProxyModel,
    message: JsonModel,
    method: Seq<char>,
    id: JsonModel,
    params: JsonModel,
    i: int,
    line: int,
    character: int,
)
    requires
        consistent(p),
        asks(message, method, id, params),
        method == "textDocument/hover"@ || method == "textDocument/completion"@,
        0 <= i < p.documents.len(),
        ({
            ||| !p.bash.ready && points_at(params, p.documents[i].uri, line, character) && located(
                p.documents[i],
                line,
                character,
            ) is Some
            ||| !p.yaml.ready && points_elsewhere(params, p.documents[i])
        }),
    ensures
        client_message(p, message) == replied(p, response(id, JsonModel::Null)),
{
    lemma_request_names();
    lemma_open_file(p, i);
}

/// A backend that does not run any more is not asked. The client gets null, or
/// the items that the proxy has itself.
pub proof fn law_ended_backends_are_not_asked(
    p: ProxyModel,
    message: JsonModel,
    method: Seq<char>,
    id: JsonModel,
    params: JsonModel,
    i: int,
    line: int,
    character: int,
)
    requires
        consistent(p),
        asks(message, method, id, params),
        method == "textDocument/hover"@ || method == "textDocument/completion"@,
        0 <= i < p.documents.len(),
        ({
            ||| !p.bash.running && points_at(params, p.documents[i].uri, line, character)
                && located(p.documents[i], line, character) is Some
            ||| !p.yaml.running && points_elsewhere(params, p.documents[i])
        }),
    ensures
        ({
            let own = script_items_of(
                p.documents[i].text,
                field_or_null(params, "position"@),
                p.settings.yaml,
                p.snippets,
            );
            let offered = method == "textDocument/completion"@ && points_elsewhere(
                params,
                p.documents[i],
            ) && p.yaml.ready && field(p.settings.yaml, "completion"@) != Some(
                JsonModel::Bool(false),
            );
            client_message(p, message) == replied(
                p,
                response(
                    id,
                    if offered {
                        merged_items(JsonModel::Null, own)
                    } else {
                        JsonModel::Null
                    },
                ),
            )
        }),
{
    lemma_request_names();
    lemma_open_file(p, i);
}

/// A request about a file that is not open, or about no file, is answered with
/// null at once.
pub proof fn law_unknown_files_have_no_answers(
    p: ProxyModel,
    message: JsonModel,
    method: Seq<char>,
    id: JsonModel,
    params: JsonModel,
)
    requires
        asks(message, method, id, params),
        method == "textDocument/hover"@ || method == "textDocument/completion"@,
        forall|i: int|
            0 <= i < p.documents.len() ==> !(field(params, "textDocument"@) matches Some(document)
                && field(document, "uri"@) == Some(
                JsonModel::Text((#[trigger] p.documents[i]).uri),
            )),
    ensures
        client_message(p, message) == replied(p, response(id, JsonModel::Null)),
{
    lemma_request_names();
    if let Some(document) = field(params, "textDocument"@) {
        if let Some(JsonModel::Text(uri)) = field(document, "uri"@) {
            lemma_first_from(p.documents, is_document(uri), 0);
        }
    }
}

/// Items of bash-language-server are resolved by it, unchanged. Marked items,
/// and all items while it is not ready, are given back.
pub proof fn law_items_are_resolved_by_their_server(
    p: ProxyModel,
    message: JsonModel,
    id: JsonModel,
    item: JsonModel,
)
    requires
        asks(message, "completionItem/resolve"@, id, item),
        p.bash.ready ==> p.bash.running,
    ensures
        ({
            let marked = field(item, "data"@) matches Some(data) && field(data, "gitlabCiYaml"@)
                is Some;
            if marked || !p.bash.ready {
                client_message(p, message) == replied(p, response(id, item))
            } else {
                client_message(p, message) == passed_on(
                    p,
                    Backend::Bash,
                    "completionItem/resolve"@,
                    item,
                    PendingModel::Resolve(id),
                )
            }
        }),
{
    lemma_request_names();
}

/// All other requests are refused by their name.
pub proof fn law_other_requests_are_refused(
    p: ProxyModel,
    message: JsonModel,
    method: Seq<char>,
    id: JsonModel,
    params: JsonModel,
)
    requires
        asks(message, method, id, params),
        method != "initialize"@,
        method != "shutdown"@,
        method != "textDocument/hover"@,
        method != "textDocument/completion"@,
        method != "completionItem/resolve"@,
    ensures
        client_message(p, message) == replied(
            p,
            JsonModel::Object(
                map![
                    "jsonrpc"@ => JsonModel::Text("2.0"@),
                    "id"@ => id,
                    "error"@ => JsonModel::Object(
                        map![
                            "code"@ => JsonModel::Integer(-32601),
                            "message"@ => JsonModel::Text("unsupported method "@ + method),
                        ],
                    ),
                ],
            ),
        ),
{
}

/// Messages without a method are ignored: the proxy sends no requests to the
/// client.
pub proof fn law_answers_of_the_client_are_ignored(p: ProxyModel, message: JsonModel)
    requires
        !(field(message, "method"@) matches Some(JsonModel::Text(_))),
    ensures
        client_message(p, message) == p,
{
}

/// The client's `initialize` request sets the settings, tells whether snippets
/// are supported, and starts the first backend. It is answered later.
pub proof fn law_initialize_starts_the_backends(
    p: ProxyModel,
    message: JsonModel,
    id: JsonModel,
    params: JsonModel,
)
    requires
        asks(message, "initialize"@, id, params),
    ensures
        client_message(p, message) == (ProxyModel {
            settings: settings_of(field(params, "initializationOptions"@)),
            snippets: supports_snippets(params),
            starting: Some(
                StartingModel { id, params, backend: Backend::Bash, bash_started: false },
            ),
            out: p.out.push(ActionModel::Start(Backend::Bash)),
            ..p
        }),
{
}

/// The client's `shutdown` request is passed on to every backend that runs, and
/// waits for them. It is answered with null at once when there is none.
pub proof fn law_shutdown_reaches_all_backends(
    p: ProxyModel,
    message: JsonModel,
    id: JsonModel,
    params: JsonModel,
)
    requires
        asks(message, "shutdown"@, id, params),
    ensures
        ({
            let q = client_message(p, message);
            let asked = ProxyModel { shutdown_requested: true, ..p };
            let waiting = |count: int| ProxyModel { shutting_down: Some((id, count)), ..asked };
            let method = "shutdown"@;
            let pending = PendingModel::Shutdown;
            match (p.bash.running, p.yaml.running) {
                (false, false) => q == replied(asked, response(id, JsonModel::Null)),
                (true, false) => q == passed_on(
                    waiting(1),
                    Backend::Bash,
                    method,
                    JsonModel::Null,
                    pending,
                ),
                (false, true) => q == passed_on(
                    waiting(1),
                    Backend::Yaml,
                    method,
                    JsonModel::Null,
                    pending,
                ),
                (true, true) => q == passed_on(
                    passed_on(waiting(2), Backend::Bash, method, JsonModel::Null, pending),
                    Backend::Yaml,
                    method,
                    JsonModel::Null,
                    pending,
                ),
            }
        }),
{
    lemma_request_names();
}

// ---------------------------------------------------------------------------
// Texts
// ---------------------------------------------------------------------------

/// A notification for bash-language-server.
pub open spec fn tell_bash(method: Seq<char>, params: JsonModel) -> ActionModel {
    ActionModel::ToServer(Backend::Bash, notification(method, params))
}

/// What bash-language-server is told about a script, given those that it knows:
/// a new one is opened with its text, one with another text is changed to it,
/// and of all others nothing is said.
pub open spec fn news(known: Seq<VirtualModel>, script: VirtualModel) -> Seq<ActionModel> {
    let text = script.script.text;
    if forall|j: int| 0 <= j < known.len() ==> (#[trigger] known[j]).uri != script.uri {
        seq![tell_bash("textDocument/didOpen"@, open_params(script.uri, text))]
    } else if exists|j: int|
        0 <= j < known.len() && (#[trigger] known[j]).uri == script.uri && known[j].script.text
            != text {
        seq![
            tell_bash(
                "textDocument/didChange"@,
                change_params(script.uri, script.version, text),
            ),
        ]
    } else {
        Seq::empty()
    }
}

pub open spec fn all_news(known: Seq<VirtualModel>, scripts: Seq<VirtualModel>) -> Seq<ActionModel>
    decreases scripts.len(),
{
    if scripts.len() == 0 {
        Seq::empty()
    } else {
        all_news(known, scripts.drop_last()) + news(known, scripts.last())
    }
}

/// What bash-language-server is told about a script that it knows: it is closed
/// if the file has none with its name any more.
pub open spec fn farewell(known: VirtualModel, scripts: Seq<VirtualModel>) -> Seq<ActionModel> {
    if forall|j: int| 0 <= j < scripts.len() ==> (#[trigger] scripts[j]).uri != known.uri {
        seq![tell_bash("textDocument/didClose"@, document_params(known.uri))]
    } else {
        Seq::empty()
    }
}

pub open spec fn all_farewells(known: Seq<VirtualModel>, scripts: Seq<VirtualModel>) -> Seq<
    ActionModel,
>
    decreases known.len(),
{
    if known.len() == 0 {
        Seq::empty()
    } else {
        all_farewells(known.drop_last(), scripts) + farewell(known.last(), scripts)
    }
}

/// Whether all virtual documents have names of their own.
pub open spec fn names_differ(scripts: Seq<VirtualModel>) -> bool {
    forall|i: int, j: int|
        0 <= i < scripts.len() && 0 <= j < scripts.len() && i != j ==> (
        #[trigger] scripts[i]).uri != (#[trigger] scripts[j]).uri
}

proof fn lemma_news(p: ProxyModel, known: Seq<VirtualModel>, scripts: Seq<VirtualModel>, count: int)
    requires
        0 <= count <= scripts.len(),
        names_differ(known),
    ensures
        announced_all(p, known, scripts, count) == (ProxyModel {
            out: if p.bash.ready && p.bash.running {
                p.out + all_news(known, scripts.take(count))
            } else {
                p.out
            },
            ..p
        }),
    decreases count,
{
    let some = scripts.take(count);
    if count > 0 {
        lemma_news(p, known, scripts, count - 1);
        assert(some.drop_last() =~= scripts.take(count - 1));
        let script = scripts[count - 1];
        assert(some.last() == script);
        lemma_first_from(known, is_virtual(script.uri), 0);
        if let Some(i) = virtual_at(known, script.uri) {
            assert(known[i].uri == script.uri);
            assert forall|j: int|
                0 <= j < known.len() && (#[trigger] known[j]).uri == script.uri implies j == i by {
                if j != i {
                    assert(known[i].uri != known[j].uri);
                }
            }
        }
        if p.bash.ready && p.bash.running {
            assert(announced_all(p, known, scripts, count).out =~= p.out + all_news(known, some));
        }
    } else {
        assert(some.len() == 0);
        assert(p.out + all_news(known, some) =~= p.out);
    }
}

proof fn lemma_farewells(
    p: ProxyModel,
    known: Seq<VirtualModel>,
    scripts: Seq<VirtualModel>,
    count: int,
)
    requires
        0 <= count <= known.len(),
    ensures
        closed_gone(p, known, scripts, count) == (ProxyModel {
            out: if p.bash.ready && p.bash.running {
                p.out + all_farewells(known.take(count), scripts)
            } else {
                p.out
            },
            ..p
        }),
    decreases count,
{
    let some = known.take(count);
    if count > 0 {
        lemma_farewells(p, known, scripts, count - 1);
        assert(some.drop_last() =~= known.take(count - 1));
        let script = known[count - 1];
        assert(some.last() == script);
        lemma_first_from(scripts, is_virtual(script.uri), 0);
        if p.bash.ready && p.bash.running {
            assert(closed_gone(p, known, scripts, count).out =~= p.out + all_farewells(
                some,
                scripts,
            ));
        }
    } else {
        assert(some.len() == 0);
        assert(p.out + all_farewells(some, scripts) =~= p.out);
    }
}

/// Whether `script` is what is made of the `k`th script of a file: it is named
/// after the file, and the directive with the dialect for ShellCheck is put
/// before its text.
pub open spec fn is_made_of(
    script: VirtualModel,
    uri: Seq<char>,
    k: int,
    source: ScriptModel,
    shell: Option<Seq<char>>,
) -> bool {
    &&& script.uri == virtual_uri_of(uri, k as nat, source.name)
    &&& script.script.name == source.name
    &&& match shell {
        Some(shell) => {
            let line = "# shellcheck shell="@ + shell;
            &&& script.script.text == line.push('\n') + source.text
            &&& script.script.map == Seq::new(line.len() + 1, |i: int| None) + source.map
        },
        None => script.script == source,
    }
}

/// Whether a script is the successor of one of those that were known: its
/// version grows by one with every new text, which has no diagnostics yet.
pub open spec fn succeeds(script: VirtualModel, known: Seq<VirtualModel>) -> bool {
    &&& (forall|j: int| 0 <= j < known.len() ==> (#[trigger] known[j]).uri != script.uri)
        ==> script.version == 1 && script.diagnostics == Seq::<JsonModel>::empty()
    &&& forall|j: int|
        0 <= j < known.len() && (#[trigger] known[j]).uri == script.uri ==> if known[j].script.text
            == script.script.text {
            script.version == known[j].version && script.diagnostics == known[j].diagnostics
        } else {
            script.version == known[j].version + 1 && script.diagnostics == Seq::<
                JsonModel,
            >::empty()
        }
}

/// Whether `document` is what is known of a file with the given text, after
/// `known` were its scripts and `diagnostics` those of yaml-language-server.
pub open spec fn is_read_from(
    document: DocumentModel,
    uri: Seq<char>,
    text: Seq<char>,
    shell: Option<Seq<char>>,
    known: Seq<VirtualModel>,
    diagnostics: Seq<JsonModel>,
) -> bool {
    let sources = scripts_of(source_lines(text), yaml_events(text));
    &&& document.uri == uri
    &&& document.text == text
    &&& document.lines == source_lines(text)
    &&& document.yaml_diagnostics == diagnostics
    &&& document.scripts.len() == sources.len()
    &&& forall|k: int|
        0 <= k < sources.len() ==> is_made_of(
            #[trigger] document.scripts[k],
            uri,
            k,
            sources[k],
            shell,
        ) && succeeds(document.scripts[k], known)
}

/// What is said when a file is read again: the news about its scripts if
/// bash-language-server can hear them, and its diagnostics.
pub open spec fn said(
    p: ProxyModel,
    known: Seq<VirtualModel>,
    document: DocumentModel,
) -> Seq<ActionModel> {
    let published = seq![
        ActionModel::ToClient(
            notification(
                "textDocument/publishDiagnostics"@,
                diagnostics_params(document.uri, all_diagnostics(document)),
            ),
        ),
    ];
    if p.bash.ready && p.bash.running {
        all_news(known, document.scripts) + all_farewells(known, document.scripts) + published
    } else {
        published
    }
}

proof fn lemma_read(
    p: ProxyModel,
    rest: Seq<DocumentModel>,
    known: Seq<VirtualModel>,
    diagnostics: Seq<JsonModel>,
    uri: Seq<char>,
    text: Seq<char>,
)
    requires
        rest == documents_without(p.documents, uri),
        known == scripts_before(p.documents, uri),
        diagnostics == yaml_diagnostics_before(p.documents, uri),
        names_differ(known),
        forall|j: int| 0 <= j < rest.len() ==> (#[trigger] rest[j]).uri != uri,
    ensures
        ({
            let q = text_changed(p, uri, text);
            let document = q.documents.last();
            &&& q == (ProxyModel {
                documents: rest.push(document),
                out: p.out + said(p, known, document),
                ..p
            })
            &&& is_read_from(document, uri, text, p.settings.shell, known, diagnostics)
        }),
{
    let lines = source_lines(text);
    let sources = scripts_of(lines, yaml_events(text));
    let scripts = current_scripts(uri, known, sources, p.settings.shell);
    let document = DocumentModel { uri, text, lines, scripts, yaml_diagnostics: diagnostics };
    lemma_synced_keeps(p, uri, text, lines, sources);
    let q = text_changed(p, uri, text);
    assert(q.documents == rest.push(document));
    assert(q.documents.last() == document);
    let without = ProxyModel { documents: rest, ..p };
    lemma_news(without, known, scripts, scripts.len() as int);
    let told = announced_all(without, known, scripts, scripts.len() as int);
    lemma_farewells(told, known, scripts, known.len() as int);
    assert(scripts.take(scripts.len() as int) =~= scripts);
    assert(known.take(known.len() as int) =~= known);
    let documents = rest.push(document);
    assert forall|j: int| 0 <= j < rest.len() implies !is_document(uri)(
        #[trigger] documents[j],
    ) by {
        assert(documents[j] == rest[j]);
    }
    lemma_first_from_is(documents, is_document(uri), 0, rest.len() as int);
    assert(q.out =~= p.out + said(p, known, document));
    assert forall|k: int| 0 <= k < sources.len() implies is_made_of(
        #[trigger] scripts[k],
        uri,
        k,
        sources[k],
        p.settings.shell,
    ) && succeeds(scripts[k], known) by {
        let script = scripts[k];
        lemma_first_from(known, is_virtual(script.uri), 0);
        if let Some(i) = virtual_at(known, script.uri) {
            assert(known[i].uri == script.uri);
            assert forall|j: int|
                0 <= j < known.len() && (#[trigger] known[j]).uri == script.uri implies j == i by {
                if j != i {
                    assert(known[i].uri != known[j].uri);
                }
            }
        }
        if let Some(shell) = p.settings.shell {
            let line = "# shellcheck shell="@ + shell;
            assert(script.script.map =~= Seq::new(line.len() + 1, |i: int| None) + sources[k].map);
        }
    }
}

/// A file that was not open is read: it is the last of the open files, its
/// scripts are opened, and its diagnostics are published.
pub proof fn law_new_files_are_read(p: ProxyModel, uri: Seq<char>, text: Seq<char>)
    requires
        forall|i: int| 0 <= i < p.documents.len() ==> (#[trigger] p.documents[i]).uri != uri,
    ensures
        ({
            let q = text_changed(p, uri, text);
            let document = q.documents.last();
            &&& q == (ProxyModel {
                documents: p.documents.push(document),
                out: p.out + said(p, Seq::empty(), document),
                ..p
            })
            &&& is_read_from(document, uri, text, p.settings.shell, Seq::empty(), Seq::empty())
        }),
{
    lemma_first_from(p.documents, is_document(uri), 0);
    lemma_read(p, p.documents, Seq::empty(), Seq::empty(), uri, text);
}

/// A file that is open is read again: its scripts succeed those that it had,
/// and yaml-language-server's diagnostics stay until it sends others.
pub proof fn law_open_files_are_read_again(p: ProxyModel, i: int, text: Seq<char>)
    requires
        consistent(p),
        0 <= i < p.documents.len(),
    ensures
        ({
            let before = p.documents[i];
            let q = text_changed(p, before.uri, text);
            let document = q.documents.last();
            &&& q == (ProxyModel {
                documents: p.documents.remove(i).push(document),
                out: p.out + said(p, before.scripts, document),
                ..p
            })
            &&& is_read_from(
                document,
                before.uri,
                text,
                p.settings.shell,
                before.scripts,
                before.yaml_diagnostics,
            )
        }),
{
    let before = p.documents[i];
    let rest = p.documents.remove(i);
    lemma_open_file(p, i);
    assert forall|j: int| 0 <= j < rest.len() implies (#[trigger] rest[j]).uri != before.uri by {
        if j < i {
            assert(rest[j] == p.documents[j]);
            assert(p.documents[j].uri != p.documents[i].uri);
        } else {
            assert(rest[j] == p.documents[j + 1]);
            assert(p.documents[i].uri != p.documents[j + 1].uri);
        }
    }
    assert(names_differ(before.scripts)) by {
        assert forall|a: int, b: int|
            0 <= a < before.scripts.len() && 0 <= b < before.scripts.len() && a != b implies (
        #[trigger] before.scripts[a]).uri != (#[trigger] before.scripts[b]).uri by {
            law_virtual_documents_are_found(p.documents, i, a);
            law_virtual_documents_are_found(p.documents, i, b);
        }
    }
    lemma_read(p, rest, before.scripts, before.yaml_diagnostics, before.uri, text);
}

// ---------------------------------------------------------------------------
// Notifications of the client
// ---------------------------------------------------------------------------

/// Whether a message is a notification of the client.
pub open spec fn notifies(message: JsonModel, method: Seq<char>, params: JsonModel) -> bool {
    &&& field(message, "method"@) == Some(JsonModel::Text(method))
    &&& field(message, "id"@) is None
    &&& field(message, "params"@) == Some(params) || (field(message, "params"@) is None && params
        == JsonModel::Null)
}

/// The notification for yaml-language-server, if it can hear it.
pub open spec fn yaml_told(
    p: ProxyModel,
    method: Seq<char>,
    params: JsonModel,
) -> Seq<ActionModel> {
    if p.yaml.ready && p.yaml.running {
        seq![ActionModel::ToServer(Backend::Yaml, notification(method, params))]
    } else {
        Seq::empty()
    }
}

/// The notification for bash-language-server, if it can hear it.
pub open spec fn bash_told(
    p: ProxyModel,
    method: Seq<char>,
    params: JsonModel,
) -> Seq<ActionModel> {
    if p.bash.ready && p.bash.running {
        seq![tell_bash(method, params)]
    } else {
        Seq::empty()
    }
}

/// The notification names of the client are different texts.
proof fn lemma_notification_names()
    ensures
        "exit"@ != "textDocument/didOpen"@,
        "exit"@ != "textDocument/didChange"@,
        "exit"@ != "textDocument/didClose"@,
        "exit"@ != "workspace/didChangeConfiguration"@,
        "exit"@ != "$/cancelRequest"@,
        "textDocument/didOpen"@ != "textDocument/didChange"@,
        "textDocument/didOpen"@ != "textDocument/didClose"@,
        "textDocument/didOpen"@ != "workspace/didChangeConfiguration"@,
        "textDocument/didOpen"@ != "$/cancelRequest"@,
        "textDocument/didChange"@ != "textDocument/didClose"@,
        "textDocument/didChange"@ != "workspace/didChangeConfiguration"@,
        "textDocument/didChange"@ != "$/cancelRequest"@,
        "textDocument/didClose"@ != "workspace/didChangeConfiguration"@,
        "textDocument/didClose"@ != "$/cancelRequest"@,
        "workspace/didChangeConfiguration"@ != "$/cancelRequest"@,
{
    reveal_strlit("exit");
    reveal_strlit("textDocument/didOpen");
    reveal_strlit("textDocument/didChange");
    reveal_strlit("textDocument/didClose");
    reveal_strlit("workspace/didChangeConfiguration");
    reveal_strlit("$/cancelRequest");
    assert("exit"@.len() == 4);
    assert("textDocument/didOpen"@.len() == 20);
    assert("textDocument/didChange"@.len() == 22);
    assert("textDocument/didClose"@.len() == 21);
    assert("workspace/didChangeConfiguration"@.len() == 32);
    assert("$/cancelRequest"@.len() == 15);
}

/// An opened file is read, and yaml-language-server is told of it in the
/// client's words.
pub proof fn law_opened_files_are_read_and_passed_on(
    p: ProxyModel,
    message: JsonModel,
    params: JsonModel,
    document: JsonModel,
    uri: Seq<char>,
    text: Seq<char>,
)
    requires
        notifies(message, "textDocument/didOpen"@, params),
        field(params, "textDocument"@) == Some(document),
        field(document, "uri"@) == Some(JsonModel::Text(uri)),
        field(document, "text"@) == Some(JsonModel::Text(text)),
    ensures
        ({
            let read = text_changed(p, uri, text);
            client_message(p, message) == (ProxyModel {
                out: read.out + yaml_told(read, "textDocument/didOpen"@, params),
                ..read
            })
        }),
{
    lemma_notification_names();
    let read = text_changed(p, uri, text);
    assert(client_message(p, message).out =~= read.out + yaml_told(
        read,
        "textDocument/didOpen"@,
        params,
    ));
}

/// A changed file is read with the text of the last change, which is the whole
/// of it, and yaml-language-server is told of it in the client's words.
pub proof fn law_changed_files_are_read_and_passed_on(
    p: ProxyModel,
    message: JsonModel,
    params: JsonModel,
    document: JsonModel,
    uri: Seq<char>,
    changes: Seq<JsonModel>,
    text: Seq<char>,
)
    requires
        notifies(message, "textDocument/didChange"@, params),
        field(params, "textDocument"@) == Some(document),
        field(document, "uri"@) == Some(JsonModel::Text(uri)),
        field(params, "contentChanges"@) == Some(JsonModel::Array(changes)),
        changes.len() > 0,
        field(changes[changes.len() - 1], "text"@) == Some(JsonModel::Text(text)),
    ensures
        ({
            let read = text_changed(p, uri, text);
            client_message(p, message) == (ProxyModel {
                out: read.out + yaml_told(read, "textDocument/didChange"@, params),
                ..read
            })
        }),
{
    lemma_notification_names();
    let read = text_changed(p, uri, text);
    assert(client_message(p, message).out =~= read.out + yaml_told(
        read,
        "textDocument/didChange"@,
        params,
    ));
}

proof fn lemma_closed(p: ProxyModel, scripts: Seq<VirtualModel>, count: int)
    requires
        0 <= count <= scripts.len(),
    ensures
        closed_all(p, scripts, count) == (ProxyModel {
            out: p.out + (if p.bash.ready && p.bash.running {
                Seq::new(
                    count as nat,
                    |k: int|
                        tell_bash("textDocument/didClose"@, document_params(scripts[k].uri)),
                )
            } else {
                Seq::empty()
            }),
            ..p
        }),
    decreases count,
{
    let closing = |k: int| tell_bash("textDocument/didClose"@, document_params(scripts[k].uri));
    if count > 0 {
        lemma_closed(p, scripts, count - 1);
    }
    let now = closed_all(p, scripts, count);
    if p.bash.ready && p.bash.running {
        assert(now.out =~= p.out + Seq::new(count as nat, closing));
    } else {
        assert(now.out =~= p.out + Seq::<ActionModel>::empty());
    }
}

/// A closed file is forgotten: bash-language-server closes all its scripts, the
/// client drops its diagnostics, and yaml-language-server is told of it in the
/// client's words.
pub proof fn law_closed_files_are_dropped_and_passed_on(
    p: ProxyModel,
    message: JsonModel,
    params: JsonModel,
    document: JsonModel,
    i: int,
)
    requires
        consistent(p),
        notifies(message, "textDocument/didClose"@, params),
        0 <= i < p.documents.len(),
        field(params, "textDocument"@) == Some(document),
        field(document, "uri"@) == Some(JsonModel::Text(p.documents[i].uri)),
    ensures
        ({
            let scripts = p.documents[i].scripts;
            let closings = if p.bash.ready && p.bash.running {
                Seq::new(
                    scripts.len(),
                    |k: int|
                        tell_bash("textDocument/didClose"@, document_params(scripts[k].uri)),
                )
            } else {
                Seq::empty()
            };
            client_message(p, message) == (ProxyModel {
                documents: p.documents.remove(i),
                out: p.out + closings + seq![
                    ActionModel::ToClient(
                        notification(
                            "textDocument/publishDiagnostics"@,
                            diagnostics_params(p.documents[i].uri, Seq::empty()),
                        ),
                    ),
                ] + yaml_told(p, "textDocument/didClose"@, params),
                ..p
            })
        }),
{
    lemma_notification_names();
    lemma_open_file(p, i);
    let scripts = p.documents[i].scripts;
    let without = ProxyModel { documents: p.documents.remove(i), ..p };
    lemma_closed(without, scripts, scripts.len() as int);
    let closings = if p.bash.ready && p.bash.running {
        Seq::new(
            scripts.len(),
            |k: int| tell_bash("textDocument/didClose"@, document_params(scripts[k].uri)),
        )
    } else {
        Seq::empty()
    };
    assert(client_message(p, message).out =~= p.out + closings + seq![
        ActionModel::ToClient(
            notification(
                "textDocument/publishDiagnostics"@,
                diagnostics_params(p.documents[i].uri, Seq::empty()),
            ),
        ),
    ] + yaml_told(p, "textDocument/didClose"@, params));
}

/// What the client says of a file without its name or without a text is still
/// passed on to yaml-language-server, and changes nothing else.
pub proof fn law_incomplete_notifications_are_only_passed_on(
    p: ProxyModel,
    message: JsonModel,
    method: Seq<char>,
    params: JsonModel,
)
    requires
        notifies(message, method, params),
        method == "textDocument/didOpen"@ || method == "textDocument/didChange"@ || method
            == "textDocument/didClose"@,
        ({
            let document = field_or_null(params, "textDocument"@);
            let changes = field_or_null(params, "contentChanges"@);
            ||| !(field_or_null(document, "uri"@) is Text)
            ||| method == "textDocument/didOpen"@ && !(field_or_null(document, "text"@) is Text)
            ||| method == "textDocument/didChange"@ && !(changes is Array)
            ||| method == "textDocument/didChange"@ && changes == JsonModel::Array(Seq::empty())
            ||| method == "textDocument/didChange"@ && (changes matches JsonModel::Array(items)
                && !(field_or_null(items.last(), "text"@) is Text))
        }),
    ensures
        client_message(p, message) == (ProxyModel {
            out: p.out + yaml_told(p, method, params),
            ..p
        }),
{
    lemma_notification_names();
    assert(client_message(p, message).out =~= p.out + yaml_told(p, method, params));
}

/// A cancelled request is cancelled at the backend that works on it, if it can
/// hear that, under the number that the backend knows. The answer is still
/// waited for.
pub proof fn law_cancellations_reach_the_backend(
    p: ProxyModel,
    message: JsonModel,
    params: JsonModel,
    id: JsonModel,
    i: int,
)
    requires
        notifies(message, "$/cancelRequest"@, params),
        id == field_or_null(params, "id"@),
        0 <= i < p.pending.len(),
        serves_client(p.pending[i], id),
        forall|k: int| 0 <= k < i ==> !serves_client(#[trigger] p.pending[k], id),
    ensures
        ({
            let working = server(p, p.pending[i].backend);
            let cancelled = ActionModel::ToServer(
                p.pending[i].backend,
                notification(
                    "$/cancelRequest"@,
                    JsonModel::Object(map!["id"@ => JsonModel::Integer(p.pending[i].id)]),
                ),
            );
            client_message(p, message) == if working.ready && working.running {
                ProxyModel { out: p.out.push(cancelled), ..p }
            } else {
                p
            }
        }),
{
    lemma_notification_names();
    assert forall|k: int| 0 <= k < i implies !serves(id)(#[trigger] p.pending[k]) by {
        assert(!serves_client(p.pending[k], id));
    }
    lemma_first_from_is(p.pending, serves(id), 0, i);
}

/// Whether a request to a backend is for the client's request with this number.
pub open spec fn serves_client(request: RequestModel, id: JsonModel) -> bool {
    match request.pending {
        PendingModel::Hover(client, _) => same_json(client, id),
        PendingModel::Completion(client, _, _) => same_json(client, id),
        PendingModel::Resolve(client) => same_json(client, id),
        _ => false,
    }
}

/// Cancelling what no backend works on changes nothing.
pub proof fn law_other_cancellations_are_ignored(
    p: ProxyModel,
    message: JsonModel,
    params: JsonModel,
    id: JsonModel,
)
    requires
        notifies(message, "$/cancelRequest"@, params),
        id == field_or_null(params, "id"@),
        forall|k: int| 0 <= k < p.pending.len() ==> !serves_client(#[trigger] p.pending[k], id),
    ensures
        client_message(p, message) == p,
{
    lemma_notification_names();
    lemma_first_from(p.pending, serves(id), 0);
}

/// The proxy tells the backends that run to exit and exits, with success if and
/// only if the client asked it to shut down before.
pub proof fn law_exit_ends_everything(p: ProxyModel, message: JsonModel, params: JsonModel)
    requires
        notifies(message, "exit"@, params),
    ensures
        ({
            let exit = JsonModel::Object(
                map!["jsonrpc"@ => JsonModel::Text("2.0"@), "method"@ => JsonModel::Text("exit"@)],
            );
            let bash = if p.bash.running {
                seq![ActionModel::ToServer(Backend::Bash, exit)]
            } else {
                Seq::empty()
            };
            let yaml = if p.yaml.running {
                seq![ActionModel::ToServer(Backend::Yaml, exit)]
            } else {
                Seq::empty()
            };
            let code = if p.shutdown_requested {
                0int
            } else {
                1
            };
            client_message(p, message) == (ProxyModel {
                bash: Server { running: false, ..p.bash },
                yaml: Server { running: false, ..p.yaml },
                out: p.out + bash + yaml + seq![ActionModel::Exit(code)],
                ..p
            })
        }),
{
    let exit = JsonModel::Object(
        map!["jsonrpc"@ => JsonModel::Text("2.0"@), "method"@ => JsonModel::Text("exit"@)],
    );
    let bash = if p.bash.running {
        seq![ActionModel::ToServer(Backend::Bash, exit)]
    } else {
        Seq::empty()
    };
    let yaml = if p.yaml.running {
        seq![ActionModel::ToServer(Backend::Yaml, exit)]
    } else {
        Seq::empty()
    };
    let code = if p.shutdown_requested {
        0int
    } else {
        1
    };
    assert(client_message(p, message).out =~= p.out + bash + yaml + seq![ActionModel::Exit(code)]);
}

/// All other notifications of the client are ignored.
pub proof fn law_other_notifications_are_ignored(
    p: ProxyModel,
    message: JsonModel,
    method: Seq<char>,
    params: JsonModel,
)
    requires
        notifies(message, method, params),
        method != "exit"@,
        method != "textDocument/didOpen"@,
        method != "textDocument/didChange"@,
        method != "textDocument/didClose"@,
        method != "workspace/didChangeConfiguration"@,
        method != "$/cancelRequest"@,
    ensures
        client_message(p, message) == p,
{
}

/// What is said when files are read again one after the other.
pub open spec fn all_said(
    p: ProxyModel,
    files: Seq<DocumentModel>,
    documents: Seq<DocumentModel>,
    count: int,
) -> Seq<ActionModel>
    decreases count,
{
    if count <= 0 {
        Seq::empty()
    } else {
        all_said(p, files, documents, count - 1) + said(
            p,
            files[count - 1].scripts,
            documents[count - 1],
        )
    }
}

/// Whether `document` is what is known of a file that was read again.
pub open spec fn is_read_again(
    document: DocumentModel,
    file: DocumentModel,
    shell: Option<Seq<char>>,
) -> bool {
    is_read_from(document, file.uri, file.text, shell, file.scripts, file.yaml_diagnostics)
}

proof fn lemma_all_said_prefix(
    p: ProxyModel,
    files: Seq<DocumentModel>,
    some: Seq<DocumentModel>,
    more: Seq<DocumentModel>,
    count: int,
)
    requires
        count <= some.len() <= more.len(),
        forall|k: int| 0 <= k < some.len() ==> some[k] == #[trigger] more[k],
    ensures
        all_said(p, files, some, count) == all_said(p, files, more, count),
    decreases count,
{
    if count > 0 {
        lemma_all_said_prefix(p, files, some, more, count - 1);
        assert(some[count - 1] == more[count - 1]);
    }
}

proof fn lemma_read_again(p: ProxyModel, files: Seq<DocumentModel>, count: int) -> (done: Seq<
    DocumentModel,
>)
    requires
        consistent(p),
        files == p.documents,
        0 <= count <= files.len(),
    ensures
        done.len() == count,
        forall|k: int|
            0 <= k < count ==> is_read_again(#[trigger] done[k], files[k], p.settings.shell),
        resynced(p, files, count) == (ProxyModel {
            documents: files.skip(count) + done,
            out: p.out + all_said(p, files, done, count),
            ..p
        }),
    decreases count,
{
    if count == 0 {
        let done = Seq::<DocumentModel>::empty();
        assert(files.skip(0) + done =~= files);
        assert(p.out + all_said(p, files, done, 0) =~= p.out);
        done
    } else {
        let before = lemma_read_again(p, files, count - 1);
        let q = resynced(p, files, count - 1);
        lemma_resynced_consistent(p, files, count - 1);
        let file = files[count - 1];
        assert(q.documents[0] == file);
        law_open_files_are_read_again(q, 0, file.text);
        let r = text_changed(q, file.uri, file.text);
        let document = r.documents.last();
        let done = before.push(document);
        assert(q.documents.remove(0).push(document) =~= files.skip(count) + done);
        lemma_all_said_prefix(p, files, before, done, count - 1);
        assert(said(q, file.scripts, document) == said(p, file.scripts, document));
        assert(r.out =~= p.out + all_said(p, files, done, count));
        assert forall|k: int| 0 <= k < count implies is_read_again(
            #[trigger] done[k],
            files[k],
            p.settings.shell,
        ) by {
            if k < count - 1 {
                assert(done[k] == before[k]);
            }
        }
        done
    }
}

/// New settings are passed on to the backends, each its own, and all files are
/// read again with them, in their order and with the texts that they have.
pub proof fn law_new_settings_are_passed_on(
    p: ProxyModel,
    message: JsonModel,
    params: JsonModel,
)
    requires
        consistent(p),
        notifies(message, "workspace/didChangeConfiguration"@, params),
    ensures
        ({
            let q = client_message(p, message);
            let settings = settings_of(field(params, "settings"@));
            let method = "workspace/didChangeConfiguration"@;
            let count = p.documents.len();
            &&& q.documents.len() == count
            &&& forall|k: int|
                0 <= k < count ==> is_read_again(
                    #[trigger] q.documents[k],
                    p.documents[k],
                    settings.shell,
                )
            &&& q == (ProxyModel {
                settings,
                documents: q.documents,
                out: p.out + bash_told(
                    p,
                    method,
                    JsonModel::Object(
                        map![
                            "settings"@ => JsonModel::Object(
                                map!["bashIde"@ => settings.bash_ide],
                            ),
                        ],
                    ),
                ) + yaml_told(
                    p,
                    method,
                    JsonModel::Object(
                        map!["settings"@ => JsonModel::Object(map!["yaml"@ => settings.yaml])],
                    ),
                ) + all_said(p, p.documents, q.documents, count as int),
                ..p
            })
        }),
{
    lemma_notification_names();
    let q = client_message(p, message);
    let settings = settings_of(field(params, "settings"@));
    let method = "workspace/didChangeConfiguration"@;
    let out = p.out + bash_told(
        p,
        method,
        JsonModel::Object(
            map!["settings"@ => JsonModel::Object(map!["bashIde"@ => settings.bash_ide])],
        ),
    ) + yaml_told(
        p,
        method,
        JsonModel::Object(map!["settings"@ => JsonModel::Object(map!["yaml"@ => settings.yaml])]),
    );
    let told = notify_server(
        notify_server(
            ProxyModel { settings, ..p },
            Backend::Bash,
            method,
            settings_params("bashIde"@, settings.bash_ide),
        ),
        Backend::Yaml,
        method,
        settings_params("yaml"@, settings.yaml),
    );
    assert(told.out =~= out);
    let count = p.documents.len() as int;
    let done = lemma_read_again(told, p.documents, count);
    assert(p.documents.skip(count) + done =~= done);
    lemma_all_said_servers(told, p, p.documents, done, count);
}

proof fn lemma_all_said_servers(
    p: ProxyModel,
    q: ProxyModel,
    files: Seq<DocumentModel>,
    documents: Seq<DocumentModel>,
    count: int,
)
    requires
        p.bash == q.bash,
    ensures
        all_said(p, files, documents, count) == all_said(q, files, documents, count),
    decreases count,
{
    if count > 0 {
        lemma_all_said_servers(p, q, files, documents, count - 1);
    }
}

// ---------------------------------------------------------------------------
// Starting and ending
// ---------------------------------------------------------------------------

/// What follows when a backend was started or not: the other backend is
/// started, and in the end the client waits for those that run, or is answered.
pub open spec fn starting_goes_on(
    p: ProxyModel,
    starting: StartingModel,
    started: bool,
) -> ProxyModel {
    match (starting.backend, starting.bash_started, started) {
        (Backend::Bash, _, _) => ProxyModel {
            starting: Some(
                StartingModel { backend: Backend::Yaml, bash_started: started, ..starting },
            ),
            out: p.out.push(ActionModel::Start(Backend::Yaml)),
            ..p
        },
        (Backend::Yaml, false, false) => ProxyModel {
            starting: None,
            out: p.out.push(
                ActionModel::ToClient(response(starting.id, initialize_result_model())),
            ),
            ..p
        },
        (Backend::Yaml, true, true) => ProxyModel {
            starting: None,
            initializing: Some((starting.id, 2)),
            ..p
        },
        (Backend::Yaml, _, _) => ProxyModel {
            starting: None,
            initializing: Some((starting.id, 1)),
            ..p
        },
    }
}

/// A backend that was started runs and is asked to initialize, with what the
/// client said of itself.
pub proof fn law_started_backends_are_initialized(p: ProxyModel, starting: StartingModel)
    requires
        p.starting == Some(starting),
    ensures
        ({
            let backend = starting.backend;
            let runs = match backend {
                Backend::Bash => ProxyModel { bash: Server { running: true, ..p.bash }, ..p },
                Backend::Yaml => ProxyModel { yaml: Server { running: true, ..p.yaml }, ..p },
            };
            server_started(p) == starting_goes_on(
                passed_on(
                    runs,
                    backend,
                    "initialize"@,
                    server_params_model(
                        backend,
                        starting.params,
                        p.settings.bash_ide,
                        p.process_id,
                    ),
                    PendingModel::Initialize,
                ),
                starting,
                true,
            )
        }),
{
}

/// The user is told about a backend that cannot be started, and what it is good
/// for.
pub proof fn law_missing_backends_are_reported(
    p: ProxyModel,
    starting: StartingModel,
    path: Seq<char>,
    error: Seq<char>,
)
    requires
        p.starting == Some(starting),
    ensures
        ({
            let text = "gitlab-ci-bash-ls"@ + ": could not start `"@ + path + "` ("@ + error
                + "). Install "@ + program_of(starting.backend) + " for "@ + purpose_of(
                starting.backend,
            ) + "."@;
            server_not_started(p, path, error) == starting_goes_on(
                ProxyModel {
                    out: p.out + seq![
                        ActionModel::Log(text),
                        ActionModel::ToClient(
                            notification("window/showMessage"@, message_params(2, text)),
                        ),
                    ],
                    ..p
                },
                starting,
                false,
            )
        }),
{
    let text = "gitlab-ci-bash-ls"@ + ": could not start `"@ + path + "` ("@ + error
        + "). Install "@ + program_of(starting.backend) + " for "@ + purpose_of(starting.backend)
        + "."@;
    assert(show_message(p, 2, text).out =~= p.out + seq![
        ActionModel::Log(text),
        ActionModel::ToClient(notification("window/showMessage"@, message_params(2, text))),
    ]);
}

/// What the client gets when a backend ends before it answers.
pub open spec fn answer_without_backend(pending: PendingModel) -> Option<JsonModel> {
    match pending {
        PendingModel::Hover(id, _) => Some(response(id, JsonModel::Null)),
        PendingModel::Resolve(id) => Some(response(id, JsonModel::Null)),
        PendingModel::Completion(id, TargetUri::Script(_), _) => Some(
            response(id, JsonModel::Null),
        ),
        PendingModel::Completion(id, TargetUri::Yaml, extra) => Some(
            response(id, merged_items(JsonModel::Null, extra)),
        ),
        _ => None,
    }
}

proof fn lemma_completed_all_says(
    p: ProxyModel,
    requests: Seq<RequestModel>,
    i: int,
    message: JsonModel,
)
    requires
        0 <= i < requests.len(),
        answer_without_backend(requests[i].pending) == Some(message),
    ensures
        p.out.is_prefix_of(completed_all(p, requests).out),
        completed_all(p, requests).out.skip(p.out.len() as int).contains(
            ActionModel::ToClient(message),
        ),
    decreases requests.len(),
{
    let before = completed_all(p, requests.drop_last());
    let last = requests.last();
    let after = completed_all(p, requests);
    lemma_completed_all_out(p, requests.drop_last());
    assert(before.out.is_prefix_of(after.out));
    let from = p.out.len() as int;
    if i == requests.len() - 1 {
        assert(after.out.last() == ActionModel::ToClient(message));
        assert(after.out.skip(from)[after.out.len() - 1 - from] == ActionModel::ToClient(message));
    } else {
        lemma_completed_all_says(p, requests.drop_last(), i, message);
        let k = choose|k: int|
            0 <= k < before.out.skip(from).len() && before.out.skip(from)[k]
                == ActionModel::ToClient(message);
        assert(after.out.skip(from)[k] == ActionModel::ToClient(message));
    }
}

proof fn lemma_completed_all_out(p: ProxyModel, requests: Seq<RequestModel>)
    ensures
        p.out.is_prefix_of(completed_all(p, requests).out),
        completed_all(p, requests).shutdown_requested == p.shutdown_requested,
        completed_all(p, requests).settings == p.settings,
        completed_all(p, requests).documents == p.documents,
        completed_all(p, requests).pending == p.pending,
        completed_all(p, requests).next_id == p.next_id,
    decreases requests.len(),
{
    if requests.len() > 0 {
        lemma_completed_all_out(p, requests.drop_last());
    }
}

/// A backend that ended is stopped. Every request of the client that it worked
/// on is answered: with null, or with the items that the proxy has itself.
/// Those of the other backend go on waiting. The user is told in the end, unless
/// the backend did not run any more or the client asked to shut down.
pub proof fn law_ended_backends_leave_answers(p: ProxyModel, backend: Backend)
    ensures
        ({
            let q = server_closed(p, backend);
            let since = q.out.skip(p.out.len() as int);
            let text = "gitlab-ci-bash-ls"@ + ": "@ + program_of(backend)
                + " exited unexpectedly"@;
            let note = ActionModel::ToClient(
                notification("window/showMessage"@, message_params(1, text)),
            );
            &&& p.out.is_prefix_of(q.out)
            &&& since.len() > 0
            &&& since[0] == ActionModel::Stop(backend)
            &&& forall|i: int|
                0 <= i < p.pending.len() && (#[trigger] p.pending[i]).backend == backend ==> (
                answer_without_backend(p.pending[i].pending) matches Some(message)
                    ==> since.contains(ActionModel::ToClient(message)))
            &&& q.pending == p.pending.filter(|request: RequestModel| request.backend != backend)
            &&& q.documents == p.documents
            &&& q.settings == p.settings
            &&& match backend {
                Backend::Bash => q.bash == (Server { running: false, ready: false }) && q.yaml
                    == p.yaml,
                Backend::Yaml => q.yaml == (Server { running: false, ready: false }) && q.bash
                    == p.bash,
            }
            &&& (match backend {
                Backend::Bash => p.bash.running,
                Backend::Yaml => p.yaml.running,
            }) && !p.shutdown_requested ==> q.out.last() == note && q.out[q.out.len() - 2]
                == ActionModel::Log(text)
        }),
{
    let q = server_closed(p, backend);
    let stopped = stop_server(p, backend);
    let start = ProxyModel {
        pending: p.pending.filter(|request: RequestModel| request.backend != backend),
        ..stopped
    };
    let requests = p.pending.filter(sent_to(backend));
    let done = completed_all(start, requests);
    lemma_completed_all_out(start, requests);
    assert forall|k: int| 0 <= k < requests.len() implies (#[trigger] requests[k]).backend
        == backend by {
        p.pending.lemma_filter_pred(sent_to(backend), k);
    }
    lemma_completed_all_servers(start, requests, backend);
    let from = p.out.len() as int;
    let since = q.out.skip(from);
    assert(start.out =~= p.out.push(ActionModel::Stop(backend)));
    assert(done.out.subrange(0, start.out.len() as int)[from] == ActionModel::Stop(backend));
    assert(p.out =~= done.out.subrange(0, start.out.len() as int).take(from));
    assert(done.out.is_prefix_of(q.out));
    assert(q.out.subrange(0, done.out.len() as int)[from] == ActionModel::Stop(backend));
    assert(since[0] == q.out[from]);
    assert(p.out =~= q.out.subrange(0, from));
    assert forall|i: int|
        0 <= i < p.pending.len() && (#[trigger] p.pending[i]).backend == backend implies (
    answer_without_backend(p.pending[i].pending) matches Some(message) ==> since.contains(
        ActionModel::ToClient(message),
    )) by {
        if let Some(message) = answer_without_backend(p.pending[i].pending) {
            p.pending.lemma_filter_contains(sent_to(backend), i);
            let k = choose|k: int| 0 <= k < requests.len() && requests[k] == p.pending[i];
            lemma_completed_all_says(start, requests, k, message);
            let later = done.out.skip(start.out.len() as int);
            let j = choose|j: int|
                0 <= j < later.len() && later[j] == ActionModel::ToClient(message);
            assert(since[j + 1] == later[j]);
        }
    }
}

proof fn lemma_completed_all_servers(
    p: ProxyModel,
    requests: Seq<RequestModel>,
    backend: Backend,
)
    requires
        forall|k: int| 0 <= k < requests.len() ==> (#[trigger] requests[k]).backend == backend,
        server(p, backend) == (Server { running: false, ready: false }),
    ensures
        completed_all(p, requests).bash == p.bash,
        completed_all(p, requests).yaml == p.yaml,
    decreases requests.len(),
{
    if requests.len() > 0 {
        assert(requests.last().backend == backend);
        assert forall|k: int| 0 <= k < requests.len() - 1 implies (
        #[trigger] requests.drop_last()[k]).backend == backend by {
            assert(requests[k].backend == backend);
        }
        lemma_completed_all_servers(p, requests.drop_last(), backend);
    }
}

/// The client's `initialize` and `shutdown` requests do not wait for a backend
/// that ended. One that ends while it initializes is reported as such.
pub proof fn law_ended_backends_are_not_waited_for(
    p: ProxyModel,
    backend: Backend,
    request: RequestModel,
)
    requires
        p.pending.filter(sent_to(backend)) == seq![request],
        request.backend == backend,
        request.pending is Initialize || request.pending is Shutdown,
    ensures
        ({
            let q = server_closed(p, backend);
            let text = "gitlab-ci-bash-ls"@ + ": "@ + program_of(backend)
                + " failed to initialize: "@ + "it exited"@;
            let note = "gitlab-ci-bash-ls"@ + ": "@ + program_of(backend)
                + " exited unexpectedly"@;
            let said = |kind: int, text: Seq<char>|
                seq![
                    ActionModel::Log(text),
                    ActionModel::ToClient(
                        notification("window/showMessage"@, message_params(kind, text)),
                    ),
                ];
            let end = if server(p, backend).running && !p.shutdown_requested {
                said(1, note)
            } else {
                Seq::empty()
            };
            let stop = seq![ActionModel::Stop(backend)];
            &&& request.pending is Initialize ==> q.initializing == one_less(p.initializing)
                && q.shutting_down == p.shutting_down && q.out == p.out + stop + said(2, text)
                + stop + answer_in_the_end(p.initializing, initialize_result_model()) + end
            &&& request.pending is Shutdown ==> q.shutting_down == one_less(p.shutting_down)
                && q.initializing == p.initializing && q.out == p.out + stop + answer_in_the_end(
                p.shutting_down,
                JsonModel::Null,
            ) + end
        }),
{
    let requests = seq![request];
    let start = ProxyModel {
        pending: p.pending.filter(|request: RequestModel| request.backend != backend),
        ..stop_server(p, backend)
    };
    assert(requests.drop_last() =~= Seq::empty());
    assert(completed_all(start, requests.drop_last()) == start);
    assert(completed_all(start, requests) == completed(start, backend, request.pending, None));
}

/// The proxy starts out with no backend, no file and no request, with the
/// settings that hold without any, and with nothing to do.
pub proof fn law_the_proxy_starts_with_nothing(process_id: int)
    ensures
        initial(process_id) == (ProxyModel {
            bash: Server { running: false, ready: false },
            yaml: Server { running: false, ready: false },
            next_id: 0,
            pending: Seq::empty(),
            starting: None,
            initializing: None,
            shutting_down: None,
            shutdown_requested: false,
            documents: Seq::empty(),
            settings: settings_of(None),
            snippets: false,
            process_id,
            out: Seq::empty(),
        }),
{
}

/// What is said of a backend that was not to be started changes nothing.
pub proof fn law_only_expected_backends_are_started(
    p: ProxyModel,
    path: Seq<char>,
    error: Seq<char>,
)
    requires
        p.starting is None,
    ensures
        server_started(p) == p,
        server_not_started(p, path, error) == p,
{
}

/// Closing a file that is not open is only passed on.
pub proof fn law_closing_unknown_files_is_only_passed_on(
    p: ProxyModel,
    message: JsonModel,
    params: JsonModel,
    document: JsonModel,
    uri: Seq<char>,
)
    requires
        notifies(message, "textDocument/didClose"@, params),
        field(params, "textDocument"@) == Some(document),
        field(document, "uri"@) == Some(JsonModel::Text(uri)),
        forall|i: int| 0 <= i < p.documents.len() ==> (#[trigger] p.documents[i]).uri != uri,
    ensures
        client_message(p, message) == (ProxyModel {
            out: p.out + yaml_told(p, "textDocument/didClose"@, params),
            ..p
        }),
{
    lemma_notification_names();
    lemma_first_from(p.documents, is_document(uri), 0);
    assert(client_message(p, message).out =~= p.out + yaml_told(
        p,
        "textDocument/didClose"@,
        params,
    ));
}

} // verus!
