//! What holds of the proxy as a whole, over several messages.

use vstd::prelude::*;

use crate::backend::Backend;
use crate::documents::{
    all_diagnostics, current_scripts, document_at, holds_virtual, is_document, is_virtual, owner_of,
    updated, virtual_at, DocumentModel, VirtualModel,
};
use crate::extract::scripts_of;
use crate::json::{field, field_or_null, i64_of, text_of, JsonModel};
use crate::mapping::marked_item;
use crate::protocol::{
    diagnostics_params, error_object, error_response, initialize_result_model, notification,
    response, METHOD_NOT_FOUND,
};
use crate::proxy::{
    ActionModel, PendingModel, ProxyModel, RequestModel, Server, TargetUri, announced_all,
    changed_if, client_id, client_message, client_notification, client_request, closed_all,
    closed_gone, completed, completed_all, completion_result, documents_without, exited,
    file_closed, forward_positional, has_id, hover_result, initial, initialize, initialized_one,
    last_change, lemma_synced_keeps, lemma_synced_out, locate, moved_params, notify_server,
    own_items, positional, requested, resolve, respond, respond_with, resynced, same_but_out,
    script_diagnosed, scripts_before, sent_to, server, server_closed, server_message,
    server_not_started, server_started, shut_down_one, shutdown, shutdown_server, stop_server,
    synced, text_changed, unsupported, with_server, yaml_diagnosed,
};
use crate::script::ScriptModel;
use crate::seqs::{first_index, lemma_first_from, lemma_first_from_is};
use crate::source::source_lines;
use crate::uri::{law_virtual_uris_are_distinct, virtual_uri_of};
use crate::yaml::yaml_events;

verus! {

// ---------------------------------------------------------------------------
// Consistency
// ---------------------------------------------------------------------------

/// Every open file is known once, and its virtual documents are named after it.
pub open spec fn documents_consistent(documents: Seq<DocumentModel>) -> bool {
    &&& forall|i: int, j: int|
        0 <= i < j < documents.len() ==> (#[trigger] documents[i]).uri != (
        #[trigger] documents[j]).uri
    &&& forall|i: int, k: int|
        0 <= i < documents.len() && 0 <= k < documents[i].scripts.len()
            ==> (#[trigger] documents[i].scripts[k]).uri == virtual_uri_of(
            documents[i].uri,
            k as nat,
            documents[i].scripts[k].script.name,
        )
}

/// Every request that waits for an answer has a number of its own.
pub open spec fn numbers_consistent(p: ProxyModel) -> bool {
    &&& forall|i: int, j: int|
        0 <= i < j < p.pending.len() ==> (#[trigger] p.pending[i]).id < (
        #[trigger] p.pending[j]).id
    &&& forall|i: int| 0 <= i < p.pending.len() ==> (#[trigger] p.pending[i]).id <= p.next_id
}

pub open spec fn consistent(p: ProxyModel) -> bool {
    numbers_consistent(p) && documents_consistent(p.documents)
}

/// The proxy starts out consistent.
pub proof fn law_initial_state_is_consistent(process_id: int)
    ensures
        consistent(initial(process_id)),
{
}

proof fn lemma_completed_keeps(
    p: ProxyModel,
    backend: Backend,
    pending: PendingModel,
    reply: Option<JsonModel>,
)
    ensures
        completed(p, backend, pending, reply).pending == p.pending,
        completed(p, backend, pending, reply).next_id == p.next_id,
        completed(p, backend, pending, reply).documents == p.documents,
        reply is None ==> forall|other: Backend|
            (#[trigger] server(completed(p, backend, pending, reply), other)).ready
                ==> server(p, other).ready,
{
}

proof fn lemma_requested_consistent(
    p: ProxyModel,
    backend: Backend,
    method: Seq<char>,
    params: JsonModel,
    pending: PendingModel,
)
    requires
        consistent(p),
    ensures
        consistent(requested(p, backend, method, params, pending)),
        requested(p, backend, method, params, pending).documents == p.documents,
{
    lemma_completed_keeps(p, backend, pending, None);
}

proof fn lemma_synced_consistent(
    p: ProxyModel,
    uri: Seq<char>,
    text: Seq<char>,
    lines: Seq<Seq<char>>,
    scripts: Seq<ScriptModel>,
)
    requires
        consistent(p),
    ensures
        consistent(synced(p, uri, text, lines, scripts)),
{
    lemma_synced_keeps(p, uri, text, lines, scripts);
    lemma_first_from(p.documents, is_document(uri), 0);
    let now = synced(p, uri, text, lines, scripts).documents;
    let rest = documents_without(p.documents, uri);
    assert(now.drop_last() =~= rest);
    assert forall|i: int| 0 <= i < rest.len() implies (#[trigger] rest[i]).uri != uri by {
        match document_at(p.documents, uri) {
            Some(at) => {
                let from = if i < at {
                    i
                } else {
                    i + 1
                };
                assert(rest[i] == p.documents[from]);
                assert(p.documents[at].uri == uri);
            },
            None => {
                assert(!is_document(uri)(p.documents[i]));
            },
        }
    }
    assert(documents_consistent(rest)) by {
        lemma_removed_consistent(p.documents, uri);
    }
    let document = now.last();
    assert forall|i: int, j: int| 0 <= i < j < now.len() implies (#[trigger] now[i]).uri != (
    #[trigger] now[j]).uri by {
        assert(now[i] == rest[i]);
        if j < rest.len() {
            assert(now[j] == rest[j]);
        }
    }
    assert forall|i: int, k: int|
        0 <= i < now.len() && 0 <= k < now[i].scripts.len() implies (
    #[trigger] now[i].scripts[k]).uri == virtual_uri_of(
        now[i].uri,
        k as nat,
        now[i].scripts[k].script.name,
    ) by {
        if i < rest.len() {
            assert(now[i] == rest[i]);
            assert(rest[i].scripts[k].uri == virtual_uri_of(
                rest[i].uri,
                k as nat,
                rest[i].scripts[k].script.name,
            ));
        }
    }
}

proof fn lemma_removed_consistent(documents: Seq<DocumentModel>, uri: Seq<char>)
    requires
        documents_consistent(documents),
    ensures
        documents_consistent(documents_without(documents, uri)),
{
    lemma_first_from(documents, is_document(uri), 0);
    let rest = documents_without(documents, uri);
    if let Some(at) = document_at(documents, uri) {
        assert forall|i: int, j: int| 0 <= i < j < rest.len() implies (#[trigger] rest[i]).uri != (
        #[trigger] rest[j]).uri by {
            let a = if i < at {
                i
            } else {
                i + 1
            };
            let b = if j < at {
                j
            } else {
                j + 1
            };
            assert(rest[i] == documents[a]);
            assert(rest[j] == documents[b]);
        }
        assert forall|i: int, k: int|
            0 <= i < rest.len() && 0 <= k < rest[i].scripts.len() implies (
        #[trigger] rest[i].scripts[k]).uri == virtual_uri_of(
            rest[i].uri,
            k as nat,
            rest[i].scripts[k].script.name,
        ) by {
            let a = if i < at {
                i
            } else {
                i + 1
            };
            assert(rest[i] == documents[a]);
            assert(documents[a].scripts[k].uri == virtual_uri_of(
                documents[a].uri,
                k as nat,
                documents[a].scripts[k].script.name,
            ));
        }
    }
}

proof fn lemma_text_changed_consistent(p: ProxyModel, uri: Seq<char>, text: Seq<char>)
    requires
        consistent(p),
    ensures
        consistent(text_changed(p, uri, text)),
{
    lemma_synced_consistent(
        p,
        uri,
        text,
        source_lines(text),
        scripts_of(source_lines(text), yaml_events(text)),
    );
}

pub proof fn lemma_resynced_consistent(p: ProxyModel, files: Seq<DocumentModel>, count: int)
    requires
        consistent(p),
    ensures
        consistent(resynced(p, files, count)),
    decreases count,
{
    if count > 0 {
        lemma_resynced_consistent(p, files, count - 1);
        lemma_text_changed_consistent(
            resynced(p, files, count - 1),
            files[count - 1].uri,
            files[count - 1].text,
        );
    }
}

proof fn lemma_closed_all_keeps(p: ProxyModel, scripts: Seq<VirtualModel>, count: int)
    ensures
        same_but_out(p, closed_all(p, scripts, count)),
    decreases count,
{
    if count > 0 {
        lemma_closed_all_keeps(p, scripts, count - 1);
    }
}

/// Every message from the client keeps the proxy consistent.
pub proof fn law_client_messages_keep_consistency(p: ProxyModel, message: JsonModel)
    requires
        consistent(p),
    ensures
        consistent(client_message(p, message)),
{
    if let Some(JsonModel::Text(method)) = field(message, "method"@) {
        let params = field_or_null(message, "params"@);
        match field(message, "id"@) {
            Some(id) => {
                lemma_client_request_consistent(p, method, id, params);
            },
            None => {
                lemma_client_notification_consistent(p, method, params);
            },
        }
    }
}

proof fn lemma_client_request_consistent(
    p: ProxyModel,
    method: Seq<char>,
    id: JsonModel,
    params: JsonModel,
)
    requires
        consistent(p),
    ensures
        consistent(client_request(p, method, id, params)),
{
    if method == "initialize"@ {
    } else if method == "shutdown"@ {
        let asked = ProxyModel { shutdown_requested: true, ..p };
        let one = ProxyModel { shutting_down: Some((id, 1)), ..asked };
        let two = ProxyModel { shutting_down: Some((id, 2)), ..asked };
        lemma_requested_consistent(
            one,
            Backend::Bash,
            "shutdown"@,
            JsonModel::Null,
            PendingModel::Shutdown,
        );
        lemma_requested_consistent(
            one,
            Backend::Yaml,
            "shutdown"@,
            JsonModel::Null,
            PendingModel::Shutdown,
        );
        lemma_requested_consistent(
            two,
            Backend::Bash,
            "shutdown"@,
            JsonModel::Null,
            PendingModel::Shutdown,
        );
        lemma_requested_consistent(
            shutdown_server(two, Backend::Bash),
            Backend::Yaml,
            "shutdown"@,
            JsonModel::Null,
            PendingModel::Shutdown,
        );
    } else if method == "textDocument/hover"@ {
        lemma_forward_consistent(p, method, id, params, None);
    } else if method == "textDocument/completion"@ {
        lemma_forward_consistent(p, method, id, params, Some(own_items(p, params)));
    } else if method == "completionItem/resolve"@ {
        lemma_requested_consistent(
            p,
            Backend::Bash,
            "completionItem/resolve"@,
            params,
            PendingModel::Resolve(id),
        );
    }
}

proof fn lemma_forward_consistent(
    p: ProxyModel,
    method: Seq<char>,
    id: JsonModel,
    params: JsonModel,
    extra: Option<Seq<JsonModel>>,
)
    requires
        consistent(p),
    ensures
        consistent(forward_positional(p, method, id, params, extra)),
{
    if let Some(uri) = text_of(field_or_null(field_or_null(params, "textDocument"@), "uri"@)) {
        match locate(p, uri, params) {
            Some((virtual_uri, position)) => {
                lemma_requested_consistent(
                    p,
                    Backend::Bash,
                    method,
                    moved_params(params, virtual_uri, position),
                    positional(id, TargetUri::Script(virtual_uri), extra),
                );
            },
            None => {
                lemma_requested_consistent(
                    p,
                    Backend::Yaml,
                    method,
                    params,
                    positional(id, TargetUri::Yaml, extra),
                );
            },
        }
    }
}

proof fn lemma_client_notification_consistent(p: ProxyModel, method: Seq<char>, params: JsonModel)
    requires
        consistent(p),
    ensures
        consistent(client_notification(p, method, params)),
{
    let document = field_or_null(params, "textDocument"@);
    let uri = text_of(field_or_null(document, "uri"@));
    if method == "exit"@ {
    } else if method == "textDocument/didOpen"@ {
        if let (Some(uri), Some(text)) = (uri, text_of(field_or_null(document, "text"@))) {
            lemma_text_changed_consistent(p, uri, text);
        }
    } else if method == "textDocument/didChange"@ {
        if let (Some(uri), Some(text)) = (uri, last_change(params)) {
            lemma_text_changed_consistent(p, uri, text);
        }
    } else if method == "textDocument/didClose"@ {
        if let Some(uri) = uri {
            if let Some(i) = document_at(p.documents, uri) {
                let scripts = p.documents[i].scripts;
                lemma_removed_consistent(p.documents, uri);
                lemma_closed_all_keeps(
                    ProxyModel { documents: p.documents.remove(i), ..p },
                    scripts,
                    scripts.len() as int,
                );
            }
        }
    } else if method == "workspace/didChangeConfiguration"@ {
        let settings = crate::settings::settings_of(field(params, "settings"@));
        let told = notify_server(
            notify_server(
                ProxyModel { settings, ..p },
                Backend::Bash,
                "workspace/didChangeConfiguration"@,
                crate::protocol::settings_params("bashIde"@, settings.bash_ide),
            ),
            Backend::Yaml,
            "workspace/didChangeConfiguration"@,
            crate::protocol::settings_params("yaml"@, settings.yaml),
        );
        lemma_resynced_consistent(told, p.documents, p.documents.len() as int);
    }
}

/// Files that keep their URIs and their scripts stay consistent.
proof fn lemma_same_uris_consistent(before: Seq<DocumentModel>, after: Seq<DocumentModel>)
    requires
        documents_consistent(before),
        after.len() == before.len(),
        forall|i: int|
            0 <= i < before.len() ==> (#[trigger] after[i]).uri == before[i].uri
                && after[i].scripts.len() == before[i].scripts.len(),
        forall|i: int, k: int|
            0 <= i < before.len() && 0 <= k < before[i].scripts.len() ==> (
            #[trigger] after[i].scripts[k]).uri == before[i].scripts[k].uri
                && after[i].scripts[k].script == before[i].scripts[k].script,
    ensures
        documents_consistent(after),
{
    assert forall|i: int, k: int|
        0 <= i < after.len() && 0 <= k < after[i].scripts.len() implies (
    #[trigger] after[i].scripts[k]).uri == virtual_uri_of(
        after[i].uri,
        k as nat,
        after[i].scripts[k].script.name,
    ) by {
        assert(before[i].scripts[k].uri == virtual_uri_of(
            before[i].uri,
            k as nat,
            before[i].scripts[k].script.name,
        ));
    }
}

proof fn lemma_script_diagnosed_consistent(p: ProxyModel, params: JsonModel)
    requires
        consistent(p),
    ensures
        consistent(script_diagnosed(p, params)),
{
    let q = script_diagnosed(p, params);
    if let Some(uri) = text_of(field_or_null(params, "uri"@)) {
        lemma_first_from(p.documents, holds_virtual(uri), 0);
        if let Some((i, k)) = owner_of(p.documents, uri) {
            lemma_first_from(p.documents[i].scripts, is_virtual(uri), 0);
            lemma_same_uris_consistent(p.documents, q.documents);
        }
    }
}

proof fn lemma_yaml_diagnosed_consistent(p: ProxyModel, params: JsonModel)
    requires
        consistent(p),
    ensures
        consistent(yaml_diagnosed(p, params)),
{
    let q = yaml_diagnosed(p, params);
    if let Some(uri) = text_of(field_or_null(params, "uri"@)) {
        lemma_first_from(p.documents, is_document(uri), 0);
        if document_at(p.documents, uri) is Some {
            lemma_same_uris_consistent(p.documents, q.documents);
        }
    }
}

/// Every message from a backend keeps the proxy consistent.
pub proof fn law_server_messages_keep_consistency(
    p: ProxyModel,
    backend: Backend,
    message: JsonModel,
)
    requires
        consistent(p),
    ensures
        consistent(server_message(p, backend, message)),
{
    let method = match field(message, "method"@) {
        Some(method) => text_of(method),
        None => None,
    };
    let params = field_or_null(message, "params"@);
    match (method, field(message, "id"@)) {
        (Some(method), None) => {
            if method == "textDocument/publishDiagnostics"@ {
                match backend {
                    Backend::Bash => {
                        lemma_script_diagnosed_consistent(p, params);
                    },
                    Backend::Yaml => {
                        lemma_yaml_diagnosed_consistent(p, params);
                    },
                }
            }
        },
        (None, Some(id)) => {
            if let Some(number) = i64_of(id) {
                lemma_first_from(p.pending, has_id(number), 0);
                if let Some(i) = first_index(p.pending, has_id(number)) {
                    let without = ProxyModel { pending: p.pending.remove(i), ..p };
                    lemma_completed_keeps(
                        without,
                        p.pending[i].backend,
                        p.pending[i].pending,
                        Some(message),
                    );
                }
            }
        },
        _ => {},
    }
}

proof fn lemma_filtered_numbers(requests: Seq<RequestModel>, keep: spec_fn(RequestModel) -> bool)
    requires
        forall|i: int, j: int|
            0 <= i < j < requests.len() ==> (#[trigger] requests[i]).id < (
            #[trigger] requests[j]).id,
    ensures
        forall|i: int, j: int|
            0 <= i < j < requests.filter(keep).len() ==> (#[trigger] requests.filter(keep)[i]).id
                < (#[trigger] requests.filter(keep)[j]).id,
        forall|i: int|
            0 <= i < requests.filter(keep).len() ==> requests.contains(
                #[trigger] requests.filter(keep)[i],
            ),
    decreases requests.len(),
{
    reveal(Seq::filter);
    if requests.len() > 0 {
        let init = requests.drop_last();
        lemma_filtered_numbers(init, keep);
        let before = init.filter(keep);
        let all = requests.filter(keep);
        assert forall|i: int| 0 <= i < before.len() implies (#[trigger] before[i]).id
            < requests.last().id && requests.contains(before[i]) by {
            assert(init.contains(before[i]));
            let at = choose|at: int| 0 <= at < init.len() && init[at] == before[i];
            assert(requests[at] == before[i]);
        }
        assert forall|i: int| 0 <= i < all.len() implies requests.contains(#[trigger] all[i]) by {
            if i < before.len() {
                assert(all[i] == before[i]);
            } else {
                assert(all[i] == requests[requests.len() - 1]);
            }
        }
        assert forall|i: int, j: int| 0 <= i < j < all.len() implies (#[trigger] all[i]).id < (
        #[trigger] all[j]).id by {
            assert(all[i] == before[i]);
            if j < before.len() {
                assert(all[j] == before[j]);
            }
        }
    }
}

proof fn lemma_completed_all_keeps(p: ProxyModel, requests: Seq<RequestModel>)
    ensures
        completed_all(p, requests).pending == p.pending,
        completed_all(p, requests).next_id == p.next_id,
        completed_all(p, requests).documents == p.documents,
        forall|other: Backend|
            (#[trigger] server(completed_all(p, requests), other)).ready ==> server(p, other).ready,
    decreases requests.len(),
{
    if requests.len() > 0 {
        lemma_completed_all_keeps(p, requests.drop_last());
        lemma_completed_keeps(
            completed_all(p, requests.drop_last()),
            requests.last().backend,
            requests.last().pending,
            None,
        );
    }
}

/// The end of a backend keeps the proxy consistent, and no request waits for
/// that backend any more.
pub proof fn law_closed_backend_keeps_nothing_waiting(p: ProxyModel, backend: Backend)
    requires
        consistent(p),
    ensures
        consistent(server_closed(p, backend)),
        !server(server_closed(p, backend), backend).ready,
        forall|i: int|
            0 <= i < server_closed(p, backend).pending.len() ==> (#[trigger] server_closed(
                p,
                backend,
            ).pending[i]).backend != backend,
{
    let others = |request: RequestModel| request.backend != backend;
    let kept = p.pending.filter(others);
    lemma_filtered_numbers(p.pending, others);
    let left = ProxyModel { pending: kept, ..stop_server(p, backend) };
    let gone = p.pending.filter(sent_to(backend));
    lemma_completed_all_keeps(left, gone);
    assert(!server(left, backend).ready);
    assert(!server(completed_all(left, gone), backend).ready);
    assert forall|i: int| 0 <= i < kept.len() implies (#[trigger] kept[i]).id <= p.next_id
        && kept[i].backend != backend by {
        p.pending.lemma_filter_pred(others, i);
        assert(p.pending.contains(kept[i]));
        let at = choose|at: int| 0 <= at < p.pending.len() && p.pending[at] == kept[i];
        assert(p.pending[at].id <= p.next_id);
    }
}

/// Starting a backend, or failing to, keeps the proxy consistent.
pub proof fn law_starting_keeps_consistency(p: ProxyModel, path: Seq<char>, error: Seq<char>)
    requires
        consistent(p),
    ensures
        consistent(server_started(p)),
        consistent(server_not_started(p, path, error)),
{
    if let Some(starting) = p.starting {
        let backend = starting.backend;
        lemma_requested_consistent(
            with_server(p, backend, Server { running: true, ..server(p, backend) }),
            backend,
            "initialize"@,
            crate::protocol::server_params_model(
                backend,
                starting.params,
                p.settings.bash_ide,
                p.process_id,
            ),
            PendingModel::Initialize,
        );
    }
}


// ---------------------------------------------------------------------------
// Answers
// ---------------------------------------------------------------------------

/// Whether an action answers a request of the client.
pub open spec fn is_answer(action: ActionModel, id: JsonModel) -> bool {
    match action {
        ActionModel::ToClient(message) => {
            &&& field(message, "id"@) == Some(id)
            &&& field(message, "method"@) is None
            &&& field(message, "result"@) is Some || field(message, "error"@) is Some
        },
        _ => false,
    }
}

proof fn lemma_answers(id: JsonModel, value: JsonModel)
    ensures
        is_answer(ActionModel::ToClient(response(id, value)), id),
        is_answer(ActionModel::ToClient(error_response(id, value)), id),
{
    reveal_strlit("id");
    reveal_strlit("method");
    reveal_strlit("jsonrpc");
    reveal_strlit("result");
    reveal_strlit("error");
    assert("id"@.len() != "jsonrpc"@.len());
    assert("id"@.len() != "result"@.len());
    assert("id"@.len() != "error"@.len());
    assert("method"@.len() != "jsonrpc"@.len());
    assert("method"@.len() != "id"@.len());
    assert("method"@[0] != "result"@[0]);
    assert("method"@.len() != "error"@.len());
}

/// What `completed` does for a request of the client: it is answered once.
proof fn lemma_completed_answers(
    p: ProxyModel,
    backend: Backend,
    pending: PendingModel,
    reply: Option<JsonModel>,
    id: JsonModel,
)
    requires
        client_id(pending) == Some(id),
    ensures
        ({
            let q = completed(p, backend, pending, reply);
            &&& same_but_out(p, q)
            &&& q.out.len() == p.out.len() + 1
            &&& q.out.drop_last() == p.out
            &&& is_answer(q.out.last(), id)
        }),
{
    let q = completed(p, backend, pending, reply);
    let result = match reply {
        Some(reply) => field_or_null(reply, "result"@),
        None => JsonModel::Null,
    };
    let error = match reply {
        Some(reply) => field(reply, "error"@),
        None => None,
    };
    let answer = match pending {
        PendingModel::Hover(_, target) => hover_result(p, result, target),
        PendingModel::Completion(_, target, extra) => completion_result(
            p,
            result,
            target,
            extra,
            error is Some,
        ),
        _ => result,
    };
    lemma_answers(id, answer);
    if let Some(error) = error {
        lemma_answers(id, error);
    }
    assert(q == respond_with(p, id, answer, error));
    assert(q.out.drop_last() =~= p.out);
}

/// Whether a request of the client is answered by one action, or passed on to
/// one backend under a new number and kept until that answers.
pub open spec fn handled(p: ProxyModel, q: ProxyModel, id: JsonModel) -> bool {
    &&& q.out.len() == p.out.len() + 1
    &&& q.out.drop_last() == p.out
    &&& {
        ||| q.pending == p.pending && q.next_id == p.next_id && is_answer(q.out.last(), id)
        ||| {
            &&& q.pending.len() == p.pending.len() + 1
            &&& q.pending.drop_last() == p.pending
            &&& client_id(q.pending.last().pending) == Some(id)
            &&& q.pending.last().id == p.next_id + 1
            &&& q.next_id == p.next_id + 1
            &&& q.out.last() matches ActionModel::ToServer(backend, message) && backend
                == q.pending.last().backend && field(message, "id"@) == Some(
                JsonModel::Integer(p.next_id + 1),
            )
        }
    }
}

/// No request of the client is lost: but for `initialize` and `shutdown`, which
/// wait for both backends, it is answered at once or passed on.
pub proof fn law_requests_are_answered_or_passed_on(
    p: ProxyModel,
    method: Seq<char>,
    id: JsonModel,
    params: JsonModel,
)
    requires
        method != "initialize"@,
        method != "shutdown"@,
    ensures
        handled(p, client_request(p, method, id, params), id),
{
    let q = client_request(p, method, id, params);
    lemma_answers(id, JsonModel::Null);
    lemma_answers(id, params);
    lemma_answers(
        id,
        error_object(METHOD_NOT_FOUND as int, unsupported(method)),
    );
    if method == "textDocument/hover"@ {
        lemma_forward_answers(p, method, id, params, None);
    } else if method == "textDocument/completion"@ {
        lemma_forward_answers(p, method, id, params, Some(own_items(p, params)));
    } else if method == "completionItem/resolve"@ {
        lemma_requested_answers(
            p,
            Backend::Bash,
            "completionItem/resolve"@,
            params,
            PendingModel::Resolve(id),
            id,
        );
        assert(respond(p, id, params).out.drop_last() =~= p.out);
    } else {
        assert(q.out.drop_last() =~= p.out);
    }
}

proof fn lemma_requested_answers(
    p: ProxyModel,
    backend: Backend,
    method: Seq<char>,
    params: JsonModel,
    pending: PendingModel,
    id: JsonModel,
)
    requires
        client_id(pending) == Some(id),
    ensures
        handled(p, requested(p, backend, method, params, pending), id),
{
    let q = requested(p, backend, method, params, pending);
    if server(p, backend).running {
        reveal_strlit("id");
        reveal_strlit("method");
        reveal_strlit("params");
        assert("id"@.len() != "method"@.len());
        assert("id"@.len() != "params"@.len());
        assert(q.pending.drop_last() =~= p.pending);
        assert(q.out.drop_last() =~= p.out);
    } else {
        lemma_completed_answers(p, backend, pending, None, id);
    }
}

proof fn lemma_forward_answers(
    p: ProxyModel,
    method: Seq<char>,
    id: JsonModel,
    params: JsonModel,
    extra: Option<Seq<JsonModel>>,
)
    ensures
        handled(p, forward_positional(p, method, id, params, extra), id),
{
    lemma_answers(id, JsonModel::Null);
    assert(respond(p, id, JsonModel::Null).out.drop_last() =~= p.out);
    if let Some(uri) = text_of(field_or_null(field_or_null(params, "textDocument"@), "uri"@)) {
        match locate(p, uri, params) {
            Some((virtual_uri, position)) => {
                lemma_requested_answers(
                    p,
                    Backend::Bash,
                    method,
                    moved_params(params, virtual_uri, position),
                    positional(id, TargetUri::Script(virtual_uri), extra),
                    id,
                );
            },
            None => {
                lemma_requested_answers(
                    p,
                    Backend::Yaml,
                    method,
                    params,
                    positional(id, TargetUri::Yaml, extra),
                    id,
                );
            },
        }
    }
}

/// When a backend answers a request that was passed on, the client gets one
/// answer to its own request, and nothing waits for it any more.
pub proof fn law_backend_answers_reach_the_client(
    p: ProxyModel,
    backend: Backend,
    message: JsonModel,
    i: int,
    id: JsonModel,
)
    requires
        consistent(p),
        0 <= i < p.pending.len(),
        i64::MIN <= p.pending[i].id <= i64::MAX,
        client_id(p.pending[i].pending) == Some(id),
        field(message, "id"@) == Some(JsonModel::Integer(p.pending[i].id)),
        field(message, "method"@) is None,
    ensures
        ({
            let q = server_message(p, backend, message);
            &&& q.pending == p.pending.remove(i)
            &&& q.out.len() == p.out.len() + 1
            &&& q.out.drop_last() == p.out
            &&& is_answer(q.out.last(), id)
        }),
{
    let number = p.pending[i].id;
    assert forall|k: int| 0 <= k < i implies !has_id(number)(#[trigger] p.pending[k]) by {
        assert(p.pending[k].id < p.pending[i].id);
    }
    lemma_first_from_is(p.pending, has_id(number), 0, i);
    lemma_completed_answers(
        ProxyModel { pending: p.pending.remove(i), ..p },
        p.pending[i].backend,
        p.pending[i].pending,
        Some(message),
        id,
    );
}

/// Whether a request has been answered since the list of actions had `from`
/// entries.
pub open spec fn answered_since(out: Seq<ActionModel>, from: int, id: JsonModel) -> bool {
    exists|k: int| from <= k < out.len() && is_answer(#[trigger] out[k], id)
}

proof fn lemma_completed_out_grows(
    p: ProxyModel,
    backend: Backend,
    pending: PendingModel,
)
    ensures
        p.out.is_prefix_of(completed(p, backend, pending, None).out),
{
}

proof fn lemma_completed_all_answers(p: ProxyModel, requests: Seq<RequestModel>, i: int, id: JsonModel)
    requires
        0 <= i < requests.len(),
        client_id(requests[i].pending) == Some(id),
    ensures
        p.out.is_prefix_of(completed_all(p, requests).out),
        answered_since(completed_all(p, requests).out, p.out.len() as int, id),
    decreases requests.len(),
{
    let before = completed_all(p, requests.drop_last());
    let last = requests.last();
    let after = completed_all(p, requests);
    lemma_completed_all_grows(p, requests.drop_last());
    lemma_completed_out_grows(before, last.backend, last.pending);
    if i == requests.len() - 1 {
        lemma_completed_answers(before, last.backend, last.pending, None, id);
        assert(is_answer(after.out[after.out.len() - 1], id));
    } else {
        lemma_completed_all_answers(p, requests.drop_last(), i, id);
        let k = choose|k: int|
            p.out.len() <= k < before.out.len() && is_answer(#[trigger] before.out[k], id);
        assert(after.out[k] == before.out[k]);
    }
}

proof fn lemma_completed_all_grows(p: ProxyModel, requests: Seq<RequestModel>)
    ensures
        p.out.is_prefix_of(completed_all(p, requests).out),
    decreases requests.len(),
{
    if requests.len() > 0 {
        lemma_completed_all_grows(p, requests.drop_last());
        lemma_completed_out_grows(
            completed_all(p, requests.drop_last()),
            requests.last().backend,
            requests.last().pending,
        );
    }
}

/// No request of the client is left without an answer when the backend that
/// works on it ends.
pub proof fn law_closed_backend_leaves_no_request_open(
    p: ProxyModel,
    backend: Backend,
    i: int,
    id: JsonModel,
)
    requires
        0 <= i < p.pending.len(),
        p.pending[i].backend == backend,
        client_id(p.pending[i].pending) == Some(id),
    ensures
        answered_since(server_closed(p, backend).out, p.out.len() as int, id),
{
    let gone = p.pending.filter(sent_to(backend));
    p.pending.lemma_filter_contains(sent_to(backend), i);
    let at = choose|at: int| 0 <= at < gone.len() && gone[at] == p.pending[i];
    let left = ProxyModel {
        pending: p.pending.filter(|request: RequestModel| request.backend != backend),
        ..stop_server(p, backend)
    };
    lemma_completed_all_answers(left, gone, at, id);
    let done = completed_all(left, gone);
    let k = choose|k: int|
        left.out.len() <= k < done.out.len() && is_answer(#[trigger] done.out[k], id);
    assert(server_closed(p, backend).out[k] == done.out[k]);
}

/// The client's `shutdown` request waits for exactly the backends that run.
pub proof fn law_shutdown_waits_for_running_backends(p: ProxyModel, id: JsonModel)
    ensures
        ({
            let q = shutdown(p, id);
            let running = (if p.bash.running {
                1int
            } else {
                0
            }) + (if p.yaml.running {
                1int
            } else {
                0
            });
            &&& q.shutdown_requested
            &&& running == 0 ==> q.out == p.out.push(
                ActionModel::ToClient(response(id, JsonModel::Null)),
            ) && q.pending == p.pending
            &&& running > 0 ==> q.shutting_down == Some((id, running)) && q.pending.len()
                == p.pending.len() + running && p.pending.is_prefix_of(q.pending) && forall|i: int|
                p.pending.len() <= i < q.pending.len() ==> (#[trigger] q.pending[i]).pending
                    is Shutdown
        }),
{
}

/// The last backend that is done with it answers the client's `shutdown`
/// request, and no other one does.
pub proof fn law_last_backend_answers_shutdown(p: ProxyModel, id: JsonModel, remaining: int)
    requires
        p.shutting_down == Some((id, remaining)),
    ensures
        remaining > 1 ==> shut_down_one(p).out == p.out && shut_down_one(p).shutting_down == Some(
            (id, remaining - 1),
        ),
        remaining <= 1 ==> shut_down_one(p).out == p.out.push(
            ActionModel::ToClient(response(id, JsonModel::Null)),
        ) && shut_down_one(p).shutting_down is None,
{
}

/// The last backend that is done with it answers the client's `initialize`
/// request, and no other one does.
pub proof fn law_last_backend_answers_initialize(p: ProxyModel, id: JsonModel, remaining: int)
    requires
        p.initializing == Some((id, remaining)),
    ensures
        remaining > 1 ==> initialized_one(p).out == p.out && initialized_one(p).initializing
            == Some((id, remaining - 1)),
        remaining <= 1 ==> initialized_one(p).out == p.out.push(
            ActionModel::ToClient(response(id, initialize_result_model())),
        ) && initialized_one(p).initializing is None,
{
}

/// Each backend is optional: when neither can be started the client is told
/// why, twice, and gets its answer all the same.
pub proof fn law_backends_are_optional(
    p: ProxyModel,
    id: JsonModel,
    params: JsonModel,
    path: Seq<char>,
    error: Seq<char>,
    yaml_path: Seq<char>,
    yaml_error: Seq<char>,
)
    ensures
        ({
            let q = server_not_started(
                server_not_started(initialize(p, id, params), path, error),
                yaml_path,
                yaml_error,
            );
            &&& q.starting is None
            &&& q.initializing == p.initializing
            &&& q.pending == p.pending
            &&& is_answer(q.out.last(), id)
        }),
{
    lemma_answers(id, initialize_result_model());
}

/// An exit code of 0 tells that the client asked for the shutdown first.
pub proof fn law_exit_code_tells_about_shutdown(p: ProxyModel)
    ensures
        exited(p).out.last() == ActionModel::Exit(
            if p.shutdown_requested {
                0
            } else {
                1
            },
        ),
        !exited(p).bash.running,
        !exited(p).yaml.running,
{
}

// ---------------------------------------------------------------------------
// Backends that do not run
// ---------------------------------------------------------------------------

pub open spec fn sends_to(action: ActionModel, backend: Backend) -> bool {
    action matches ActionModel::ToServer(other, _) && other == backend
}

/// Whether actions were only added, none of them a message to the backend,
/// which still does not run.
pub open spec fn quiet(p: ProxyModel, q: ProxyModel, backend: Backend) -> bool {
    &&& !server(q, backend).running
    &&& p.out.is_prefix_of(q.out)
    &&& forall|k: int|
        p.out.len() <= k < q.out.len() ==> !sends_to(#[trigger] q.out[k], backend)
}

proof fn lemma_quiet_steps(p: ProxyModel, q: ProxyModel, r: ProxyModel, backend: Backend)
    requires
        quiet(p, q, backend),
        quiet(q, r, backend),
    ensures
        quiet(p, r, backend),
{
    assert forall|k: int| p.out.len() <= k < r.out.len() implies !sends_to(
        #[trigger] r.out[k],
        backend,
    ) by {
        if k < q.out.len() {
            assert(r.out[k] == q.out[k]);
        }
    }
}

proof fn lemma_quiet_announced(
    p: ProxyModel,
    previous: Seq<VirtualModel>,
    current: Seq<VirtualModel>,
    count: int,
    backend: Backend,
)
    requires
        !server(p, backend).running,
    ensures
        quiet(p, announced_all(p, previous, current, count), backend),
    decreases count,
{
    if count > 0 {
        let before = announced_all(p, previous, current, count - 1);
        lemma_quiet_announced(p, previous, current, count - 1, backend);
        lemma_quiet_steps(p, before, announced_all(p, previous, current, count), backend);
    }
}

proof fn lemma_quiet_closed_gone(
    p: ProxyModel,
    previous: Seq<VirtualModel>,
    current: Seq<VirtualModel>,
    count: int,
    backend: Backend,
)
    requires
        !server(p, backend).running,
    ensures
        quiet(p, closed_gone(p, previous, current, count), backend),
    decreases count,
{
    if count > 0 {
        let before = closed_gone(p, previous, current, count - 1);
        lemma_quiet_closed_gone(p, previous, current, count - 1, backend);
        lemma_quiet_steps(p, before, closed_gone(p, previous, current, count), backend);
    }
}

proof fn lemma_quiet_closed_all(
    p: ProxyModel,
    scripts: Seq<VirtualModel>,
    count: int,
    backend: Backend,
)
    requires
        !server(p, backend).running,
    ensures
        quiet(p, closed_all(p, scripts, count), backend),
    decreases count,
{
    if count > 0 {
        let before = closed_all(p, scripts, count - 1);
        lemma_quiet_closed_all(p, scripts, count - 1, backend);
        lemma_quiet_steps(p, before, closed_all(p, scripts, count), backend);
    }
}

proof fn lemma_quiet_text_changed(
    p: ProxyModel,
    uri: Seq<char>,
    text: Seq<char>,
    backend: Backend,
)
    requires
        !server(p, backend).running,
    ensures
        quiet(p, text_changed(p, uri, text), backend),
{
    let scripts = scripts_of(source_lines(text), yaml_events(text));
    let previous = scripts_before(p.documents, uri);
    let current = current_scripts(uri, previous, scripts, p.settings.shell);
    let without = ProxyModel { documents: documents_without(p.documents, uri), ..p };
    let announced = announced_all(without, previous, current, current.len() as int);
    let told = closed_gone(announced, previous, current, previous.len() as int);
    lemma_quiet_announced(without, previous, current, current.len() as int, backend);
    lemma_quiet_closed_gone(announced, previous, current, previous.len() as int, backend);
    lemma_quiet_steps(without, announced, told, backend);
    assert(quiet(p, told, backend));
    lemma_quiet_steps(p, told, text_changed(p, uri, text), backend);
}

proof fn lemma_quiet_resynced(
    p: ProxyModel,
    files: Seq<DocumentModel>,
    count: int,
    backend: Backend,
)
    requires
        !server(p, backend).running,
    ensures
        quiet(p, resynced(p, files, count), backend),
    decreases count,
{
    if count > 0 {
        let before = resynced(p, files, count - 1);
        lemma_quiet_resynced(p, files, count - 1, backend);
        lemma_quiet_text_changed(
            before,
            files[count - 1].uri,
            files[count - 1].text,
            backend,
        );
        lemma_quiet_steps(p, before, resynced(p, files, count), backend);
    }
}

proof fn lemma_quiet_requested(
    p: ProxyModel,
    to: Backend,
    method: Seq<char>,
    params: JsonModel,
    pending: PendingModel,
    backend: Backend,
)
    requires
        !server(p, backend).running,
    ensures
        quiet(p, requested(p, to, method, params, pending), backend),
{
}

/// Nothing is sent to a backend that does not run, whatever the client says.
pub proof fn law_nothing_goes_to_a_backend_that_does_not_run(
    p: ProxyModel,
    message: JsonModel,
    backend: Backend,
)
    requires
        !server(p, backend).running,
    ensures
        quiet(p, client_message(p, message), backend),
{
    if let Some(JsonModel::Text(method)) = field(message, "method"@) {
        let params = field_or_null(message, "params"@);
        match field(message, "id"@) {
            Some(id) => {
                lemma_quiet_request(p, method, id, params, backend);
            },
            None => {
                lemma_quiet_notification(p, method, params, backend);
            },
        }
    }
}

proof fn lemma_quiet_request(
    p: ProxyModel,
    method: Seq<char>,
    id: JsonModel,
    params: JsonModel,
    backend: Backend,
)
    requires
        !server(p, backend).running,
    ensures
        quiet(p, client_request(p, method, id, params), backend),
{
    if method == "shutdown"@ {
        let asked = ProxyModel { shutdown_requested: true, ..p };
        let two = ProxyModel { shutting_down: Some((id, 2)), ..asked };
        assert(quiet(p, shutdown(p, id), backend));
    } else if method == "textDocument/hover"@ {
        lemma_quiet_forward(p, method, id, params, None, backend);
    } else if method == "textDocument/completion"@ {
        lemma_quiet_forward(p, method, id, params, Some(own_items(p, params)), backend);
    } else if method == "completionItem/resolve"@ {
        lemma_quiet_requested(
            p,
            Backend::Bash,
            "completionItem/resolve"@,
            params,
            PendingModel::Resolve(id),
            backend,
        );
    }
}

proof fn lemma_quiet_forward(
    p: ProxyModel,
    method: Seq<char>,
    id: JsonModel,
    params: JsonModel,
    extra: Option<Seq<JsonModel>>,
    backend: Backend,
)
    requires
        !server(p, backend).running,
    ensures
        quiet(p, forward_positional(p, method, id, params, extra), backend),
{
    if let Some(uri) = text_of(field_or_null(field_or_null(params, "textDocument"@), "uri"@)) {
        match locate(p, uri, params) {
            Some((virtual_uri, position)) => {
                lemma_quiet_requested(
                    p,
                    Backend::Bash,
                    method,
                    moved_params(params, virtual_uri, position),
                    positional(id, TargetUri::Script(virtual_uri), extra),
                    backend,
                );
            },
            None => {
                lemma_quiet_requested(
                    p,
                    Backend::Yaml,
                    method,
                    params,
                    positional(id, TargetUri::Yaml, extra),
                    backend,
                );
            },
        }
    }
}

proof fn lemma_quiet_new_text(
    p: ProxyModel,
    uri: Option<Seq<char>>,
    text: Option<Seq<char>>,
    method: Seq<char>,
    params: JsonModel,
    backend: Backend,
)
    requires
        !server(p, backend).running,
    ensures
        quiet(
            p,
            notify_server(changed_if(p, uri, text), Backend::Yaml, method, params),
            backend,
        ),
{
    let changed = changed_if(p, uri, text);
    if let (Some(uri), Some(text)) = (uri, text) {
        lemma_quiet_text_changed(p, uri, text, backend);
    }
    assert(quiet(p, changed, backend));
    lemma_quiet_steps(
        p,
        changed,
        notify_server(changed, Backend::Yaml, method, params),
        backend,
    );
}

proof fn lemma_quiet_notification(
    p: ProxyModel,
    method: Seq<char>,
    params: JsonModel,
    backend: Backend,
)
    requires
        !server(p, backend).running,
    ensures
        quiet(p, client_notification(p, method, params), backend),
{
    let document = field_or_null(params, "textDocument"@);
    let uri = text_of(field_or_null(document, "uri"@));
    let after = client_notification(p, method, params);
    if method == "exit"@ {
    } else if method == "textDocument/didOpen"@ {
        let text = text_of(field_or_null(document, "text"@));
        lemma_quiet_new_text(p, uri, text, method, params, backend);
    } else if method == "textDocument/didChange"@ {
        lemma_quiet_new_text(p, uri, last_change(params), method, params, backend);
    } else if method == "textDocument/didClose"@ {
        if let Some(uri) = uri {
            if let Some(i) = document_at(p.documents, uri) {
                let scripts = p.documents[i].scripts;
                let without = ProxyModel { documents: p.documents.remove(i), ..p };
                let told = closed_all(without, scripts, scripts.len() as int);
                lemma_quiet_closed_all(without, scripts, scripts.len() as int, backend);
                assert(quiet(p, told, backend));
                lemma_quiet_steps(p, told, file_closed(p, uri), backend);
                lemma_quiet_steps(p, file_closed(p, uri), after, backend);
            }
        }
    } else if method == "workspace/didChangeConfiguration"@ {
        let settings = crate::settings::settings_of(field(params, "settings"@));
        let told = notify_server(
            notify_server(
                ProxyModel { settings, ..p },
                Backend::Bash,
                "workspace/didChangeConfiguration"@,
                crate::protocol::settings_params("bashIde"@, settings.bash_ide),
            ),
            Backend::Yaml,
            "workspace/didChangeConfiguration"@,
            crate::protocol::settings_params("yaml"@, settings.yaml),
        );
        assert(quiet(p, told, backend));
        lemma_quiet_resynced(told, p.documents, p.documents.len() as int, backend);
        lemma_quiet_steps(p, told, after, backend);
    }
}

// ---------------------------------------------------------------------------
// Documents
// ---------------------------------------------------------------------------

/// Every virtual document leads back to its own file and script.
pub proof fn law_virtual_documents_are_found(documents: Seq<DocumentModel>, i: int, k: int)
    requires
        documents_consistent(documents),
        0 <= i < documents.len(),
        0 <= k < documents[i].scripts.len(),
    ensures
        owner_of(documents, documents[i].scripts[k].uri) == Some((i, k)),
{
    let uri = documents[i].scripts[k].uri;
    assert forall|j: int| 0 <= j < k implies !is_virtual(uri)(
        #[trigger] documents[i].scripts[j],
    ) by {
        lemma_other_uri(documents, i, k, i, j);
    }
    lemma_first_from_is(documents[i].scripts, is_virtual(uri), 0, k);
    assert forall|d: int| 0 <= d < i implies !holds_virtual(uri)(#[trigger] documents[d]) by {
        lemma_first_from(documents[d].scripts, is_virtual(uri), 0);
        if let Some(j) = virtual_at(documents[d].scripts, uri) {
            lemma_other_uri(documents, i, k, d, j);
        }
    }
    lemma_first_from_is(documents, holds_virtual(uri), 0, i);
}

proof fn lemma_other_uri(documents: Seq<DocumentModel>, i: int, k: int, d: int, j: int)
    requires
        documents_consistent(documents),
        0 <= i < documents.len(),
        0 <= k < documents[i].scripts.len(),
        0 <= d < documents.len(),
        0 <= j < documents[d].scripts.len(),
        d != i || j != k,
    ensures
        documents[i].scripts[k].uri != documents[d].scripts[j].uri,
{
    if documents[i].scripts[k].uri == documents[d].scripts[j].uri {
        law_virtual_uris_are_distinct(
            documents[i].uri,
            k as nat,
            documents[i].scripts[k].script.name,
            documents[d].uri,
            j as nat,
            documents[d].scripts[j].script.name,
        );
        if d < i {
            assert(documents[d].uri != documents[i].uri);
        } else if i < d {
            assert(documents[i].uri != documents[d].uri);
        }
    }
}

/// Diagnostics refer to a text. They go when the text of their script changes,
/// and its version grows; otherwise both stay.
pub proof fn law_changed_scripts_lose_their_diagnostics(
    previous: VirtualModel,
    uri: Seq<char>,
    script: ScriptModel,
)
    ensures
        previous.script.text != script.text ==> updated(Some(previous), uri, script).diagnostics
            == Seq::<JsonModel>::empty() && updated(Some(previous), uri, script).version
            == previous.version + 1,
        previous.script.text == script.text ==> updated(Some(previous), uri, script).diagnostics
            == previous.diagnostics && updated(Some(previous), uri, script).version
            == previous.version,
{
}

/// Diagnostics for another version of a script than the current one change
/// nothing.
pub proof fn law_stale_diagnostics_are_ignored(
    p: ProxyModel,
    params: JsonModel,
    i: int,
    k: int,
    version: int,
)
    requires
        text_of(field_or_null(params, "uri"@)) matches Some(uri) && owner_of(p.documents, uri)
            == Some((i, k)),
        i64_of(field_or_null(params, "version"@)) == Some(version),
        version != p.documents[i].scripts[k].version,
    ensures
        script_diagnosed(p, params) == p,
{
}

/// A new text of one file leaves all other files as they are.
pub proof fn law_other_files_stay_as_they_are(
    p: ProxyModel,
    uri: Seq<char>,
    text: Seq<char>,
    i: int,
)
    requires
        0 <= i < p.documents.len(),
        p.documents[i].uri != uri,
    ensures
        text_changed(p, uri, text).documents.contains(p.documents[i]),
{
    let lines = source_lines(text);
    let scripts = scripts_of(lines, yaml_events(text));
    lemma_synced_keeps(p, uri, text, lines, scripts);
    lemma_first_from(p.documents, is_document(uri), 0);
    let now = synced(p, uri, text, lines, scripts).documents;
    match document_at(p.documents, uri) {
        Some(at) => {
            let to = if i < at {
                i
            } else {
                i - 1
            };
            assert(now[to] == p.documents[i]);
        },
        None => {
            assert(now[i] == p.documents[i]);
        },
    }
}

/// After a new text the file is open with that text, and the last action
/// publishes its diagnostics.
pub proof fn law_new_texts_are_kept(p: ProxyModel, uri: Seq<char>, text: Seq<char>)
    requires
        consistent(p),
    ensures
        ({
            let q = text_changed(p, uri, text);
            &&& p.out.is_prefix_of(q.out)
            &&& q.out.len() > p.out.len()
            &&& document_at(q.documents, uri) matches Some(i) && q.documents[i].text == text
                && q.out.last() == ActionModel::ToClient(
                notification(
                    "textDocument/publishDiagnostics"@,
                    diagnostics_params(uri, all_diagnostics(q.documents[i])),
                ),
            )
        }),
{
    let lines = source_lines(text);
    let scripts = scripts_of(lines, yaml_events(text));
    let q = synced(p, uri, text, lines, scripts);
    lemma_synced_keeps(p, uri, text, lines, scripts);
    lemma_synced_consistent(p, uri, text, lines, scripts);
    let last = q.documents.len() - 1;
    assert(q.documents[last].uri == uri);
    assert forall|k: int| 0 <= k < last implies !is_document(uri)(#[trigger] q.documents[k]) by {
        assert(q.documents[k].uri != q.documents[last].uri);
    }
    lemma_first_from_is(q.documents, is_document(uri), 0, last);
    lemma_synced_out(p, uri, text, lines, scripts);
}

/// Closing a file forgets it.
pub proof fn law_closed_files_are_forgotten(p: ProxyModel, uri: Seq<char>)
    requires
        consistent(p),
    ensures
        document_at(file_closed(p, uri).documents, uri) is None,
{
    lemma_first_from(p.documents, is_document(uri), 0);
    if let Some(i) = document_at(p.documents, uri) {
        let rest = p.documents.remove(i);
        let scripts = p.documents[i].scripts;
        lemma_closed_all_keeps(
            ProxyModel { documents: rest, ..p },
            scripts,
            scripts.len() as int,
        );
        lemma_first_from(rest, is_document(uri), 0);
        if let Some(k) = document_at(rest, uri) {
            let from = if k < i {
                k
            } else {
                k + 1
            };
            assert(rest[k] == p.documents[from]);
            assert(p.documents[from].uri == p.documents[i].uri);
            if from < i {
                assert(p.documents[from].uri != p.documents[i].uri);
            } else {
                assert(p.documents[i].uri != p.documents[from].uri);
            }
        }
    }
}

/// Items of yaml-language-server are complete: resolving one gives it back.
pub proof fn law_yaml_items_resolve_to_themselves(p: ProxyModel, id: JsonModel, item: JsonModel)
    requires
        item is Object,
        field(item, "data"@) matches Some(data) ==> data is Object,
    ensures
        resolve(p, id, marked_item(item)) == respond(p, id, marked_item(item)),
{
    let with_data = crate::json::with_default(
        item,
        "data"@,
        JsonModel::Object(Map::empty()),
    );
    assert(field(with_data, "data"@) matches Some(JsonModel::Object(_)));
}

} // verus!
