//! What the proxy does about each message, as a state machine: an event comes
//! in, the state changes, and actions are left for the caller to perform.

use vstd::prelude::*;

use crate::backend::{program_of, purpose_of, Backend, NAME};
use crate::completion::{
    is_turned_off, merge, merged_items, script_items, script_items_of, YAML_ITEM_MARKER,
};
use crate::documents::{
    all_diagnostics, current_scripts, document_at, documents_view, find_document, find_owner,
    find_script, find_virtual, is_gone, located, located_view, origin_of, owner_of, previous_of,
    virtual_at, virtuals_view, Document, DocumentModel, VirtualDocument, VirtualModel,
};
use crate::extract::{
    parse, scripts_of, scripts_view,
};
use crate::json::{
    duplicates, field, field_copy, field_or_null, i64_of, index_of, items_in, items_or_none,
    items_view, opt_view, same_json, text_of, with_field, Json, JsonModel,
};
use crate::mapping::{
    json_view, map_completion, map_hover, mapped_completion, mapped_hover, ItemTarget, TargetModel,
};
use crate::protocol::{
    change_params, change_params_json, diagnostics_params, diagnostics_params_json,
    document_params, document_params_json, error_object, error_object_json, error_response,
    error_response_json, exit_json, exit_message, initialize_result, initialize_result_model,
    message_params, message_params_json, notification, notification_json, open_params,
    open_params_json, request_json, request_message, response, response_json, server_params,
    server_params_model, settings_params, settings_params_json, single, single_json,
    snippet_support, supports_snippets, METHOD_NOT_FOUND,
};
use crate::script::{Script, ScriptModel};
use crate::seqs::{first_index, lemma_first_from, lemma_first_from_is};
use crate::settings::{settings_of, Settings, SettingsModel};
use crate::source::{source_lines, Source};
use crate::text::same_text;
use crate::uri::{virtual_uri, virtual_uri_of};
use crate::value::{json_text, show_json};
use crate::yaml::yaml_events;

verus! {

// ---------------------------------------------------------------------------
// State
// ---------------------------------------------------------------------------

/// What the caller has to do.
#[derive(Debug)]
pub enum Action {
    /// Send a message to the client.
    ToClient(Json),
    /// Send a message to a backend.
    ToServer(Backend, Json),
    /// Write a line to the log.
    Log(String),
    /// Start a backend, and report whether it started.
    Start(Backend),
    /// Close the input of a backend and end its process.
    Stop(Backend),
    /// Wait for the backends to end, and exit with this code.
    Exit(i32),
}

pub enum ActionModel {
    ToClient(JsonModel),
    ToServer(Backend, JsonModel),
    Log(Seq<char>),
    Start(Backend),
    Stop(Backend),
    Exit(int),
}

impl Action {
    pub open spec fn view(&self) -> ActionModel {
        match *self {
            Action::ToClient(message) => ActionModel::ToClient(message@),
            Action::ToServer(backend, message) => ActionModel::ToServer(backend, message@),
            Action::Log(line) => ActionModel::Log(line@),
            Action::Start(backend) => ActionModel::Start(backend),
            Action::Stop(backend) => ActionModel::Stop(backend),
            Action::Exit(code) => ActionModel::Exit(code as int),
        }
    }
}

pub open spec fn actions_view(actions: Seq<Action>) -> Seq<ActionModel> {
    actions.map_values(|action: Action| action@)
}

/// Where a positional request was sent.
#[derive(Debug)]
pub enum Target {
    Script(String),
    Yaml,
}

pub enum TargetUri {
    Script(Seq<char>),
    Yaml,
}

impl Target {
    pub open spec fn view(&self) -> TargetUri {
        match *self {
            Target::Script(uri) => TargetUri::Script(uri@),
            Target::Yaml => TargetUri::Yaml,
        }
    }
}

/// Requests sent to a backend that await a response.
#[derive(Debug)]
pub enum Pending {
    Initialize,
    Shutdown,
    Hover(Json, Target),
    Completion(Json, Target, Vec<Json>),
    Resolve(Json),
}

pub enum PendingModel {
    Initialize,
    Shutdown,
    Hover(JsonModel, TargetUri),
    Completion(JsonModel, TargetUri, Seq<JsonModel>),
    Resolve(JsonModel),
}

impl Pending {
    pub open spec fn view(&self) -> PendingModel {
        match *self {
            Pending::Initialize => PendingModel::Initialize,
            Pending::Shutdown => PendingModel::Shutdown,
            Pending::Hover(id, target) => PendingModel::Hover(id@, target@),
            Pending::Completion(id, target, extra) => PendingModel::Completion(
                id@,
                target@,
                items_view(extra@),
            ),
            Pending::Resolve(id) => PendingModel::Resolve(id@),
        }
    }
}

#[derive(Debug)]
pub struct PendingRequest {
    pub id: i64,
    pub backend: Backend,
    pub pending: Pending,
}

pub struct RequestModel {
    pub id: int,
    pub backend: Backend,
    pub pending: PendingModel,
}

impl PendingRequest {
    pub open spec fn view(&self) -> RequestModel {
        RequestModel { id: self.id as int, backend: self.backend, pending: self.pending@ }
    }
}

pub open spec fn requests_view(requests: Seq<PendingRequest>) -> Seq<RequestModel> {
    requests.map_values(|request: PendingRequest| request@)
}

#[derive(Clone, Copy, Debug)]
pub struct Server {
    /// Whether messages can be written to the server.
    pub running: bool,
    /// Whether the server finished initializing.
    pub ready: bool,
}

/// A client `initialize` request while the backends are being started.
#[derive(Debug)]
pub struct Starting {
    pub id: Json,
    pub params: Json,
    pub backend: Backend,
    /// Whether bash-language-server, which comes first, has been started.
    pub bash_started: bool,
}

pub struct StartingModel {
    pub id: JsonModel,
    pub params: JsonModel,
    pub backend: Backend,
    pub bash_started: bool,
}

pub open spec fn starting_view(starting: Option<Starting>) -> Option<StartingModel> {
    match starting {
        Some(starting) => Some(
            StartingModel {
                id: starting.id@,
                params: starting.params@,
                backend: starting.backend,
                bash_started: starting.bash_started,
            },
        ),
        None => None,
    }
}

/// A client request that waits for a number of backends.
pub open spec fn waiting_view(waiting: Option<(Json, usize)>) -> Option<(JsonModel, int)> {
    match waiting {
        Some((id, count)) => Some((id@, count as int)),
        None => None,
    }
}

pub struct ProxyModel {
    pub bash: Server,
    pub yaml: Server,
    pub next_id: int,
    pub pending: Seq<RequestModel>,
    pub starting: Option<StartingModel>,
    /// Client `initialize` request waiting for this many backends.
    pub initializing: Option<(JsonModel, int)>,
    /// Client `shutdown` request waiting for this many backends.
    pub shutting_down: Option<(JsonModel, int)>,
    pub shutdown_requested: bool,
    pub documents: Seq<DocumentModel>,
    pub settings: SettingsModel,
    pub snippets: bool,
    pub process_id: int,
    /// Actions that are still to be performed.
    pub out: Seq<ActionModel>,
}

/// The proxy between the client and the two backends.
pub struct Proxy {
    bash: Server,
    yaml: Server,
    next_id: i64,
    pending: Vec<PendingRequest>,
    starting: Option<Starting>,
    initializing: Option<(Json, usize)>,
    shutting_down: Option<(Json, usize)>,
    shutdown_requested: bool,
    documents: Vec<Document>,
    settings: Settings,
    snippets: bool,
    process_id: u32,
    out: Vec<Action>,
}

impl Proxy {
    pub closed spec fn view(&self) -> ProxyModel {
        ProxyModel {
            bash: self.bash,
            yaml: self.yaml,
            next_id: self.next_id as int,
            pending: requests_view(self.pending@),
            starting: starting_view(self.starting),
            initializing: waiting_view(self.initializing),
            shutting_down: waiting_view(self.shutting_down),
            shutdown_requested: self.shutdown_requested,
            documents: documents_view(self.documents@),
            settings: self.settings@,
            snippets: self.snippets,
            process_id: self.process_id as int,
            out: actions_view(self.out@),
        }
    }
}

pub open spec fn idle() -> Server {
    Server { running: false, ready: false }
}

/// The proxy before the first message.
pub open spec fn initial(process_id: int) -> ProxyModel {
    ProxyModel {
        bash: idle(),
        yaml: idle(),
        next_id: 0,
        pending: Seq::empty(),
        starting: None,
        initializing: None,
        shutting_down: None,
        shutdown_requested: false,
        documents: Seq::empty(),
        settings: settings_of(None),
        snippets: false,
        process_id,
        out: Seq::empty(),
    }
}

pub open spec fn server(p: ProxyModel, backend: Backend) -> Server {
    match backend {
        Backend::Bash => p.bash,
        Backend::Yaml => p.yaml,
    }
}

pub open spec fn with_server(p: ProxyModel, backend: Backend, server: Server) -> ProxyModel {
    match backend {
        Backend::Bash => ProxyModel { bash: server, ..p },
        Backend::Yaml => ProxyModel { yaml: server, ..p },
    }
}

// ---------------------------------------------------------------------------
// Sending
// ---------------------------------------------------------------------------

pub open spec fn emit(p: ProxyModel, action: ActionModel) -> ProxyModel {
    ProxyModel { out: p.out.push(action), ..p }
}

pub open spec fn to_client(p: ProxyModel, message: JsonModel) -> ProxyModel {
    emit(p, ActionModel::ToClient(message))
}

/// Messages only go to a backend that runs.
pub open spec fn to_server(p: ProxyModel, backend: Backend, message: JsonModel) -> ProxyModel {
    if server(p, backend).running {
        emit(p, ActionModel::ToServer(backend, message))
    } else {
        p
    }
}

/// Notifications only go to a backend that finished initializing.
pub open spec fn notify_server(
    p: ProxyModel,
    backend: Backend,
    method: Seq<char>,
    params: JsonModel,
) -> ProxyModel {
    if server(p, backend).ready {
        to_server(p, backend, notification(method, params))
    } else {
        p
    }
}

pub open spec fn notify_client(p: ProxyModel, method: Seq<char>, params: JsonModel) -> ProxyModel {
    to_client(p, notification(method, params))
}

pub open spec fn respond(p: ProxyModel, id: JsonModel, result: JsonModel) -> ProxyModel {
    to_client(p, response(id, result))
}

pub open spec fn respond_with(
    p: ProxyModel,
    id: JsonModel,
    result: JsonModel,
    error: Option<JsonModel>,
) -> ProxyModel {
    match error {
        Some(error) => to_client(p, error_response(id, error)),
        None => respond(p, id, result),
    }
}

/// A message for the user, which is logged too.
pub open spec fn show_message(p: ProxyModel, kind: int, message: Seq<char>) -> ProxyModel {
    notify_client(
        emit(p, ActionModel::Log(message)),
        "window/showMessage"@,
        message_params(kind, message),
    )
}

pub open spec fn stop_server(p: ProxyModel, backend: Backend) -> ProxyModel {
    emit(with_server(p, backend, idle()), ActionModel::Stop(backend))
}

impl Proxy {
    /// The proxy before the first message.
    pub fn new(process_id: u32) -> (r: Self)
        ensures
            r@ == initial(process_id as int),
    {
        let r = Proxy {
            bash: Server { running: false, ready: false },
            yaml: Server { running: false, ready: false },
            next_id: 0,
            pending: Vec::new(),
            starting: None,
            initializing: None,
            shutting_down: None,
            shutdown_requested: false,
            documents: Vec::new(),
            settings: Settings::from_value(None),
            snippets: false,
            process_id,
            out: Vec::new(),
        };
        proof {
            assert(r@.pending =~= Seq::<RequestModel>::empty());
            assert(r@.documents =~= Seq::<DocumentModel>::empty());
            assert(r@.out =~= Seq::<ActionModel>::empty());
        }
        r
    }

    /// Hands out the actions that are to be performed.
    pub fn take_actions(&mut self) -> (r: Vec<Action>)
        ensures
            actions_view(r@) == old(self)@.out,
            final(self)@ == (ProxyModel { out: Seq::empty(), ..old(self)@ }),
    {
        let mut actions: Vec<Action> = Vec::new();
        std::mem::swap(&mut actions, &mut self.out);
        assert(self@.out =~= Seq::<ActionModel>::empty());
        actions
    }

    fn emit(&mut self, action: Action)
        ensures
            final(self)@ == emit(old(self)@, action@),
    {
        let ghost before = self@.out;
        self.out.push(action);
        assert(self@.out =~= before.push(action@));
    }

    /// Whether messages can be written to a backend.
    pub fn running(&self, backend: Backend) -> (r: bool)
        ensures
            r == server(self@, backend).running,
    {
        match backend {
            Backend::Bash => self.bash.running,
            Backend::Yaml => self.yaml.running,
        }
    }

    /// Whether a backend finished initializing.
    pub fn ready(&self, backend: Backend) -> (r: bool)
        ensures
            r == server(self@, backend).ready,
    {
        match backend {
            Backend::Bash => self.bash.ready,
            Backend::Yaml => self.yaml.ready,
        }
    }

    fn set_server(&mut self, backend: Backend, server: Server)
        ensures
            final(self)@ == with_server(old(self)@, backend, server),
    {
        match backend {
            Backend::Bash => {
                self.bash = server;
            },
            Backend::Yaml => {
                self.yaml = server;
            },
        }
    }

    fn send_client(&mut self, message: Json)
        ensures
            final(self)@ == to_client(old(self)@, message@),
    {
        self.emit(Action::ToClient(message));
    }

    fn send_server(&mut self, backend: Backend, message: Json)
        ensures
            final(self)@ == to_server(old(self)@, backend, message@),
    {
        if self.running(backend) {
            self.emit(Action::ToServer(backend, message));
        }
    }

    fn notify_server(&mut self, backend: Backend, method: &str, params: Json)
        ensures
            final(self)@ == notify_server(old(self)@, backend, method@, params@),
    {
        if self.ready(backend) {
            self.send_server(backend, notification_json(method, params));
        }
    }

    fn notify_client(&mut self, method: &str, params: Json)
        ensures
            final(self)@ == notify_client(old(self)@, method@, params@),
    {
        self.send_client(notification_json(method, params));
    }

    fn respond(&mut self, id: Json, result: Json)
        ensures
            final(self)@ == respond(old(self)@, id@, result@),
    {
        self.send_client(response_json(id, result));
    }

    fn respond_with(&mut self, id: Json, result: Json, error: Option<Json>)
        ensures
            final(self)@ == respond_with(old(self)@, id@, result@, json_view(error)),
    {
        match error {
            Some(error) => self.send_client(error_response_json(id, error)),
            None => self.respond(id, result),
        }
    }

    fn respond_error(&mut self, id: Json, code: i64, message: &str)
        ensures
            final(self)@ == to_client(
                old(self)@,
                error_response(id@, error_object(code as int, message@)),
            ),
    {
        self.send_client(error_response_json(id, error_object_json(code, message)));
    }

    /// `kind`: 1 = error, 2 = warning (LSP `MessageType`).
    fn show_message(&mut self, kind: u8, message: String)
        ensures
            final(self)@ == show_message(old(self)@, kind as int, message@),
    {
        let params = message_params_json(kind, message.as_str());
        self.emit(Action::Log(message));
        self.notify_client("window/showMessage", params);
    }

    fn stop_server(&mut self, backend: Backend)
        ensures
            final(self)@ == stop_server(old(self)@, backend),
    {
        self.set_server(backend, Server { running: false, ready: false });
        self.emit(Action::Stop(backend));
    }

    /// A message could not be written to a backend: nothing more is sent to it.
    pub fn on_write_failed(&mut self, backend: Backend)
        ensures
            final(self)@ == with_server(old(self)@, backend, idle()),
    {
        self.set_server(backend, Server { running: false, ready: false });
    }
}


// ---------------------------------------------------------------------------
// Documents
// ---------------------------------------------------------------------------

/// Publishes the YAML diagnostics plus the mapped script diagnostics of a file.
pub open spec fn publish_diagnostics(p: ProxyModel, uri: Seq<char>) -> ProxyModel {
    match document_at(p.documents, uri) {
        Some(i) => notify_client(
            p,
            "textDocument/publishDiagnostics"@,
            diagnostics_params(uri, all_diagnostics(p.documents[i])),
        ),
        None => p,
    }
}

/// What bash-language-server is told about a virtual document: it is opened
/// when it is new, and changed when its text is another.
pub open spec fn announced(
    p: ProxyModel,
    previous: Option<VirtualModel>,
    current: VirtualModel,
) -> ProxyModel {
    match previous {
        Some(previous) => if previous.script.text != current.script.text {
            notify_server(
                p,
                Backend::Bash,
                "textDocument/didChange"@,
                change_params(current.uri, current.version, current.script.text),
            )
        } else {
            p
        },
        None => notify_server(
            p,
            Backend::Bash,
            "textDocument/didOpen"@,
            open_params(current.uri, current.script.text),
        ),
    }
}

/// The first `count` virtual documents are announced.
pub open spec fn announced_all(
    p: ProxyModel,
    previous: Seq<VirtualModel>,
    current: Seq<VirtualModel>,
    count: int,
) -> ProxyModel
    decreases count,
{
    if count <= 0 {
        p
    } else {
        announced(
            announced_all(p, previous, current, count - 1),
            previous_of(previous, current[count - 1].uri),
            current[count - 1],
        )
    }
}

pub open spec fn closed(p: ProxyModel, uri: Seq<char>) -> ProxyModel {
    notify_server(p, Backend::Bash, "textDocument/didClose"@, document_params(uri))
}

/// Those of the first `count` virtual documents that are gone are closed.
pub open spec fn closed_gone(
    p: ProxyModel,
    previous: Seq<VirtualModel>,
    current: Seq<VirtualModel>,
    count: int,
) -> ProxyModel
    decreases count,
{
    if count <= 0 {
        p
    } else {
        let before = closed_gone(p, previous, current, count - 1);
        if is_gone(current, previous[count - 1].uri) {
            closed(before, previous[count - 1].uri)
        } else {
            before
        }
    }
}

/// The first `count` virtual documents are closed.
pub open spec fn closed_all(p: ProxyModel, scripts: Seq<VirtualModel>, count: int) -> ProxyModel
    decreases count,
{
    if count <= 0 {
        p
    } else {
        closed(closed_all(p, scripts, count - 1), scripts[count - 1].uri)
    }
}

/// The open files without the one with the given URI.
pub open spec fn documents_without(documents: Seq<DocumentModel>, uri: Seq<char>) -> Seq<
    DocumentModel,
> {
    match document_at(documents, uri) {
        Some(i) => documents.remove(i),
        None => documents,
    }
}

pub open spec fn scripts_before(documents: Seq<DocumentModel>, uri: Seq<char>) -> Seq<
    VirtualModel,
> {
    match document_at(documents, uri) {
        Some(i) => documents[i].scripts,
        None => Seq::empty(),
    }
}

pub open spec fn yaml_diagnostics_before(documents: Seq<DocumentModel>, uri: Seq<char>) -> Seq<
    JsonModel,
> {
    match document_at(documents, uri) {
        Some(i) => documents[i].yaml_diagnostics,
        None => Seq::empty(),
    }
}

/// A file has a new text, with the given lines and scripts: its virtual
/// documents are brought up to date, and its diagnostics are published again,
/// because positions of unchanged scripts may have moved.
pub open spec fn synced(
    p: ProxyModel,
    uri: Seq<char>,
    text: Seq<char>,
    lines: Seq<Seq<char>>,
    scripts: Seq<ScriptModel>,
) -> ProxyModel {
    let previous = scripts_before(p.documents, uri);
    let current = current_scripts(uri, previous, scripts, p.settings.shell);
    let without = ProxyModel { documents: documents_without(p.documents, uri), ..p };
    let told = closed_gone(
        announced_all(without, previous, current, current.len() as int),
        previous,
        current,
        previous.len() as int,
    );
    let document = DocumentModel {
        uri,
        text,
        lines,
        scripts: current,
        yaml_diagnostics: yaml_diagnostics_before(p.documents, uri),
    };
    publish_diagnostics(
        ProxyModel { documents: told.documents.push(document), ..told },
        uri,
    )
}

/// A file has a new text.
pub open spec fn text_changed(p: ProxyModel, uri: Seq<char>, text: Seq<char>) -> ProxyModel {
    synced(
        p,
        uri,
        text,
        source_lines(text),
        scripts_of(source_lines(text), yaml_events(text)),
    )
}

/// A file is closed: so are its virtual documents, and its diagnostics go.
pub open spec fn file_closed(p: ProxyModel, uri: Seq<char>) -> ProxyModel {
    match document_at(p.documents, uri) {
        Some(i) => {
            let scripts = p.documents[i].scripts;
            notify_client(
                closed_all(
                    ProxyModel { documents: p.documents.remove(i), ..p },
                    scripts,
                    scripts.len() as int,
                ),
                "textDocument/publishDiagnostics"@,
                diagnostics_params(uri, Seq::empty()),
            )
        },
        None => p,
    }
}

/// Whether the versions of all virtual documents can grow by `steps`.
pub open spec fn versions_fit(documents: Seq<DocumentModel>, steps: int) -> bool {
    &&& steps <= i64::MAX
    &&& forall|i: int, k: int|
        0 <= i < documents.len() && 0 <= k < documents[i].scripts.len()
            ==> #[trigger] documents[i].scripts[k].version + steps <= i64::MAX
}

/// What messages leave alone: everything but the list of actions.
pub open spec fn same_but_out(a: ProxyModel, b: ProxyModel) -> bool {
    b == (ProxyModel { out: b.out, ..a })
}

proof fn lemma_announced_keeps(
    p: ProxyModel,
    previous: Seq<VirtualModel>,
    current: Seq<VirtualModel>,
    count: int,
)
    ensures
        same_but_out(p, announced_all(p, previous, current, count)),
    decreases count,
{
    if count > 0 {
        lemma_announced_keeps(p, previous, current, count - 1);
    }
}

proof fn lemma_closed_gone_keeps(
    p: ProxyModel,
    previous: Seq<VirtualModel>,
    current: Seq<VirtualModel>,
    count: int,
)
    ensures
        same_but_out(p, closed_gone(p, previous, current, count)),
    decreases count,
{
    if count > 0 {
        lemma_closed_gone_keeps(p, previous, current, count - 1);
    }
}

/// What a new text changes besides the actions: the file itself.
pub proof fn lemma_synced_keeps(
    p: ProxyModel,
    uri: Seq<char>,
    text: Seq<char>,
    lines: Seq<Seq<char>>,
    scripts: Seq<ScriptModel>,
)
    ensures
        ({
            let previous = scripts_before(p.documents, uri);
            let document = DocumentModel {
                uri,
                text,
                lines,
                scripts: current_scripts(uri, previous, scripts, p.settings.shell),
                yaml_diagnostics: yaml_diagnostics_before(p.documents, uri),
            };
            same_but_out(
                ProxyModel {
                    documents: documents_without(p.documents, uri).push(document),
                    ..p
                },
                synced(p, uri, text, lines, scripts),
            )
        }),
{
    let previous = scripts_before(p.documents, uri);
    let current = current_scripts(uri, previous, scripts, p.settings.shell);
    let without = ProxyModel { documents: documents_without(p.documents, uri), ..p };
    lemma_announced_keeps(without, previous, current, current.len() as int);
    lemma_closed_gone_keeps(
        announced_all(without, previous, current, current.len() as int),
        previous,
        current,
        previous.len() as int,
    );
}

proof fn lemma_announced_out(
    p: ProxyModel,
    previous: Seq<VirtualModel>,
    current: Seq<VirtualModel>,
    count: int,
)
    ensures
        p.out.is_prefix_of(announced_all(p, previous, current, count).out),
    decreases count,
{
    if count > 0 {
        lemma_announced_out(p, previous, current, count - 1);
    }
}

proof fn lemma_closed_gone_out(
    p: ProxyModel,
    previous: Seq<VirtualModel>,
    current: Seq<VirtualModel>,
    count: int,
)
    ensures
        p.out.is_prefix_of(closed_gone(p, previous, current, count).out),
    decreases count,
{
    if count > 0 {
        lemma_closed_gone_out(p, previous, current, count - 1);
    }
}

/// A new text only adds actions, and the last one publishes diagnostics.
pub proof fn lemma_synced_out(
    p: ProxyModel,
    uri: Seq<char>,
    text: Seq<char>,
    lines: Seq<Seq<char>>,
    scripts: Seq<ScriptModel>,
)
    ensures
        p.out.is_prefix_of(synced(p, uri, text, lines, scripts).out),
        synced(p, uri, text, lines, scripts).out.len() > p.out.len(),
        synced(p, uri, text, lines, scripts).out.last() is ToClient,
{
    let previous = scripts_before(p.documents, uri);
    let current = current_scripts(uri, previous, scripts, p.settings.shell);
    let without = ProxyModel { documents: documents_without(p.documents, uri), ..p };
    lemma_announced_out(without, previous, current, current.len() as int);
    let told = announced_all(without, previous, current, current.len() as int);
    lemma_closed_gone_out(told, previous, current, previous.len() as int);
    lemma_synced_keeps(p, uri, text, lines, scripts);
    let documents = synced(p, uri, text, lines, scripts).documents;
    lemma_first_from(documents, crate::documents::is_document(uri), 0);
    assert(documents[documents.len() - 1].uri == uri);
}

/// A new text makes versions grow by one at most.
proof fn lemma_synced_versions(
    p: ProxyModel,
    uri: Seq<char>,
    text: Seq<char>,
    lines: Seq<Seq<char>>,
    scripts: Seq<ScriptModel>,
    steps: int,
)
    requires
        1 <= steps,
        versions_fit(p.documents, steps),
    ensures
        versions_fit(synced(p, uri, text, lines, scripts).documents, steps - 1),
{
    lemma_synced_keeps(p, uri, text, lines, scripts);
    let previous = scripts_before(p.documents, uri);
    let now = synced(p, uri, text, lines, scripts).documents;
    lemma_first_from(p.documents, crate::documents::is_document(uri), 0);
    let found = document_at(p.documents, uri);
    assert forall|i: int, k: int|
        0 <= i < now.len() && 0 <= k < now[i].scripts.len() implies #[trigger] now[i].scripts[k].version
        + (steps - 1) <= i64::MAX by {
        if i < now.len() - 1 {
            match found {
                Some(at) => {
                    let from = if i < at {
                        i
                    } else {
                        i + 1
                    };
                    assert(now[i] == p.documents[from]);
                    assert(p.documents[from].scripts[k].version + steps <= i64::MAX);
                },
                None => {
                    assert(now[i] == p.documents[i]);
                    assert(p.documents[i].scripts[k].version + steps <= i64::MAX);
                },
            }
        } else {
            let virtual_uri = virtual_uri_of(uri, k as nat, scripts[k].name);
            lemma_first_from(previous, crate::documents::is_virtual(virtual_uri), 0);
            match virtual_at(previous, virtual_uri) {
                Some(j) => {
                    let at = found->Some_0;
                    assert(p.documents[at].scripts[j].version + steps <= i64::MAX);
                },
                None => {},
            }
        }
    }
}

impl Proxy {
    fn publish_diagnostics(&mut self, uri: &str)
        ensures
            final(self)@ == publish_diagnostics(old(self)@, uri@),
    {
        if let Some(i) = find_document(&self.documents, uri) {
            assert(self@.documents[i as int] == self.documents@[i as int]@);
            let diagnostics = self.documents[i].diagnostics();
            self.notify_client(
                "textDocument/publishDiagnostics",
                diagnostics_params_json(uri, diagnostics),
            );
        }
    }

    /// Brings the virtual documents of a file up to date with its scripts.
    pub fn sync_scripts(
        &mut self,
        uri: String,
        text: String,
        source: Source,
        scripts: Vec<Script>,
    )
        requires
            versions_fit(old(self)@.documents, 1),
        ensures
            final(self)@ == synced(
                old(self)@,
                uri@,
                text@,
                source@,
                scripts_view(scripts@),
            ),
    {
        let ghost p = self@;
        let ghost models = scripts_view(scripts@);
        let found = find_document(&self.documents, uri.as_str());
        let (previous, yaml_diagnostics) = match found {
            Some(i) => {
                let ghost documents = self@.documents;
                assert(documents[i as int] == self.documents@[i as int]@);
                let document = self.documents.remove(i);
                assert(self@.documents =~= documents.remove(i as int));
                (document.scripts, document.yaml_diagnostics)
            },
            None => {
                let none: Vec<VirtualDocument> = Vec::new();
                let nothing: Vec<Json> = Vec::new();
                assert(virtuals_view(none@) =~= Seq::<VirtualModel>::empty());
                assert(items_view(nothing@) =~= Seq::<JsonModel>::empty());
                (none, nothing)
            },
        };
        let ghost before = virtuals_view(previous@);
        let ghost without = self@;
        let ghost all = current_scripts(uri@, before, models, p.settings.shell);
        proof {
            assert(before == scripts_before(p.documents, uri@));
            assert(without == (ProxyModel {
                documents: documents_without(p.documents, uri@),
                ..p
            }));
            assert forall|k: int| 0 <= k < before.len() implies (#[trigger] before[k]).version + 1
                <= i64::MAX by {
                let at = document_at(p.documents, uri@)->Some_0;
                assert(p.documents[at].scripts[k].version + 1 <= i64::MAX);
            }
        }
        let mut current: Vec<VirtualDocument> = Vec::new();
        let count = scripts.len();
        let mut index: usize = 0;
        for script in it: scripts
            invariant
                it.seq() == scripts@,
                count == scripts@.len(),
                index == it.index(),
                models == scripts_view(scripts@),
                before == virtuals_view(previous@),
                without.settings == p.settings,
                all == current_scripts(uri@, before, models, p.settings.shell),
                self@ == announced_all(without, before, all, index as int),
                virtuals_view(current@) == all.take(index as int),
                forall|k: int|
                    0 <= k < before.len() ==> (#[trigger] before[k]).version + 1 <= i64::MAX,
        {
            proof {
                lemma_announced_keeps(without, before, all, index as int);
                assert(models[index as int] == script@);
                assert(all.len() == models.len());
            }
            let ghost done = virtuals_view(current@);
            let name = script.name().to_owned();
            let script = match &self.settings.shell {
                Some(shell) => {
                    let mut line = "# shellcheck shell=".to_owned();
                    line.append(shell.as_str());
                    script.prepend_line(line.as_str())
                },
                None => script,
            };
            let virtual_uri = virtual_uri(uri.as_str(), index, name.as_str());
            let ghost now = all[index as int];
            let next = match find_virtual(&previous, virtual_uri.as_str()) {
                Some(k) => {
                    assert(before[k as int] == previous@[k as int]@);
                    if !same_text(previous[k].script.text(), script.text()) {
                        // Diagnostics refer to the old text; mapping them with the new
                        // script would misplace them until fresh ones arrive.
                        let version: i64 = previous[k].version + 1;
                        self.notify_server(
                            Backend::Bash,
                            "textDocument/didChange",
                            change_params_json(virtual_uri.as_str(), version, script.text()),
                        );
                        let diagnostics: Vec<Json> = Vec::new();
                        assert(items_view(diagnostics@) =~= Seq::<JsonModel>::empty());
                        VirtualDocument { uri: virtual_uri, version, script, diagnostics }
                    } else {
                        VirtualDocument {
                            uri: virtual_uri,
                            version: previous[k].version,
                            script,
                            diagnostics: duplicates(&previous[k].diagnostics),
                        }
                    }
                },
                None => {
                    self.notify_server(
                        Backend::Bash,
                        "textDocument/didOpen",
                        open_params_json(virtual_uri.as_str(), script.text()),
                    );
                    let diagnostics: Vec<Json> = Vec::new();
                    assert(items_view(diagnostics@) =~= Seq::<JsonModel>::empty());
                    VirtualDocument { uri: virtual_uri, version: 1, script, diagnostics }
                },
            };
            assert(next@ == now);
            current.push(next);
            proof {
                assert(virtuals_view(current@) =~= done.push(now));
                assert(done.push(now) =~= all.take(index + 1));
            }
            index = index + 1;
        }
        assert(all.take(all.len() as int) =~= all);
        let ghost told = self@;
        let mut k: usize = 0;
        while k < previous.len()
            invariant
                k <= previous@.len(),
                before == virtuals_view(previous@),
                virtuals_view(current@) == all,
                self@ == closed_gone(told, before, all, k as int),
            decreases previous@.len() - k,
        {
            assert(before[k as int] == previous@[k as int]@);
            if find_virtual(&current, previous[k].uri.as_str()).is_none() {
                self.notify_server(
                    Backend::Bash,
                    "textDocument/didClose",
                    document_params_json(previous[k].uri.as_str()),
                );
            }
            k = k + 1;
        }
        let ghost documents = self@.documents;
        let document = Document {
            uri: uri.clone(),
            text,
            source,
            scripts: current,
            yaml_diagnostics,
        };
        self.documents.push(document);
        assert(self@.documents =~= documents.push(document@));
        // Positions of unchanged scripts may have moved.
        self.publish_diagnostics(uri.as_str());
    }

    /// Re-extracts the scripts of a YAML document and brings the virtual
    /// documents in bash-language-server up to date.
    pub fn sync(&mut self, uri: String, text: String)
        requires
            versions_fit(old(self)@.documents, 1),
        ensures
            final(self)@ == text_changed(old(self)@, uri@, text@),
    {
        let (source, scripts) = parse(text.as_str());
        self.sync_scripts(uri, text, source, scripts);
    }

    /// Closes a file.
    pub fn close(&mut self, uri: &str)
        ensures
            final(self)@ == file_closed(old(self)@, uri@),
    {
        let i = match find_document(&self.documents, uri) {
            Some(i) => i,
            None => return ,
        };
        let ghost documents = self@.documents;
        assert(documents[i as int] == self.documents@[i as int]@);
        let document = self.documents.remove(i);
        assert(self@.documents =~= documents.remove(i as int));
        let ghost without = self@;
        let ghost scripts = virtuals_view(document.scripts@);
        let mut k: usize = 0;
        while k < document.scripts.len()
            invariant
                k <= document.scripts@.len(),
                scripts == virtuals_view(document.scripts@),
                self@ == closed_all(without, scripts, k as int),
            decreases document.scripts@.len() - k,
        {
            assert(scripts[k as int] == document.scripts@[k as int]@);
            self.notify_server(
                Backend::Bash,
                "textDocument/didClose",
                document_params_json(document.scripts[k].uri.as_str()),
            );
            k = k + 1;
        }
        let none: Vec<Json> = Vec::new();
        assert(items_view(none@) =~= Seq::<JsonModel>::empty());
        self.notify_client("textDocument/publishDiagnostics", diagnostics_params_json(uri, none));
    }
}


// ---------------------------------------------------------------------------
// Requests to the backends
// ---------------------------------------------------------------------------

/// A backend that did not initialize, in words.
pub open spec fn init_failure(backend: Backend, reason: Seq<char>) -> Seq<char> {
    NAME@ + ": "@ + program_of(backend) + " failed to initialize: "@ + reason
}

/// One of the backends that the client's `initialize` request waits for is done.
pub open spec fn initialized_one(p: ProxyModel) -> ProxyModel {
    match p.initializing {
        Some((id, remaining)) => if remaining > 1 {
            ProxyModel { initializing: Some((id, remaining - 1)), ..p }
        } else {
            respond(ProxyModel { initializing: None, ..p }, id, initialize_result_model())
        },
        None => p,
    }
}

/// One of the backends that the client's `shutdown` request waits for is done.
pub open spec fn shut_down_one(p: ProxyModel) -> ProxyModel {
    match p.shutting_down {
        Some((id, remaining)) => if remaining > 1 {
            ProxyModel { shutting_down: Some((id, remaining - 1)), ..p }
        } else {
            respond(ProxyModel { shutting_down: None, ..p }, id, JsonModel::Null)
        },
        None => p,
    }
}

/// A backend is ready for documents.
pub open spec fn became_ready(p: ProxyModel, backend: Backend) -> ProxyModel {
    let ready = with_server(p, backend, Server { ready: true, ..server(p, backend) });
    let told = notify_server(ready, backend, "initialized"@, JsonModel::Object(Map::empty()));
    match backend {
        Backend::Bash => told,
        Backend::Yaml => notify_server(
            told,
            backend,
            "workspace/didChangeConfiguration"@,
            settings_params("yaml"@, p.settings.yaml),
        ),
    }
}

pub open spec fn item_target(p: ProxyModel, target: TargetUri) -> TargetModel {
    match target {
        TargetUri::Script(uri) => TargetModel::Script(origin_of(p.documents, uri)),
        TargetUri::Yaml => TargetModel::Yaml,
    }
}

/// A hover for the client.
pub open spec fn hover_result(p: ProxyModel, hover: JsonModel, target: TargetUri) -> JsonModel {
    match target {
        TargetUri::Script(uri) => mapped_hover(hover, origin_of(p.documents, uri)),
        TargetUri::Yaml => hover,
    }
}

/// A completion result for the client, with the items of the proxy.
pub open spec fn completion_result(
    p: ProxyModel,
    result: JsonModel,
    target: TargetUri,
    extra: Seq<JsonModel>,
    failed: bool,
) -> JsonModel {
    let mapped = mapped_completion(result, item_target(p, target));
    if target is Yaml && !failed {
        merged_items(mapped, extra)
    } else {
        mapped
    }
}

/// A request to a backend is finished. There is no response when the backend
/// is unavailable or exited before answering.
pub open spec fn completed(
    p: ProxyModel,
    backend: Backend,
    pending: PendingModel,
    reply: Option<JsonModel>,
) -> ProxyModel {
    let result = match reply {
        Some(reply) => field_or_null(reply, "result"@),
        None => JsonModel::Null,
    };
    let error = match reply {
        Some(reply) => field(reply, "error"@),
        None => None,
    };
    match pending {
        PendingModel::Initialize => initialized_one(
            if reply is Some && error is None {
                became_ready(p, backend)
            } else {
                let reason = match error {
                    Some(error) => json_text(error),
                    None => "it exited"@,
                };
                stop_server(show_message(p, 2, init_failure(backend, reason)), backend)
            },
        ),
        PendingModel::Shutdown => shut_down_one(p),
        PendingModel::Resolve(id) => respond_with(p, id, result, error),
        PendingModel::Hover(id, target) => respond_with(
            p,
            id,
            hover_result(p, result, target),
            error,
        ),
        PendingModel::Completion(id, target, extra) => respond_with(
            p,
            id,
            completion_result(p, result, target, extra, error is Some),
            error,
        ),
    }
}

/// A request goes to a backend under a new number, and waits for its answer.
/// One that is not running counts as answered.
pub open spec fn requested(
    p: ProxyModel,
    backend: Backend,
    method: Seq<char>,
    params: JsonModel,
    pending: PendingModel,
) -> ProxyModel {
    if server(p, backend).running {
        let id = p.next_id + 1;
        to_server(
            ProxyModel {
                next_id: id,
                pending: p.pending.push(RequestModel { id, backend, pending }),
                ..p
            },
            backend,
            request_message(id, method, params),
        )
    } else {
        completed(p, backend, pending, None)
    }
}

impl Proxy {
    fn initialized_one(&mut self)
        ensures
            final(self)@ == initialized_one(old(self)@),
    {
        match self.initializing.take() {
            Some((id, remaining)) => {
                if remaining > 1 {
                    self.initializing = Some((id, remaining - 1));
                } else {
                    self.respond(id, initialize_result());
                }
            },
            None => {},
        }
    }

    fn shut_down_one(&mut self)
        ensures
            final(self)@ == shut_down_one(old(self)@),
    {
        match self.shutting_down.take() {
            Some((id, remaining)) => {
                if remaining > 1 {
                    self.shutting_down = Some((id, remaining - 1));
                } else {
                    self.respond(id, Json::Null);
                }
            },
            None => {},
        }
    }

    fn became_ready(&mut self, backend: Backend)
        ensures
            final(self)@ == became_ready(old(self)@, backend),
    {
        let running = self.running(backend);
        self.set_server(backend, Server { running, ready: true });
        self.notify_server(backend, "initialized", Json::object());
        match backend {
            Backend::Bash => {},
            Backend::Yaml => {
                let settings = settings_params_json("yaml", self.settings.yaml.duplicate());
                self.notify_server(backend, "workspace/didChangeConfiguration", settings);
            },
        }
    }

    /// A backend could not be initialized, for the given reason.
    pub fn init_failed(&mut self, backend: Backend, reason: &str)
        ensures
            final(self)@ == stop_server(
                show_message(old(self)@, 2, init_failure(backend, reason@)),
                backend,
            ),
    {
        let mut message = NAME.to_owned();
        message.append(": ");
        message.append(backend.program());
        message.append(" failed to initialize: ");
        message.append(reason);
        self.show_message(2, message);
        self.stop_server(backend);
    }

    /// Finishes a request to a backend. `reply` is `None` if the backend
    /// is unavailable or exited before answering.
    pub fn complete(
        &mut self,
        backend: Backend,
        pending: Pending,
        reply: Option<&Json>,
    )
        ensures
            final(self)@ == completed(
                old(self)@,
                backend,
                pending@,
                opt_view(reply),
            ),
    {
        let result = match reply {
            Some(reply) => field_copy(reply, "result"),
            None => Json::Null,
        };
        let error = match reply {
            Some(reply) => match reply.get("error") {
                Some(error) => Some(error.duplicate()),
                None => None,
            },
            None => None,
        };
        match pending {
            Pending::Initialize => {
                if reply.is_some() && error.is_none() {
                    self.became_ready(backend);
                } else if let Some(error) = &error {
                    self.init_failed(backend, show_json(error).as_str());
                } else {
                    self.init_failed(backend, "it exited");
                }
                self.initialized_one();
            },
            Pending::Shutdown => self.shut_down_one(),
            Pending::Resolve(id) => self.respond_with(id, result, error),
            Pending::Hover(id, Target::Yaml) => self.respond_with(id, result, error),
            Pending::Hover(id, Target::Script(uri)) => {
                let result = map_hover(result, &find_script(&self.documents, uri.as_str()));
                self.respond_with(id, result, error);
            },
            Pending::Completion(id, Target::Yaml, extra) => {
                let result = map_completion(result, &ItemTarget::Yaml);
                let result = if error.is_none() {
                    merge(result, extra)
                } else {
                    result
                };
                self.respond_with(id, result, error);
            },
            Pending::Completion(id, Target::Script(uri), _) => {
                let result = map_completion(
                    result,
                    &ItemTarget::Script(find_script(&self.documents, uri.as_str())),
                );
                self.respond_with(id, result, error);
            },
        }
    }

    fn request(&mut self, backend: Backend, method: &str, params: Json, pending: Pending)
        requires
            old(self)@.next_id < i64::MAX,
        ensures
            final(self)@ == requested(old(self)@, backend, method@, params@, pending@),
    {
        if !self.running(backend) {
            self.complete(backend, pending, None);
            return ;
        }
        let id: i64 = self.next_id + 1;
        self.next_id = id;
        let ghost waiting = self@.pending;
        let request = PendingRequest { id, backend, pending };
        self.pending.push(request);
        assert(self@.pending =~= waiting.push(request@));
        self.send_server(backend, request_json(id, method, params));
    }
}


// ---------------------------------------------------------------------------
// Messages from the backends
// ---------------------------------------------------------------------------

/// The file with new diagnostics for one of its scripts.
pub open spec fn with_script_diagnostics(
    document: DocumentModel,
    script: int,
    diagnostics: Seq<JsonModel>,
) -> DocumentModel {
    DocumentModel {
        scripts: document.scripts.update(
            script,
            VirtualModel { diagnostics, ..document.scripts[script] },
        ),
        ..document
    }
}

/// bash-language-server reports diagnostics. Those for an older script text
/// would map to wrong positions and are ignored.
pub open spec fn script_diagnosed(p: ProxyModel, params: JsonModel) -> ProxyModel {
    match text_of(field_or_null(params, "uri"@)) {
        Some(uri) => match owner_of(p.documents, uri) {
            Some((i, k)) => {
                let current = p.documents[i].scripts[k].version;
                let stale = i64_of(field_or_null(params, "version"@)) matches Some(version)
                    && version != current;
                if stale {
                    p
                } else {
                    let document = with_script_diagnostics(
                        p.documents[i],
                        k,
                        items_or_none(field_or_null(params, "diagnostics"@)),
                    );
                    publish_diagnostics(
                        ProxyModel { documents: p.documents.update(i, document), ..p },
                        document.uri,
                    )
                }
            },
            None => p,
        },
        None => p,
    }
}

/// yaml-language-server reports diagnostics.
pub open spec fn yaml_diagnosed(p: ProxyModel, params: JsonModel) -> ProxyModel {
    match text_of(field_or_null(params, "uri"@)) {
        Some(uri) => match document_at(p.documents, uri) {
            Some(i) => {
                let document = DocumentModel {
                    yaml_diagnostics: items_or_none(field_or_null(params, "diagnostics"@)),
                    ..p.documents[i]
                };
                publish_diagnostics(
                    ProxyModel { documents: p.documents.update(i, document), ..p },
                    uri,
                )
            },
            None => p,
        },
        None => p,
    }
}

/// The settings that a backend asks for by section.
pub open spec fn configuration_item(
    settings: SettingsModel,
    backend: Backend,
    item: JsonModel,
) -> JsonModel {
    match (backend, text_of(field_or_null(item, "section"@))) {
        (Backend::Bash, Some(section)) => if section == "bashIde"@ {
            settings.bash_ide
        } else {
            JsonModel::Null
        },
        (Backend::Yaml, Some(section)) => if section == "yaml"@ {
            settings.yaml
        } else {
            JsonModel::Null
        },
        _ => JsonModel::Null,
    }
}

/// The answer to a request of a backend.
pub open spec fn answer_to_backend(
    settings: SettingsModel,
    backend: Backend,
    method: Seq<char>,
    message: JsonModel,
) -> JsonModel {
    if method == "workspace/configuration"@ {
        JsonModel::Array(
            items_or_none(
                field_or_null(field_or_null(message, "params"@), "items"@),
            ).map_values(|item: JsonModel| configuration_item(settings, backend, item)),
        )
    } else {
        JsonModel::Null
    }
}

pub open spec fn has_id(id: int) -> spec_fn(RequestModel) -> bool {
    |request: RequestModel| request.id == id
}

/// A backend answers a request. Answers to unknown requests are ignored.
pub open spec fn answered(
    p: ProxyModel,
    id: JsonModel,
    message: JsonModel,
) -> ProxyModel {
    match i64_of(id) {
        Some(id) => match first_index(p.pending, has_id(id)) {
            Some(i) => completed(
                ProxyModel { pending: p.pending.remove(i), ..p },
                p.pending[i].backend,
                p.pending[i].pending,
                Some(message),
            ),
            None => p,
        },
        None => p,
    }
}

/// A message comes from a backend.
pub open spec fn server_message(
    p: ProxyModel,
    backend: Backend,
    message: JsonModel,
) -> ProxyModel {
    let method = match field(message, "method"@) {
        Some(method) => text_of(method),
        None => None,
    };
    match (method, field(message, "id"@)) {
        (Some(method), Some(id)) => to_server(
            p,
            backend,
            response(id, answer_to_backend(p.settings, backend, method, message)),
        ),
        (Some(method), None) => if method == "textDocument/publishDiagnostics"@ {
            match backend {
                Backend::Bash => script_diagnosed(p, field_or_null(message, "params"@)),
                Backend::Yaml => yaml_diagnosed(p, field_or_null(message, "params"@)),
            }
        } else if method == "window/logMessage"@ || method == "window/showMessage"@ {
            to_client(p, message)
        } else {
            p
        },
        (None, Some(id)) => answered(p, id, message),
        (None, None) => p,
    }
}

pub open spec fn sent_to(backend: Backend) -> spec_fn(RequestModel) -> bool {
    |request: RequestModel| request.backend == backend
}

/// All given requests are finished without an answer.
pub open spec fn completed_all(p: ProxyModel, requests: Seq<RequestModel>) -> ProxyModel
    decreases requests.len(),
{
    if requests.len() == 0 {
        p
    } else {
        completed(
            completed_all(p, requests.drop_last()),
            requests.last().backend,
            requests.last().pending,
            None,
        )
    }
}

pub open spec fn exited_message(backend: Backend) -> Seq<char> {
    NAME@ + ": "@ + program_of(backend) + " exited unexpectedly"@
}

/// A backend ended. All its requests are finished without an answer, and the
/// user is told unless it was asked to end.
pub open spec fn server_closed(p: ProxyModel, backend: Backend) -> ProxyModel {
    let was_running = server(p, backend).running;
    let stopped = stop_server(p, backend);
    let done = completed_all(
        ProxyModel {
            pending: p.pending.filter(|request: RequestModel| request.backend != backend),
            ..stopped
        },
        p.pending.filter(sent_to(backend)),
    );
    if was_running && !done.shutdown_requested {
        show_message(done, 1, exited_message(backend))
    } else {
        done
    }
}

impl Proxy {
    fn on_script_diagnostics(&mut self, params: &Json)
        ensures
            final(self)@ == script_diagnosed(old(self)@, params@),
    {
        let virtual_uri = match params.at("uri").as_str() {
            Some(uri) => uri,
            None => return ,
        };
        let diagnostics = items_in(params.at("diagnostics"));
        let (i, k) = match find_owner(&self.documents, virtual_uri) {
            Some(found) => found,
            None => return ,
        };
        let ghost documents = self@.documents;
        assert(documents[i as int] == self.documents@[i as int]@);
        assert(documents[i as int].scripts[k as int] == self.documents@[i as int].scripts@[k as int]@);
        // Diagnostics for an older script text would map to wrong positions.
        if let Some(version) = params.at("version").as_i64() {
            if version != self.documents[i].scripts[k].version {
                return ;
            }
        }
        self.documents[i].scripts[k].diagnostics = diagnostics;
        let ghost document = with_script_diagnostics(
            documents[i as int],
            k as int,
            items_view(diagnostics@),
        );
        proof {
            assert(self.documents@[i as int]@.scripts =~= document.scripts);
            assert(self@.documents =~= documents.update(i as int, document));
        }
        let uri = self.documents[i].uri.clone();
        self.publish_diagnostics(uri.as_str());
    }

    fn on_yaml_diagnostics(&mut self, params: &Json)
        ensures
            final(self)@ == yaml_diagnosed(old(self)@, params@),
    {
        let uri = match params.at("uri").as_str() {
            Some(uri) => uri,
            None => return ,
        };
        let i = match find_document(&self.documents, uri) {
            Some(i) => i,
            None => return ,
        };
        let ghost documents = self@.documents;
        assert(documents[i as int] == self.documents@[i as int]@);
        let diagnostics = items_in(params.at("diagnostics"));
        self.documents[i].yaml_diagnostics = diagnostics;
        let ghost document = DocumentModel {
            yaml_diagnostics: items_view(diagnostics@),
            ..documents[i as int]
        };
        assert(self@.documents =~= documents.update(i as int, document));
        self.publish_diagnostics(uri);
    }

    fn configuration_items(&self, backend: Backend, items: &Vec<Json>) -> (r: Vec<Json>)
        ensures
            items_view(r@) == items_view(items@).map_values(
                |item: JsonModel| configuration_item(self@.settings, backend, item),
            ),
    {
        let ghost wanted = items_view(items@).map_values(
            |item: JsonModel| configuration_item(self@.settings, backend, item),
        );
        let mut out: Vec<Json> = Vec::new();
        let mut i: usize = 0;
        while i < items.len()
            invariant
                i <= items@.len(),
                wanted == items_view(items@).map_values(
                    |item: JsonModel| configuration_item(self@.settings, backend, item),
                ),
                items_view(out@) == wanted.take(i as int),
            decreases items@.len() - i,
        {
            let ghost done = items_view(out@);
            let item = match (backend, items[i].at("section").as_str()) {
                (Backend::Bash, Some(section)) => if same_text(section, "bashIde") {
                    self.settings.bash_ide.duplicate()
                } else {
                    Json::Null
                },
                (Backend::Yaml, Some(section)) => if same_text(section, "yaml") {
                    self.settings.yaml.duplicate()
                } else {
                    Json::Null
                },
                _ => Json::Null,
            };
            out.push(item);
            proof {
                assert(items_view(out@) =~= done.push(item@));
                assert(done.push(item@) =~= wanted.take(i + 1));
            }
            i = i + 1;
        }
        assert(wanted.take(i as int) =~= wanted);
        out
    }

    fn find_pending(&self, id: i64) -> (r: Option<usize>)
        ensures
            match r {
                Some(i) => i < self@.pending.len() && first_index(self@.pending, has_id(id as int))
                    == Some(i as int),
                None => first_index(self@.pending, has_id(id as int)) is None,
            },
    {
        let ghost requests = self@.pending;
        let mut i: usize = 0;
        while i < self.pending.len()
            invariant
                i <= self.pending@.len(),
                requests == requests_view(self.pending@),
                self@.pending == requests,
                forall|k: int| 0 <= k < i ==> !has_id(id as int)(#[trigger] requests[k]),
            decreases self.pending@.len() - i,
        {
            assert(requests[i as int] == self.pending@[i as int]@);
            if self.pending[i].id == id {
                proof {
                    lemma_first_from_is(requests, has_id(id as int), 0, i as int);
                }
                return Some(i);
            }
            i = i + 1;
        }
        proof {
            lemma_first_from(requests, has_id(id as int), 0);
        }
        None
    }

    fn on_answer(&mut self, id: &Json, message: &Json)
        ensures
            final(self)@ == answered(old(self)@, id@, message@),
    {
        let id = match id.as_i64() {
            Some(id) => id,
            None => return ,
        };
        if let Some(i) = self.find_pending(id) {
            let ghost requests = self@.pending;
            assert(requests[i as int] == self.pending@[i as int]@);
            let request = self.pending.remove(i);
            assert(self@.pending =~= requests.remove(i as int));
            self.complete(request.backend, request.pending, Some(message));
        }
    }

    /// Handles a message from a backend.
    pub fn on_server_message(&mut self, backend: Backend, message: Json)
        ensures
            final(self)@ == server_message(old(self)@, backend, message@),
    {
        let method = match message.get("method") {
            Some(method) => method.as_str(),
            None => None,
        };
        match (method, message.get("id")) {
            (Some(method), Some(id)) => {
                let result = if same_text(method, "workspace/configuration") {
                    let items = items_in(message.at("params").at("items"));
                    Json::array(self.configuration_items(backend, &items))
                } else {
                    Json::Null
                };
                self.send_server(backend, response_json(id.duplicate(), result));
            },
            (Some(method), None) => {
                if same_text(method, "textDocument/publishDiagnostics") {
                    match backend {
                        Backend::Bash => self.on_script_diagnostics(message.at("params")),
                        Backend::Yaml => self.on_yaml_diagnostics(message.at("params")),
                    }
                } else if same_text(method, "window/logMessage") || same_text(
                    method,
                    "window/showMessage",
                ) {
                    self.send_client(message.duplicate());
                }
            },
            (None, Some(id)) => {
                self.on_answer(id, &message);
            },
            (None, None) => {},
        }
    }

    /// Handles the end of a backend.
    pub fn on_server_closed(&mut self, backend: Backend)
        ensures
            final(self)@ == server_closed(old(self)@, backend),
    {
        let ghost p = self@;
        let was_running = self.running(backend);
        self.stop_server(backend);
        let ghost stopped = self@;
        let mut all: Vec<PendingRequest> = Vec::new();
        std::mem::swap(&mut all, &mut self.pending);
        let ghost requests = requests_view(all@);
        let ghost others = |request: RequestModel| request.backend != backend;
        let mut gone: Vec<PendingRequest> = Vec::new();
        proof {
            reveal(Seq::filter);
            assert(requests.take(0) =~= Seq::<RequestModel>::empty());
            assert(requests_view(gone@) =~= requests.take(0).filter(sent_to(backend)));
            assert(requests_view(self.pending@) =~= requests.take(0).filter(others));
        }
        for request in it: all
            invariant
                it.seq() == all@,
                requests == requests_view(all@),
                others == (|request: RequestModel| request.backend != backend),
                self@ == (ProxyModel { pending: self@.pending, ..stopped }),
                self@.pending == requests.take(it.index() as int).filter(others),
                requests_view(gone@) == requests.take(it.index() as int).filter(sent_to(backend)),
        {
            let ghost kept = self@.pending;
            let ghost taken = requests_view(gone@);
            proof {
                reveal(Seq::filter);
                assert(requests[it.index() as int] == request@);
                assert(requests.take(it.index() + 1).drop_last() =~= requests.take(
                    it.index() as int,
                ));
            }
            if request.backend == backend {
                gone.push(request);
                assert(requests_view(gone@) =~= taken.push(request@));
            } else {
                self.pending.push(request);
                assert(self@.pending =~= kept.push(request@));
            }
        }
        assert(requests.take(requests.len() as int) =~= requests);
        let ghost left = self@;
        let ghost taken = requests_view(gone@);
        assert(taken.take(0) =~= Seq::<RequestModel>::empty());
        for request in it: gone
            invariant
                it.seq() == gone@,
                taken == requests_view(gone@),
                self@ == completed_all(left, taken.take(it.index() as int)),
        {
            proof {
                assert(taken[it.index() as int] == request@);
                assert(taken.take(it.index() + 1).drop_last() =~= taken.take(it.index() as int));
            }
            self.complete(request.backend, request.pending, None);
        }
        assert(taken.take(taken.len() as int) =~= taken);
        if was_running && !self.shutdown_requested {
            let mut message = NAME.to_owned();
            message.append(": ");
            message.append(backend.program());
            message.append(" exited unexpectedly");
            self.show_message(1, message);
        }
    }
}


// ---------------------------------------------------------------------------
// Starting
// ---------------------------------------------------------------------------

/// The client initializes the proxy: its settings and capabilities are noted,
/// and the first backend is started.
pub open spec fn initialize(p: ProxyModel, id: JsonModel, params: JsonModel) -> ProxyModel {
    emit(
        ProxyModel {
            settings: settings_of(field(params, "initializationOptions"@)),
            snippets: supports_snippets(params),
            starting: Some(
                StartingModel { id, params, backend: Backend::Bash, bash_started: false },
            ),
            ..p
        },
        ActionModel::Start(Backend::Bash),
    )
}

/// One backend has been started or not. The other one follows; in the end the
/// client gets its answer, at once when there is no backend to wait for.
pub open spec fn start_next(p: ProxyModel, starting: StartingModel, ok: bool) -> ProxyModel {
    match starting.backend {
        Backend::Bash => emit(
            ProxyModel {
                starting: Some(
                    StartingModel { backend: Backend::Yaml, bash_started: ok, ..starting },
                ),
                ..p
            },
            ActionModel::Start(Backend::Yaml),
        ),
        Backend::Yaml => {
            let started = (if starting.bash_started {
                1int
            } else {
                0
            }) + (if ok {
                1int
            } else {
                0
            });
            if started == 0 {
                respond(
                    ProxyModel { starting: None, ..p },
                    starting.id,
                    initialize_result_model(),
                )
            } else {
                ProxyModel { starting: None, initializing: Some((starting.id, started)), ..p }
            }
        },
    }
}

/// The backend that is being started runs: it is initialized.
pub open spec fn server_started(p: ProxyModel) -> ProxyModel {
    match p.starting {
        Some(starting) => {
            let backend = starting.backend;
            let running = with_server(
                p,
                backend,
                Server { running: true, ..server(p, backend) },
            );
            start_next(
                requested(
                    running,
                    backend,
                    "initialize"@,
                    server_params_model(
                        backend,
                        starting.params,
                        p.settings.bash_ide,
                        p.process_id,
                    ),
                    PendingModel::Initialize,
                ),
                starting,
                true,
            )
        },
        None => p,
    }
}

/// What the user is told about a backend that cannot be started.
pub open spec fn start_failure(backend: Backend, path: Seq<char>, error: Seq<char>) -> Seq<char> {
    NAME@ + ": could not start `"@ + path + "` ("@ + error + "). Install "@ + program_of(backend)
        + " for "@ + purpose_of(backend) + "."@
}

/// The backend that is being started cannot be started.
pub open spec fn server_not_started(p: ProxyModel, path: Seq<char>, error: Seq<char>) -> ProxyModel {
    match p.starting {
        Some(starting) => start_next(
            show_message(p, 2, start_failure(starting.backend, path, error)),
            starting,
            false,
        ),
        None => p,
    }
}

impl Proxy {
    fn initialize(&mut self, id: Json, params: &Json)
        ensures
            final(self)@ == initialize(old(self)@, id@, params@),
    {
        self.settings = Settings::from_value(params.get("initializationOptions"));
        self.snippets = snippet_support(params);
        self.starting = Some(
            Starting {
                id,
                params: params.duplicate(),
                backend: Backend::Bash,
                bash_started: false,
            },
        );
        self.emit(Action::Start(Backend::Bash));
    }

    fn start_next(&mut self, starting: Starting, ok: bool)
        requires
            old(self)@.starting is None,
        ensures
            final(self)@ == start_next(
                old(self)@,
                starting_view(Some(starting))->Some_0,
                ok,
            ),
    {
        match starting.backend {
            Backend::Bash => {
                self.starting = Some(
                    Starting {
                        id: starting.id,
                        params: starting.params,
                        backend: Backend::Yaml,
                        bash_started: ok,
                    },
                );
                self.emit(Action::Start(Backend::Yaml));
            },
            Backend::Yaml => {
                if starting.bash_started && ok {
                    self.initializing = Some((starting.id, 2));
                } else if starting.bash_started || ok {
                    self.initializing = Some((starting.id, 1));
                } else {
                    self.respond(starting.id, initialize_result());
                }
            },
        }
    }

    /// The backend of the last `Start` action runs.
    pub fn on_started(&mut self)
        requires
            old(self)@.next_id < i64::MAX,
        ensures
            final(self)@ == server_started(old(self)@),
    {
        let starting = match self.starting.take() {
            Some(starting) => starting,
            None => return ,
        };
        let ready = self.ready(starting.backend);
        self.set_server(starting.backend, Server { running: true, ready });
        let params = server_params(
            starting.backend,
            &starting.params,
            &self.settings.bash_ide,
            self.process_id,
        );
        self.request(starting.backend, "initialize", params, Pending::Initialize);
        self.start_next(starting, true);
    }

    /// The backend of the last `Start` action could not be started from `path`.
    pub fn on_start_failed(&mut self, path: &str, error: &str)
        ensures
            final(self)@ == server_not_started(old(self)@, path@, error@),
    {
        let starting = match self.starting.take() {
            Some(starting) => starting,
            None => return ,
        };
        let mut message = NAME.to_owned();
        message.append(": could not start `");
        message.append(path);
        message.append("` (");
        message.append(error);
        message.append("). Install ");
        message.append(starting.backend.program());
        message.append(" for ");
        message.append(starting.backend.purpose());
        message.append(".");
        self.show_message(2, message);
        self.start_next(starting, false);
    }
}


// ---------------------------------------------------------------------------
// Messages from the client
// ---------------------------------------------------------------------------

/// What a positional request waits for. Completion requests carry the items of
/// the proxy along.
pub open spec fn positional(
    id: JsonModel,
    target: TargetUri,
    extra: Option<Seq<JsonModel>>,
) -> PendingModel {
    match extra {
        Some(extra) => PendingModel::Completion(id, target, extra),
        None => PendingModel::Hover(id, target),
    }
}

/// The virtual document and the position in it that a request points at.
pub open spec fn locate(p: ProxyModel, uri: Seq<char>, params: JsonModel) -> Option<
    (Seq<char>, JsonModel),
> {
    let position = field_or_null(params, "position"@);
    match (
        index_of(field_or_null(position, "line"@)),
        index_of(field_or_null(position, "character"@)),
        document_at(p.documents, uri),
    ) {
        (Some(line), Some(character), Some(i)) => located(p.documents[i], line, character),
        _ => None,
    }
}

/// The request for a virtual document: its URI and position take the place of
/// those of the file.
pub open spec fn moved_params(params: JsonModel, uri: Seq<char>, position: JsonModel) -> JsonModel {
    with_field(
        with_field(params, "textDocument"@, single("uri"@, JsonModel::Text(uri))),
        "position"@,
        position,
    )
}

/// Requests inside a script go to bash-language-server and all others to
/// yaml-language-server. The client gets null when there is nobody to ask.
pub open spec fn forward_positional(
    p: ProxyModel,
    method: Seq<char>,
    id: JsonModel,
    params: JsonModel,
    extra: Option<Seq<JsonModel>>,
) -> ProxyModel {
    match text_of(field_or_null(field_or_null(params, "textDocument"@), "uri"@)) {
        Some(uri) => match locate(p, uri, params) {
            Some((virtual_uri, position)) => if p.bash.ready {
                requested(
                    p,
                    Backend::Bash,
                    method,
                    moved_params(params, virtual_uri, position),
                    positional(id, TargetUri::Script(virtual_uri), extra),
                )
            } else {
                respond(p, id, JsonModel::Null)
            },
            None => if method == "textDocument/completion"@ && field(
                p.settings.yaml,
                "completion"@,
            ) == Some(JsonModel::Bool(false)) {
                respond(p, id, JsonModel::Null)
            } else if p.yaml.ready && document_at(p.documents, uri) is Some {
                requested(
                    p,
                    Backend::Yaml,
                    method,
                    params,
                    positional(id, TargetUri::Yaml, extra),
                )
            } else {
                respond(p, id, JsonModel::Null)
            },
        },
        None => respond(p, id, JsonModel::Null),
    }
}

/// The completion items of the proxy for a request.
pub open spec fn own_items(p: ProxyModel, params: JsonModel) -> Seq<JsonModel> {
    match text_of(field_or_null(field_or_null(params, "textDocument"@), "uri"@)) {
        Some(uri) => match document_at(p.documents, uri) {
            Some(i) => script_items_of(
                p.documents[i].text,
                field_or_null(params, "position"@),
                p.settings.yaml,
                p.snippets,
            ),
            None => Seq::empty(),
        },
        None => Seq::empty(),
    }
}

/// The client asks the proxy to shut down: so are the backends that run, and
/// the client waits for all of them.
pub open spec fn shutdown(p: ProxyModel, id: JsonModel) -> ProxyModel {
    let asked = ProxyModel { shutdown_requested: true, ..p };
    match (p.bash.running, p.yaml.running) {
        (false, false) => respond(asked, id, JsonModel::Null),
        (true, false) => shutdown_server(
            ProxyModel { shutting_down: Some((id, 1)), ..asked },
            Backend::Bash,
        ),
        (false, true) => shutdown_server(
            ProxyModel { shutting_down: Some((id, 1)), ..asked },
            Backend::Yaml,
        ),
        (true, true) => shutdown_server(
            shutdown_server(
                ProxyModel { shutting_down: Some((id, 2)), ..asked },
                Backend::Bash,
            ),
            Backend::Yaml,
        ),
    }
}

pub open spec fn shutdown_server(p: ProxyModel, backend: Backend) -> ProxyModel {
    requested(p, backend, "shutdown"@, JsonModel::Null, PendingModel::Shutdown)
}

/// Whether a completion item is marked as one of yaml-language-server.
pub open spec fn is_marked(item: JsonModel) -> bool {
    match field(item, "data"@) {
        Some(data) => field(data, YAML_ITEM_MARKER@) is Some,
        None => false,
    }
}

/// bash-language-server resolves its items. All others are complete already.
pub open spec fn resolve(p: ProxyModel, id: JsonModel, params: JsonModel) -> ProxyModel {
    if is_marked(params) || !p.bash.ready {
        respond(p, id, params)
    } else {
        requested(
            p,
            Backend::Bash,
            "completionItem/resolve"@,
            params,
            PendingModel::Resolve(id),
        )
    }
}

pub open spec fn unsupported(method: Seq<char>) -> Seq<char> {
    "unsupported method "@ + method
}

pub open spec fn client_request(
    p: ProxyModel,
    method: Seq<char>,
    id: JsonModel,
    params: JsonModel,
) -> ProxyModel {
    if method == "initialize"@ {
        initialize(p, id, params)
    } else if method == "shutdown"@ {
        shutdown(p, id)
    } else if method == "textDocument/hover"@ {
        forward_positional(p, method, id, params, None)
    } else if method == "textDocument/completion"@ {
        forward_positional(p, method, id, params, Some(own_items(p, params)))
    } else if method == "completionItem/resolve"@ {
        resolve(p, id, params)
    } else {
        to_client(
            p,
            error_response(id, error_object(METHOD_NOT_FOUND as int, unsupported(method))),
        )
    }
}

/// The text of the last change. Full sync: it holds the whole document.
pub open spec fn last_change(params: JsonModel) -> Option<Seq<char>> {
    let changes = items_or_none(field_or_null(params, "contentChanges"@));
    if changes.len() > 0 {
        text_of(field_or_null(changes.last(), "text"@))
    } else {
        None
    }
}

/// A file has a new text, if the message names both.
pub open spec fn changed_if(p: ProxyModel, uri: Option<Seq<char>>, text: Option<Seq<char>>) -> ProxyModel {
    match (uri, text) {
        (Some(uri), Some(text)) => text_changed(p, uri, text),
        _ => p,
    }
}

/// The first `count` of the given files are looked at again.
pub open spec fn resynced(p: ProxyModel, files: Seq<DocumentModel>, count: int) -> ProxyModel
    decreases count,
{
    if count <= 0 {
        p
    } else {
        text_changed(
            resynced(p, files, count - 1),
            files[count - 1].uri,
            files[count - 1].text,
        )
    }
}

/// The settings change: the backends are told, and all files are looked at
/// again, because the shell directive is part of the virtual documents.
pub open spec fn configured(p: ProxyModel, params: JsonModel) -> ProxyModel {
    let settings = settings_of(field(params, "settings"@));
    let told = notify_server(
        notify_server(
            ProxyModel { settings, ..p },
            Backend::Bash,
            "workspace/didChangeConfiguration"@,
            settings_params("bashIde"@, settings.bash_ide),
        ),
        Backend::Yaml,
        "workspace/didChangeConfiguration"@,
        settings_params("yaml"@, settings.yaml),
    );
    resynced(told, p.documents, p.documents.len() as int)
}

/// The client request behind a request to a backend.
pub open spec fn client_id(pending: PendingModel) -> Option<JsonModel> {
    match pending {
        PendingModel::Hover(id, _) => Some(id),
        PendingModel::Completion(id, _, _) => Some(id),
        PendingModel::Resolve(id) => Some(id),
        _ => None,
    }
}

pub open spec fn serves(id: JsonModel) -> spec_fn(RequestModel) -> bool {
    |request: RequestModel|
        client_id(request.pending) matches Some(client) && same_json(client, id)
}

/// The client cancels a request: the backend that works on it is told, under
/// the number that it knows.
pub open spec fn cancelled(p: ProxyModel, id: JsonModel) -> ProxyModel {
    match first_index(p.pending, serves(id)) {
        Some(i) => notify_server(
            p,
            p.pending[i].backend,
            "$/cancelRequest"@,
            single("id"@, JsonModel::Integer(p.pending[i].id)),
        ),
        None => p,
    }
}

pub open spec fn exit_server(p: ProxyModel, backend: Backend) -> ProxyModel {
    if server(p, backend).running {
        with_server(
            to_server(p, backend, exit_message()),
            backend,
            Server { running: false, ..server(p, backend) },
        )
    } else {
        p
    }
}

/// The proxy exits, with success if the client asked it to shut down before.
pub open spec fn exited(p: ProxyModel) -> ProxyModel {
    emit(
        exit_server(exit_server(p, Backend::Bash), Backend::Yaml),
        ActionModel::Exit(
            if p.shutdown_requested {
                0
            } else {
                1
            },
        ),
    )
}

pub open spec fn client_notification(
    p: ProxyModel,
    method: Seq<char>,
    params: JsonModel,
) -> ProxyModel {
    let document = field_or_null(params, "textDocument"@);
    let uri = text_of(field_or_null(document, "uri"@));
    if method == "exit"@ {
        exited(p)
    } else if method == "textDocument/didOpen"@ {
        notify_server(
            changed_if(p, uri, text_of(field_or_null(document, "text"@))),
            Backend::Yaml,
            method,
            params,
        )
    } else if method == "textDocument/didChange"@ {
        notify_server(
            changed_if(p, uri, last_change(params)),
            Backend::Yaml,
            method,
            params,
        )
    } else if method == "textDocument/didClose"@ {
        notify_server(
            (match uri {
                Some(uri) => file_closed(p, uri),
                None => p,
            }),
            Backend::Yaml,
            method,
            params,
        )
    } else if method == "workspace/didChangeConfiguration"@ {
        configured(p, params)
    } else if method == "$/cancelRequest"@ {
        cancelled(p, field_or_null(params, "id"@))
    } else {
        p
    }
}

/// A message comes from the client. Responses are ignored: the proxy sends no
/// requests to the client.
pub open spec fn client_message(p: ProxyModel, message: JsonModel) -> ProxyModel {
    match field(message, "method"@) {
        Some(JsonModel::Text(method)) => {
            let params = field_or_null(message, "params"@);
            match field(message, "id"@) {
                Some(id) => client_request(p, method, id, params),
                None => client_notification(p, method, params),
            }
        },
        _ => p,
    }
}

/// Whether numbers are left for the requests and versions of one more message.
pub open spec fn within_limits(p: ProxyModel) -> bool {
    &&& p.next_id + 2 <= i64::MAX
    &&& versions_fit(p.documents, p.documents.len() as int + 1)
}

impl Proxy {
    /// Whether numbers are left for the requests and versions of one more message.
    pub fn has_numbers_left(&self) -> (r: bool)
        ensures
            r == within_limits(self@),
    {
        if self.next_id > i64::MAX - 2 {
            return false;
        }
        let ghost models = self@.documents;
        let count = self.documents.len();
        if count as u64 >= i64::MAX as u64 {
            return false;
        }
        let steps: i64 = count as i64 + 1;
        let mut i: usize = 0;
        while i < self.documents.len()
            invariant
                i <= self.documents@.len(),
                models == documents_view(self.documents@),
                self@.documents == models,
                steps == models.len() + 1,
                1 <= steps,
                forall|d: int, k: int|
                    0 <= d < i && 0 <= k < models[d].scripts.len()
                        ==> #[trigger] models[d].scripts[k].version + steps <= i64::MAX,
            decreases self.documents@.len() - i,
        {
            let scripts = &self.documents[i].scripts;
            assert(models[i as int] == self.documents@[i as int]@);
            let mut k: usize = 0;
            while k < scripts.len()
                invariant
                    k <= scripts@.len(),
                    i < models.len(),
                    models[i as int].scripts == virtuals_view(scripts@),
                    self@.documents == models,
                    steps == models.len() + 1,
                    1 <= steps,
                    forall|j: int|
                        0 <= j < k ==> #[trigger] models[i as int].scripts[j].version + steps
                            <= i64::MAX,
                decreases scripts@.len() - k,
            {
                assert(models[i as int].scripts[k as int] == scripts@[k as int]@);
                if scripts[k].version > i64::MAX - steps {
                    assert(models[i as int].scripts[k as int].version + steps > i64::MAX);
                    return false;
                }
                k = k + 1;
            }
            i = i + 1;
        }
        true
    }

    fn locate(&self, uri: &str, params: &Json) -> (r: Option<(String, Json)>)
        ensures
            located_view(r) == locate(self@, uri@, params@),
    {
        let position = params.at("position");
        let line = match position.at("line").as_index() {
            Some(line) => line,
            None => return None,
        };
        let character = match position.at("character").as_index() {
            Some(character) => character,
            None => return None,
        };
        match find_document(&self.documents, uri) {
            Some(i) => {
                assert(self@.documents[i as int] == self.documents@[i as int]@);
                self.documents[i].locate(line, character)
            },
            None => None,
        }
    }

    /// Sends requests inside a script to bash-language-server and all others
    /// to yaml-language-server.
    fn forward_positional(
        &mut self,
        method: &str,
        id: Json,
        params: Json,
        extra: Option<Vec<Json>>,
    )
        requires
            old(self)@.next_id < i64::MAX,
        ensures
            final(self)@ == forward_positional(
                old(self)@,
                method@,
                id@,
                params@,
                extra_view(extra),
            ),
    {
        let uri = match params.at("textDocument").at("uri").as_str() {
            Some(uri) => uri.to_owned(),
            None => {
                self.respond(id, Json::Null);
                return ;
            },
        };
        match self.locate(uri.as_str(), &params) {
            Some((virtual_uri, position)) => {
                if !self.ready(Backend::Bash) {
                    self.respond(id, Json::Null);
                    return ;
                }
                let params = params.with(
                    "textDocument",
                    single_json("uri", Json::string(virtual_uri.as_str())),
                ).with("position", position);
                let target = Target::Script(virtual_uri);
                let pending = match extra {
                    Some(extra) => Pending::Completion(id, target, extra),
                    None => Pending::Hover(id, target),
                };
                self.request(Backend::Bash, method, params, pending);
            },
            None => {
                if same_text(method, "textDocument/completion") && is_turned_off(
                    &self.settings.yaml,
                ) {
                    self.respond(id, Json::Null);
                } else if self.ready(Backend::Yaml) && find_document(
                    &self.documents,
                    uri.as_str(),
                ).is_some() {
                    let pending = match extra {
                        Some(extra) => Pending::Completion(id, Target::Yaml, extra),
                        None => Pending::Hover(id, Target::Yaml),
                    };
                    self.request(Backend::Yaml, method, params, pending);
                } else {
                    self.respond(id, Json::Null);
                }
            },
        }
    }

    fn own_items(&self, params: &Json) -> (r: Vec<Json>)
        ensures
            items_view(r@) == own_items(self@, params@),
    {
        let none: Vec<Json> = Vec::new();
        assert(items_view(none@) =~= Seq::<JsonModel>::empty());
        match params.at("textDocument").at("uri").as_str() {
            Some(uri) => match find_document(&self.documents, uri) {
                Some(i) => {
                    assert(self@.documents[i as int] == self.documents@[i as int]@);
                    script_items(
                        self.documents[i].text.as_str(),
                        params.at("position"),
                        &self.settings.yaml,
                        self.snippets,
                    )
                },
                None => none,
            },
            None => none,
        }
    }

    fn shutdown(&mut self, id: Json)
        requires
            old(self)@.next_id + 2 <= i64::MAX,
        ensures
            final(self)@ == shutdown(old(self)@, id@),
    {
        self.shutdown_requested = true;
        let bash = self.running(Backend::Bash);
        let yaml = self.running(Backend::Yaml);
        if !bash && !yaml {
            self.respond(id, Json::Null);
            return ;
        }
        let count: usize = if bash && yaml {
            2
        } else {
            1
        };
        self.shutting_down = Some((id, count));
        if bash {
            self.request(Backend::Bash, "shutdown", Json::Null, Pending::Shutdown);
        }
        if yaml {
            self.request(Backend::Yaml, "shutdown", Json::Null, Pending::Shutdown);
        }
    }

    fn resolve(&mut self, id: Json, params: Json)
        requires
            old(self)@.next_id < i64::MAX,
        ensures
            final(self)@ == resolve(old(self)@, id@, params@),
    {
        let from_yaml = match params.get("data") {
            Some(data) => data.get(YAML_ITEM_MARKER).is_some(),
            None => false,
        };
        if from_yaml || !self.ready(Backend::Bash) {
            self.respond(id, params);
        } else {
            self.request(
                Backend::Bash,
                "completionItem/resolve",
                params,
                Pending::Resolve(id),
            );
        }
    }

    fn on_client_request(&mut self, method: &str, id: Json, params: Json)
        requires
            old(self)@.next_id + 2 <= i64::MAX,
        ensures
            final(self)@ == client_request(old(self)@, method@, id@, params@),
    {
        if same_text(method, "initialize") {
            self.initialize(id, &params);
        } else if same_text(method, "shutdown") {
            self.shutdown(id);
        } else if same_text(method, "textDocument/hover") {
            self.forward_positional(method, id, params, None);
        } else if same_text(method, "textDocument/completion") {
            let extra = self.own_items(&params);
            self.forward_positional(method, id, params, Some(extra));
        } else if same_text(method, "completionItem/resolve") {
            self.resolve(id, params);
        } else {
            let mut message = "unsupported method ".to_owned();
            message.append(method);
            self.respond_error(id, METHOD_NOT_FOUND, message.as_str());
        }
    }

    fn configure(&mut self, params: &Json)
        requires
            versions_fit(old(self)@.documents, old(self)@.documents.len() as int + 1),
        ensures
            final(self)@ == configured(old(self)@, params@),
    {
        let ghost p = self@;
        self.settings = Settings::from_value(params.get("settings"));
        let bash = settings_params_json("bashIde", self.settings.bash_ide.duplicate());
        self.notify_server(Backend::Bash, "workspace/didChangeConfiguration", bash);
        let yaml = settings_params_json("yaml", self.settings.yaml.duplicate());
        self.notify_server(Backend::Yaml, "workspace/didChangeConfiguration", yaml);
        // The shell directive is part of the virtual documents.
        let ghost told = self@;
        let ghost files = p.documents;
        let mut open: Vec<(String, String)> = Vec::new();
        let mut i: usize = 0;
        while i < self.documents.len()
            invariant
                i <= self.documents@.len(),
                self@ == told,
                files == told.documents,
                files == documents_view(self.documents@),
                open@.len() == i,
                forall|k: int|
                    0 <= k < i ==> (#[trigger] open@[k]).0@ == files[k].uri && open@[k].1@
                        == files[k].text,
            decreases self.documents@.len() - i,
        {
            assert(files[i as int] == self.documents@[i as int]@);
            open.push((self.documents[i].uri.clone(), self.documents[i].text.clone()));
            i = i + 1;
        }
        for file in it: open
            invariant
                it.seq() == open@,
                open@.len() == files.len(),
                forall|k: int|
                    0 <= k < open@.len() ==> (#[trigger] open@[k]).0@ == files[k].uri && open@[k].1@
                        == files[k].text,
                self@ == resynced(told, files, it.index() as int),
                versions_fit(self@.documents, files.len() + 1 - it.index()),
        {
            let ghost before = self@;
            proof {
                assert(open@[it.index() as int] == file);
                let steps = files.len() + 1 - it.index();
                lemma_versions_weaken(before.documents, steps, 1);
                lemma_text_changed_versions(before, file.0@, file.1@, steps);
            }
            let (uri, text) = file;
            self.sync(uri, text);
        }
    }

    fn find_served(&self, id: &Json) -> (r: Option<usize>)
        ensures
            match r {
                Some(i) => i < self@.pending.len() && first_index(self@.pending, serves(id@))
                    == Some(i as int),
                None => first_index(self@.pending, serves(id@)) is None,
            },
    {
        let ghost requests = self@.pending;
        let mut i: usize = 0;
        while i < self.pending.len()
            invariant
                i <= self.pending@.len(),
                requests == requests_view(self.pending@),
                self@.pending == requests,
                forall|k: int| 0 <= k < i ==> !serves(id@)(#[trigger] requests[k]),
            decreases self.pending@.len() - i,
        {
            assert(requests[i as int] == self.pending@[i as int]@);
            let served = match &self.pending[i].pending {
                Pending::Hover(client, _) => client.same(id),
                Pending::Completion(client, _, _) => client.same(id),
                Pending::Resolve(client) => client.same(id),
                _ => false,
            };
            if served {
                proof {
                    lemma_first_from_is(requests, serves(id@), 0, i as int);
                }
                return Some(i);
            }
            i = i + 1;
        }
        proof {
            lemma_first_from(requests, serves(id@), 0);
        }
        None
    }

    fn cancel(&mut self, id: &Json)
        ensures
            final(self)@ == cancelled(old(self)@, id@),
    {
        if let Some(i) = self.find_served(id) {
            assert(self@.pending[i as int] == self.pending@[i as int]@);
            let backend = self.pending[i].backend;
            let number = self.pending[i].id;
            self.notify_server(
                backend,
                "$/cancelRequest",
                single_json("id", Json::Int(number)),
            );
        }
    }

    fn exit_server(&mut self, backend: Backend)
        ensures
            final(self)@ == exit_server(old(self)@, backend),
    {
        if self.running(backend) {
            let ready = self.ready(backend);
            self.send_server(backend, exit_json());
            self.set_server(backend, Server { running: false, ready });
        }
    }

    /// Ends the proxy: the client asked for it, or is gone.
    pub fn exit(&mut self)
        ensures
            final(self)@ == exited(old(self)@),
    {
        self.exit_server(Backend::Bash);
        self.exit_server(Backend::Yaml);
        let code: i32 = if self.shutdown_requested {
            0
        } else {
            1
        };
        self.emit(Action::Exit(code));
    }

    fn on_client_notification(&mut self, method: &str, params: Json)
        requires
            within_limits(old(self)@),
        ensures
            final(self)@ == client_notification(old(self)@, method@, params@),
    {
        proof {
            lemma_versions_weaken(self@.documents, self@.documents.len() as int + 1, 1);
        }
        if same_text(method, "exit") {
            self.exit();
        } else if same_text(method, "textDocument/didOpen") {
            let document = params.at("textDocument");
            if let (Some(uri), Some(text)) = (
                document.at("uri").as_str(),
                document.at("text").as_str(),
            ) {
                self.sync(uri.to_owned(), text.to_owned());
            }
            self.notify_server(Backend::Yaml, method, params);
        } else if same_text(method, "textDocument/didChange") {
            if let (Some(uri), Some(text)) = (
                params.at("textDocument").at("uri").as_str(),
                last_change_of(&params),
            ) {
                self.sync(uri.to_owned(), text.to_owned());
            }
            self.notify_server(Backend::Yaml, method, params);
        } else if same_text(method, "textDocument/didClose") {
            if let Some(uri) = params.at("textDocument").at("uri").as_str() {
                self.close(uri);
            }
            self.notify_server(Backend::Yaml, method, params);
        } else if same_text(method, "workspace/didChangeConfiguration") {
            self.configure(&params);
        } else if same_text(method, "$/cancelRequest") {
            self.cancel(params.at("id"));
        }
    }

    /// Handles a message from the client.
    pub fn on_client_message(&mut self, message: Json)
        requires
            within_limits(old(self)@),
        ensures
            final(self)@ == client_message(old(self)@, message@),
    {
        let method = match message.get("method") {
            Some(method) => match method.as_str() {
                Some(method) => method.to_owned(),
                None => return ,
            },
            None => return ,
        };
        let params = field_copy(&message, "params");
        match message.get("id") {
            Some(id) => self.on_client_request(method.as_str(), id.duplicate(), params),
            None => self.on_client_notification(method.as_str(), params),
        }
    }
}

pub open spec fn extra_view(extra: Option<Vec<Json>>) -> Option<Seq<JsonModel>> {
    match extra {
        Some(extra) => Some(items_view(extra@)),
        None => None,
    }
}

fn last_change_of(params: &Json) -> (r: Option<&str>)
    ensures
        match r {
            Some(text) => last_change(params@) == Some(text@),
            None => last_change(params@) is None,
        },
{
    match params.at("contentChanges").as_array() {
        Some(changes) => {
            if changes.len() == 0 {
                return None;
            }
            let last = &changes[changes.len() - 1];
            assert(items_view(changes@).last() == last@);
            last.at("text").as_str()
        },
        None => None,
    }
}

/// Room for several more versions is room for fewer.
pub proof fn lemma_versions_weaken(documents: Seq<DocumentModel>, steps: int, fewer: int)
    requires
        versions_fit(documents, steps),
        fewer <= steps,
    ensures
        versions_fit(documents, fewer),
{
    assert forall|i: int, k: int|
        0 <= i < documents.len() && 0 <= k < documents[i].scripts.len() implies #[trigger] documents[i].scripts[k].version
        + fewer <= i64::MAX by {
        assert(documents[i].scripts[k].version + steps <= i64::MAX);
    }
}

proof fn lemma_text_changed_versions(p: ProxyModel, uri: Seq<char>, text: Seq<char>, steps: int)
    requires
        1 <= steps,
        versions_fit(p.documents, steps),
    ensures
        versions_fit(text_changed(p, uri, text).documents, steps - 1),
{
    lemma_synced_versions(
        p,
        uri,
        text,
        source_lines(text),
        scripts_of(source_lines(text), yaml_events(text)),
        steps,
    );
}

} // verus!
